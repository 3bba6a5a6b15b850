use scasim::synth::SynthesisError;
use scasim::wave::{changes_of_signals, wave_to_powertrace};
use scasim::signal::SignalValue;
use wellen::{LoadOptions, Signal, SignalRef};

const VCD: &str = "$timescale 1ns $end
$scope module top $end
$var wire 8 ! data $end
$var wire 1 \" clk $end
$var real 1 # level $end
$upscope $end
$enddefinitions $end
#0
b00000000 !
0\"
r0.5 #
#5
1\"
#10
b00001111 !
0\"
#15
1\"
r1.5 #
#20
b11111111 !
0\"
#25
1\"
";

fn load(text: &str) -> (Vec<(SignalRef, Signal)>, Vec<u64>) {
    let options = LoadOptions { multi_thread: false, remove_scopes_with_empty_name: false };
    let input = std::io::Cursor::new(text.as_bytes().to_vec());
    let header = wellen::viewers::read_header(input, &options).unwrap();
    let hierarchy = header.hierarchy;
    let body = wellen::viewers::read_body(header.body, &hierarchy, None).unwrap();
    let refs: Vec<SignalRef> = hierarchy.iter_vars().map(|v| v.signal_ref()).collect();
    let mut source = body.source;
    (source.load_signals(&refs, &hierarchy, false), body.time_table)
}

#[test]
fn changes_are_read_out_of_loaded_signals() {
    let (signals, time_table) = load(VCD);
    assert_eq!(time_table, vec![0, 5, 10, 15, 20, 25]);
    assert_eq!(signals.len(), 3);
    let changes = changes_of_signals(&signals);
    assert_eq!(changes.len(), 3);
    let data = &changes[0];
    let indices: Vec<u32> = data.iter().map(|c| c.time_index).collect();
    assert_eq!(indices, vec![0, 2, 4]);
    assert!(matches!(&data[1].value, SignalValue::Binary(bytes, 8) if bytes == &vec![0x0f]));
    let clk = &changes[1];
    assert_eq!(clk.len(), 6);
    assert!(matches!(&clk[1].value, SignalValue::Binary(bytes, 1) if bytes == &vec![1]));
    let level = &changes[2];
    assert_eq!(level.len(), 2);
    assert!(matches!(level[1].value, SignalValue::Real(pattern) if f64::from_bits(pattern) == 1.5));
}

#[test]
fn the_power_trace_of_a_loaded_waveform() {
    let (signals, time_table) = load(VCD);
    // data: 4 bits at 10, 4 bits at 20; clk: one bit at every timestamp but the first
    let (times, powers) = wave_to_powertrace(&signals, &time_table, |_| true, false).unwrap();
    assert_eq!(times, vec![0, 5, 10, 15, 20]);
    assert_eq!(powers, vec![0, 1, 5, 1, 5]);
    let at_tens = |e: &(u64, u64)| e.0 % 10 == 0;
    let (times, powers) = wave_to_powertrace(&signals, &time_table, at_tens, true).unwrap();
    assert_eq!(times, vec![0, 10]);
    assert_eq!(powers, vec![0, 5]);
}

#[test]
fn a_waveform_longer_than_its_time_table_is_refused() {
    let (signals, time_table) = load(VCD);
    let r = wave_to_powertrace(&signals, &time_table[..3], |_| true, false);
    assert!(matches!(r, Err(SynthesisError::TimeIndexOutOfRange)));
}

#[test]
fn signals_of_strings_draw_nothing() {
    let id = SignalRef::from_index(0).unwrap();
    let signal = Signal::new_var_len(id, vec![0, 1, 2], vec!["a".to_string(), "b".to_string(), "c".to_string()]);
    let signals = vec![(id, signal)];
    let changes = changes_of_signals(&signals);
    assert_eq!(changes[0].len(), 3);
    assert!(matches!(&changes[0][2].value, SignalValue::Text(text) if text == "c"));
    let (times, powers) = wave_to_powertrace(&signals, &[0, 1, 2, 3], |_| true, false).unwrap();
    assert_eq!(times, vec![0, 1, 2]);
    assert_eq!(powers, vec![0, 0, 0]);
}
