use scasim::{
    cut_trace, generate_power_trace, markers_to_time_indices, power_model, traces_from_fst, FstEvent,
    Hamming, OptionalFilter, SignalChange, SignalValue, TraceMatrix,
};

#[test]
fn from_changes_to_labelled_traces() {
    let change = |time_index: u32, byte: u8| SignalChange {
        time_index,
        value: SignalValue::Binary(vec![byte], 8),
    };
    let signals = vec![
        vec![change(0, 0x00), change(1, 0x01), change(2, 0x03), change(3, 0x07), change(4, 0x0f)],
        vec![change(0, 0xff), change(2, 0x00), change(5, 0xff)],
    ];
    let time_table = vec![0u64, 10, 20, 30, 40, 50, 60];
    let (times, powers) = generate_power_trace(&signals, &time_table, |_| true, false).unwrap();
    assert_eq!(times, vec![0, 10, 20, 30, 40, 50]);
    assert_eq!(powers, vec![0, 1, 9, 1, 1, 8]);
    let markers = vec![(0u64, 30u64, 1u16), (30, 60, 0)];
    assert_eq!(markers_to_time_indices(&markers, &times), vec![(0, 3, 1), (3, 6, 0)]);
    let (matrix, labels) = cut_trace(&powers, &times, &markers).unwrap();
    assert_eq!(matrix.to_rows(), vec![vec![0, 1, 9], vec![1, 1, 8]]);
    assert_eq!(labels, vec![1, 0]);
}

#[test]
fn the_power_of_a_transition_is_its_distance() {
    let before = SignalValue::Binary(vec![0b1100_0011, 0x01], 9);
    let after = SignalValue::Binary(vec![0b0011_0011, 0x00], 9);
    assert_eq!(power_model(&before, &after), 5);
    assert_eq!(after.hamming_distance(&before), 5);
    assert_eq!(before.hamming_weight(), 5);
}

#[test]
fn names_at_the_root() {
    let mut filter = OptionalFilter::new(vec![1u8]);
    assert_eq!(filter.next(), Some(1));
    assert!(TraceMatrix::zeros(1, 1).is_some());
    let events = vec![vec![FstEvent { time: 0, signal: 0, value: vec![b'1'] }]];
    let (matrix, labels) = traces_from_fst(&[0, 1], &[(0, 2, 3)], events, |_| true).unwrap();
    assert_eq!(matrix.to_rows(), vec![vec![0, 0]]);
    assert_eq!(labels, vec![3]);
}
