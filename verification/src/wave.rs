//! Power traces of waveforms that `wellen` has loaded.

use crate::signal::{ChangeModel, SignalChange, SignalValue};
use crate::synth::{
    callable_on_power, changes_model, generate_power_trace, is_power_trace, signals_comparable,
    signals_in_range, signals_model, SynthesisError,
};
use vstd::prelude::*;

verus! {

/// `wellen::Signal`: the changes of one signal as `wellen` has loaded them;
/// nothing is known of it but through [`signal_changes`].
#[verifier::external_type_specification]
#[verifier::external_body]
pub struct ExSignal(wellen::Signal);

/// `wellen::SignalRef`: the name under which `wellen` hands out a signal.
/// It is carried beside the signal and never read.
#[verifier::external_type_specification]
#[verifier::external_body]
pub struct ExSignalRef(wellen::SignalRef);

/// The changes that a loaded signal holds, in their order.
pub uninterp spec fn signal_changes(signal: wellen::Signal) -> Seq<ChangeModel>;

/// `wellen::Signal::iter_changes`, collected: the changes of the signal in
/// their order, each with its index into the time table and its value.  Of a
/// real value the bit pattern is kept.
#[verifier::external_body]
fn changes_of(signal: &wellen::Signal) -> (changes: Vec<SignalChange>)
    ensures
        changes_model(changes@) == signal_changes(*signal),
{
    signal.iter_changes().map(|(time_index, value)| {
        let value = match value {
            wellen::SignalValue::Binary(data, bits) => SignalValue::Binary(data.to_vec(), bits),
            wellen::SignalValue::FourValue(data, bits) => SignalValue::FourValue(data.to_vec(), bits),
            wellen::SignalValue::NineValue(data, bits) => SignalValue::NineValue(data.to_vec(), bits),
            wellen::SignalValue::String(text) => SignalValue::Text(text.to_string()),
            wellen::SignalValue::Real(number) => SignalValue::Real(number.to_bits()),
        };
        SignalChange { time_index, value }
    }).collect()
}

/// The changes of loaded signals, signal by signal.
pub open spec fn loaded_model(signals: Seq<(wellen::SignalRef, wellen::Signal)>) -> Seq<
    Seq<ChangeModel>,
> {
    Seq::new(signals.len(), |s: int| signal_changes(signals[s].1))
}

/// Reads the changes out of loaded signals.
pub fn changes_of_signals(signals: &[(wellen::SignalRef, wellen::Signal)]) -> (changes: Vec<
    Vec<SignalChange>,
>)
    ensures
        signals_model(changes@) == loaded_model(signals@),
{
    let mut changes: Vec<Vec<SignalChange>> = Vec::new();
    let mut s: usize = 0;
    while s < signals.len()
        invariant
            s <= signals@.len(),
            changes@.len() == s,
            forall|k: int|
                0 <= k < s ==> changes_model((#[trigger] changes@[k])@) == signal_changes(
                    signals@[k].1,
                ),
        decreases signals@.len() - s,
    {
        changes.push(changes_of(&signals[s].1));
        s = s + 1;
    }
    proof {
        assert(signals_model(changes@) =~= loaded_model(signals@));
    }
    changes
}

/// Synthesizes the power trace of a loaded waveform: of its signals over its
/// time table.
///
/// Returns the timestamps and, beside them, the power samples.  Where
/// `do_filter` is set, only the entries that `filter_predicate` accepts take
/// part.
pub fn wave_to_powertrace<F: Fn(&(u64, u64)) -> bool>(
    signals: &[(wellen::SignalRef, wellen::Signal)],
    time_table: &[u64],
    filter_predicate: F,
    do_filter: bool,
) -> (r: Result<(Vec<u64>, Vec<u64>), SynthesisError>)
    requires
        do_filter ==> callable_on_power(loaded_model(signals@), time_table@, filter_predicate),
    ensures
        match r {
            Ok(out) => {
                &&& signals_in_range(loaded_model(signals@), time_table@.len())
                &&& signals_comparable(loaded_model(signals@))
                &&& is_power_trace(
                    loaded_model(signals@),
                    time_table@,
                    filter_predicate,
                    do_filter,
                    out.0@,
                    out.1@,
                )
            },
            Err(SynthesisError::TimeIndexOutOfRange) => !signals_in_range(
                loaded_model(signals@),
                time_table@.len(),
            ),
            Err(SynthesisError::IncomparableValues) => {
                &&& signals_in_range(loaded_model(signals@), time_table@.len())
                &&& !signals_comparable(loaded_model(signals@))
            },
        },
{
    let changes: Vec<Vec<SignalChange>> = changes_of_signals(signals);
    generate_power_trace(changes.as_slice(), time_table, filter_predicate, do_filter)
}

} // verus!
