//! Synthesis of one power series from the change streams of many signals.
//!
//! Every change of a signal after its first draws as much power as bits
//! toggle.  The contributions of all signals are summed per point of the
//! time table; entries that share a timestamp are then merged.

use crate::optional_filter::{
    answers_of, callable_on, is_optional_selection, retained, FilterAdaptorWithCondition,
    OptionalFilter,
};
use crate::power_model::power_model;
use crate::segment::sorted;
use crate::signal::{
    can_compare, value_distance, values_comparable, ChangeModel, SignalChange,
};
use vstd::prelude::*;

verus! {

/// A power sample is held in 64 bits; a sum beyond that stays at the largest
/// value.
pub open spec fn sat(x: nat) -> u64 {
    if x <= u64::MAX {
        x as u64
    } else {
        u64::MAX
    }
}

/// Adds two power samples.
pub fn sat_add(a: u64, b: u64) -> (r: u64)
    ensures
        r == sat((a + b) as nat),
{
    if a <= u64::MAX - b {
        a + b
    } else {
        u64::MAX
    }
}

/// The changes of one signal, as a sequence of models.
pub open spec fn changes_model(changes: Seq<SignalChange>) -> Seq<ChangeModel> {
    Seq::new(changes.len(), |k: int| changes[k]@)
}

/// The changes of several signals, as sequences of models.
pub open spec fn signals_model(signals: Seq<Vec<SignalChange>>) -> Seq<Seq<ChangeModel>> {
    Seq::new(signals.len(), |s: int| changes_model(signals[s]@))
}

/// The power that one signal draws at the point `idx` of the time table:
/// the distance of each change from the one before it, over the changes that
/// happen at `idx`.  The first change has none before it and draws nothing.
pub open spec fn signal_power_at(changes: Seq<ChangeModel>, idx: int) -> nat
    decreases changes.len(),
{
    if changes.len() < 2 {
        0
    } else {
        let last = changes[changes.len() - 1];
        let before = changes[changes.len() - 2];
        signal_power_at(changes.drop_last(), idx) + if last.time_index == idx {
            value_distance(last.value, before.value)
        } else {
            0
        }
    }
}

/// The power that all signals together draw at the point `idx` of the time
/// table.
pub open spec fn total_power_at(signals: Seq<Seq<ChangeModel>>, idx: int) -> nat
    decreases signals.len(),
{
    if signals.len() == 0 {
        0
    } else {
        total_power_at(signals.drop_last(), idx) + signal_power_at(signals.last(), idx)
    }
}

/// The power series over a time table of `len` points.
pub open spec fn dense_power(signals: Seq<Seq<ChangeModel>>, len: nat) -> Seq<u64> {
    Seq::new(len, |i: int| sat(total_power_at(signals, i)))
}

/// Whether every change of a signal after its first lies within a time table
/// of `len` points.
pub open spec fn changes_in_range(changes: Seq<ChangeModel>, len: nat) -> bool {
    forall|k: int| 1 <= k < changes.len() ==> (#[trigger] changes[k]).time_index < len
}

/// Whether every change of a signal can be compared with the one before it.
pub open spec fn changes_comparable(changes: Seq<ChangeModel>) -> bool {
    forall|k: int|
        1 <= k < changes.len() ==> values_comparable(
            (#[trigger] changes[k]).value,
            changes[k - 1].value,
        )
}

/// Whether every signal lies within a time table of `len` points.
pub open spec fn signals_in_range(signals: Seq<Seq<ChangeModel>>, len: nat) -> bool {
    forall|s: int| 0 <= s < signals.len() ==> changes_in_range(#[trigger] signals[s], len)
}

/// Whether, in every signal, each change can be compared with the one before
/// it.
pub open spec fn signals_comparable(signals: Seq<Seq<ChangeModel>>) -> bool {
    forall|s: int| 0 <= s < signals.len() ==> changes_comparable(#[trigger] signals[s])
}

/// Decides whether every signal lies within a time table of `len` points.
pub fn check_in_range(signals: &[Vec<SignalChange>], len: usize) -> (ok: bool)
    ensures
        ok == signals_in_range(signals_model(signals@), len as nat),
{
    let ghost model = signals_model(signals@);
    let mut s: usize = 0;
    while s < signals.len()
        invariant
            s <= signals@.len(),
            model == signals_model(signals@),
            forall|t: int| 0 <= t < s ==> changes_in_range(#[trigger] model[t], len as nat),
        decreases signals@.len() - s,
    {
        let changes = &signals[s];
        let mut k: usize = 1;
        while k < changes.len()
            invariant
                1 <= k,
                0 <= s < signals@.len(),
                changes@ == signals@[s as int]@,
                model == signals_model(signals@),
                forall|j: int| 1 <= j < k && j < changes@.len() ==> (#[trigger] model[s as int][j]).time_index < len,
            decreases changes@.len() - k,
        {
            if changes[k].time_index as usize >= len {
                assert(!((#[trigger] model[s as int][k as int]).time_index < len));
                assert(!changes_in_range(model[s as int], len as nat));
                return false;
            }
            k = k + 1;
        }
        s = s + 1;
    }
    true
}

/// Decides whether, in every signal, each change can be compared with the
/// one before it.
pub fn check_comparable(signals: &[Vec<SignalChange>]) -> (ok: bool)
    ensures
        ok == signals_comparable(signals_model(signals@)),
{
    let ghost model = signals_model(signals@);
    let mut s: usize = 0;
    while s < signals.len()
        invariant
            s <= signals@.len(),
            model == signals_model(signals@),
            forall|t: int| 0 <= t < s ==> changes_comparable(#[trigger] model[t]),
        decreases signals@.len() - s,
    {
        let changes = &signals[s];
        let mut k: usize = 1;
        while k < changes.len()
            invariant
                1 <= k,
                0 <= s < signals@.len(),
                changes@ == signals@[s as int]@,
                model == signals_model(signals@),
                forall|j: int|
                    1 <= j < k && j < changes@.len() ==> values_comparable(
                        (#[trigger] model[s as int][j]).value,
                        model[s as int][j - 1].value,
                    ),
            decreases changes@.len() - k,
        {
            if !can_compare(&changes[k].value, &changes[k - 1].value) {
                assert(!values_comparable(
                    (#[trigger] model[s as int][k as int]).value,
                    model[s as int][k - 1].value,
                ));
                assert(!changes_comparable(model[s as int]));
                return false;
            }
            k = k + 1;
        }
        s = s + 1;
    }
    true
}

/// One more change adds its distance from the change before it, at its own
/// point of the time table.
proof fn lemma_signal_power_step(changes: Seq<ChangeModel>, k: int, idx: int)
    requires
        1 <= k < changes.len(),
    ensures
        signal_power_at(changes.take(k + 1), idx) == signal_power_at(changes.take(k), idx) + (if changes[k].time_index
            == idx {
            value_distance(changes[k].value, changes[k - 1].value)
        } else {
            0
        }),
{
    assert(changes.take(k + 1).drop_last() =~= changes.take(k));
}

/// One more signal adds its power.
proof fn lemma_total_power_step(signals: Seq<Seq<ChangeModel>>, s: int, idx: int)
    requires
        0 <= s < signals.len(),
    ensures
        total_power_at(signals.take(s + 1), idx) == total_power_at(signals.take(s), idx)
            + signal_power_at(signals[s], idx),
{
    assert(signals.take(s + 1).drop_last() =~= signals.take(s));
}

/// Sums the power that the signals draw at each of the `len` points of the
/// time table.
pub fn accumulate_power(signals: &[Vec<SignalChange>], len: usize) -> (table: Vec<u64>)
    requires
        signals_in_range(signals_model(signals@), len as nat),
        signals_comparable(signals_model(signals@)),
    ensures
        table@ == dense_power(signals_model(signals@), len as nat),
{
    let ghost model = signals_model(signals@);
    let mut table: Vec<u64> = Vec::new();
    let mut i: usize = 0;
    while i < len
        invariant
            i <= len,
            table@.len() == i,
            forall|j: int| 0 <= j < i ==> table@[j] == 0,
        decreases len - i,
    {
        table.push(0);
        i = i + 1;
    }
    let mut s: usize = 0;
    while s < signals.len()
        invariant
            s <= signals@.len(),
            model == signals_model(signals@),
            signals_in_range(model, len as nat),
            signals_comparable(model),
            table@.len() == len,
            forall|j: int|
                0 <= j < len ==> #[trigger] table@[j] == sat(total_power_at(model.take(s as int), j)),
        decreases signals@.len() - s,
    {
        let changes = &signals[s];
        let ghost cm = model[s as int];
        let ghost base = model.take(s as int);
        assert(changes_in_range(cm, len as nat));
        assert(changes_comparable(cm));
        let mut k: usize = 1;
        while k < changes.len()
            invariant
                1 <= k,
                k <= changes@.len() || k == 1,
                cm == changes_model(changes@),
                changes_in_range(cm, len as nat),
                changes_comparable(cm),
                table@.len() == len,
                forall|j: int|
                    0 <= j < len ==> #[trigger] table@[j] == sat(
                        total_power_at(base, j) + signal_power_at(
                            cm.take(if k <= cm.len() {
                                k as int
                            } else {
                                cm.len() as int
                            }),
                            j,
                        ),
                    ),
            decreases changes@.len() - k,
        {
            assert(values_comparable(cm[k as int].value, cm[k - 1].value));
            assert(cm[k as int].time_index < len);
            let drawn: u64 = power_model(&changes[k - 1].value, &changes[k].value);
            let at: usize = changes[k].time_index as usize;
            let sum: u64 = sat_add(table[at], drawn);
            proof {
                assert forall|j: int| 0 <= j < len implies signal_power_at(cm.take(k + 1), j)
                    == signal_power_at(cm.take(k as int), j) + (if cm[k as int].time_index == j {
                    value_distance(cm[k as int].value, cm[k - 1].value)
                } else {
                    0
                }) by {
                    lemma_signal_power_step(cm, k as int, j);
                }
            }
            table.set(at, sum);
            k = k + 1;
        }
        proof {
            assert forall|j: int| 0 <= j < len implies #[trigger] table@[j] == sat(
                total_power_at(model.take(s + 1), j),
            ) by {
                lemma_total_power_step(model, s as int, j);
                if changes@.len() >= 1 {
                    assert(cm.take(cm.len() as int) =~= cm);
                    if k > cm.len() {
                        assert(cm.take(cm.len() as int).len() < 2);
                    }
                } else {
                    assert(cm.take(0) =~= cm);
                }
            }
        }
        s = s + 1;
    }
    proof {
        assert(model.take(s as int) =~= model);
        assert(table@ =~= dense_power(model, len as nat));
    }
    table
}

/// The time table paired with the power series: one entry of timestamp and
/// power per point, as far as both reach.
pub open spec fn paired(times: Seq<u64>, powers: Seq<u64>) -> Seq<(u64, u64)> {
    Seq::new(
        if times.len() <= powers.len() {
            times.len()
        } else {
            powers.len()
        },
        |i: int| (times[i], powers[i]),
    )
}

/// The timestamps of a sequence of entries.
pub open spec fn times_of(entries: Seq<(u64, u64)>) -> Seq<u64> {
    Seq::new(entries.len(), |i: int| entries[i].0)
}

/// The power samples of a sequence of entries.
pub open spec fn powers_of(entries: Seq<(u64, u64)>) -> Seq<u64> {
    Seq::new(entries.len(), |i: int| entries[i].1)
}

/// The power of the run of entries that ends at `i`: the entry at `i` and
/// all entries directly before it that share its timestamp.
pub open spec fn run_power(entries: Seq<(u64, u64)>, i: int) -> nat
    decreases i,
{
    if i < 0 || i >= entries.len() {
        0
    } else if i > 0 && entries[i - 1].0 == entries[i].0 {
        entries[i].1 as nat + run_power(entries, i - 1)
    } else {
        entries[i].1 as nat
    }
}

/// The entries with each run of equal timestamps merged into one sample.
///
/// An entry is emitted where the entry after it has another timestamp; it
/// carries the power of the run that ends there.  The last run is followed
/// by nothing and is not emitted.
pub open spec fn merged(entries: Seq<(u64, u64)>) -> Seq<(u64, u64)>
    decreases entries.len(),
{
    if entries.len() < 2 {
        Seq::empty()
    } else {
        let i = entries.len() - 2;
        let head = merged(entries.drop_last());
        if entries[i].0 != entries[i + 1].0 {
            head.push((entries[i].0, sat(run_power(entries, i))))
        } else {
            head
        }
    }
}

/// The power of a run depends only on the entries up to its end.
pub proof fn lemma_run_power_prefix(entries: Seq<(u64, u64)>, m: int, i: int)
    requires
        0 <= i < m <= entries.len(),
    ensures
        run_power(entries.take(m), i) == run_power(entries, i),
    decreases i,
{
    if i > 0 {
        lemma_run_power_prefix(entries, m, i - 1);
    }
}

/// Pairs each timestamp with the power sample at the same position.
pub fn pair_up(times: &[u64], powers: &[u64]) -> (entries: Vec<(u64, u64)>)
    ensures
        entries@ == paired(times@, powers@),
{
    let n: usize = if times.len() <= powers.len() {
        times.len()
    } else {
        powers.len()
    };
    let mut entries: Vec<(u64, u64)> = Vec::new();
    let mut i: usize = 0;
    while i < n
        invariant
            i <= n,
            n <= times@.len(),
            n <= powers@.len(),
            entries@.len() == i,
            forall|j: int| 0 <= j < i ==> entries@[j] == (times@[j], powers@[j]),
        decreases n - i,
    {
        entries.push((times[i], powers[i]));
        i = i + 1;
    }
    proof {
        assert(entries@ =~= paired(times@, powers@));
    }
    entries
}

/// Merges each run of entries that share a timestamp into one sample, and
/// hands out the timestamps and the power samples apart.
pub fn merge_duplicates(entries: &[(u64, u64)]) -> (r: (Vec<u64>, Vec<u64>))
    ensures
        r.0@ == times_of(merged(entries@)),
        r.1@ == powers_of(merged(entries@)),
{
    let mut times: Vec<u64> = Vec::new();
    let mut powers: Vec<u64> = Vec::new();
    if entries.len() < 2 {
        proof {
            assert(times@ =~= times_of(merged(entries@)));
            assert(powers@ =~= powers_of(merged(entries@)));
        }
        return (times, powers);
    }
    let n: usize = entries.len();
    let mut pending: u64 = 0;
    let mut i: usize = 0;
    while i + 1 < n
        invariant
            i + 1 <= n == entries@.len(),
            times@ == times_of(merged(entries@.take(i + 1))),
            powers@ == powers_of(merged(entries@.take(i + 1))),
            pending == sat(
                if i > 0 && entries@[i - 1].0 == entries@[i as int].0 {
                    run_power(entries@, i - 1)
                } else {
                    0
                },
            ),
        decreases entries@.len() - i,
    {
        let (t0, p0) = entries[i];
        let (t1, _) = entries[i + 1];
        let ghost longer = entries@.take(i + 2);
        proof {
            assert(longer.drop_last() =~= entries@.take(i + 1));
            lemma_run_power_prefix(entries@, i + 2, i as int);
        }
        let joined: u64 = sat_add(p0, pending);
        if t0 == t1 {
            pending = joined;
        } else {
            let ghost head = merged(entries@.take(i + 1));
            times.push(t0);
            powers.push(joined);
            pending = 0;
            proof {
                assert(merged(longer) == head.push((t0, joined)));
                assert(times@ =~= times_of(merged(longer)));
                assert(powers@ =~= powers_of(merged(longer)));
            }
        }
        i = i + 1;
    }
    proof {
        assert(entries@.take(i + 1) =~= entries@);
    }
    (times, powers)
}

/// Why a power trace cannot be synthesized.
#[derive(Debug)]
pub enum SynthesisError {
    /// A change after the first of its signal lies beyond the time table.
    TimeIndexOutOfRange,
    /// Two consecutive changes of a signal are bit vectors of different
    /// widths, or of more bits than a distance can count.
    IncomparableValues,
}

/// Whether `times` and `powers` are the power trace of `signals` over
/// `time_table`: the dense power series, paired with the time table, passed
/// through the optional filter, with equal timestamps merged.
pub open spec fn is_power_trace<F: Fn(&(u64, u64)) -> bool>(
    signals: Seq<Seq<ChangeModel>>,
    time_table: Seq<u64>,
    filter_predicate: F,
    do_filter: bool,
    times: Seq<u64>,
    powers: Seq<u64>,
) -> bool {
    exists|kept: Seq<(u64, u64)>|
        {
            &&& #[trigger] is_optional_selection(
                paired(time_table, dense_power(signals, time_table.len())),
                kept,
                filter_predicate,
                do_filter,
            )
            &&& times == times_of(merged(kept))
            &&& powers == powers_of(merged(kept))
        }
}

/// Whether `filter_predicate` may be called on every entry of the power
/// series of `signals` over `time_table`.
pub open spec fn callable_on_power<F: Fn(&(u64, u64)) -> bool>(
    signals: Seq<Seq<ChangeModel>>,
    time_table: Seq<u64>,
    filter_predicate: F,
) -> bool {
    callable_on(paired(time_table, dense_power(signals, time_table.len())), filter_predicate)
}

/// Synthesizes the power trace of `signals` over `time_table`.
///
/// Returns the timestamps and, beside them, the power samples.  Where
/// `do_filter` is set, only the entries that `filter_predicate` accepts take
/// part.
pub fn generate_power_trace<F: Fn(&(u64, u64)) -> bool>(
    signals: &[Vec<SignalChange>],
    time_table: &[u64],
    filter_predicate: F,
    do_filter: bool,
) -> (r: Result<(Vec<u64>, Vec<u64>), SynthesisError>)
    requires
        do_filter ==> callable_on_power(signals_model(signals@), time_table@, filter_predicate),
    ensures
        match r {
            Ok(out) => {
                &&& signals_in_range(signals_model(signals@), time_table@.len())
                &&& signals_comparable(signals_model(signals@))
                &&& is_power_trace(
                    signals_model(signals@),
                    time_table@,
                    filter_predicate,
                    do_filter,
                    out.0@,
                    out.1@,
                )
            },
            Err(SynthesisError::TimeIndexOutOfRange) => !signals_in_range(
                signals_model(signals@),
                time_table@.len(),
            ),
            Err(SynthesisError::IncomparableValues) => {
                &&& signals_in_range(signals_model(signals@), time_table@.len())
                &&& !signals_comparable(signals_model(signals@))
            },
        },
{
    if !check_in_range(signals, time_table.len()) {
        return Err(SynthesisError::TimeIndexOutOfRange);
    }
    if !check_comparable(signals) {
        return Err(SynthesisError::IncomparableValues);
    }
    let power_table: Vec<u64> = accumulate_power(signals, time_table.len());
    let entries: Vec<(u64, u64)> = pair_up(time_table, power_table.as_slice());
    let passed: OptionalFilter<(u64, u64)> = entries.opt_filter(filter_predicate, do_filter);
    let kept: Vec<(u64, u64)> = passed.collect();
    let out = merge_duplicates(kept.as_slice());
    proof {
        assert(is_optional_selection(
            paired(time_table@, dense_power(signals_model(signals@), time_table@.len())),
            kept@,
            filter_predicate,
            do_filter,
        ));
    }
    Ok(out)
}

/// The answers of the clock: for each entry, whether its timestamp is a
/// multiple of `period`.
pub open spec fn on_clock(entries: Seq<(u64, u64)>, period: u64) -> Seq<bool> {
    Seq::new(entries.len(), |i: int| entries[i].0 % period == 0)
}

/// The entries that take part in a power trace under a clock: those at
/// multiples of the clock period where there is one, all where there is
/// none.
pub open spec fn decimated(entries: Seq<(u64, u64)>, clock_period: Option<u64>) -> Seq<(u64, u64)> {
    match clock_period {
        Some(period) => retained(entries, on_clock(entries, period)),
        None => entries,
    }
}

/// The power trace of `signals` over `time_table` under a clock: the dense
/// power series, paired with the time table, decimated, with equal
/// timestamps merged.
pub open spec fn clocked_power_trace(
    signals: Seq<Seq<ChangeModel>>,
    time_table: Seq<u64>,
    clock_period: Option<u64>,
) -> Seq<(u64, u64)> {
    merged(decimated(paired(time_table, dense_power(signals, time_table.len())), clock_period))
}

/// Why a power trace under a clock cannot be synthesized.
#[derive(Debug)]
pub enum ClockedError {
    /// The clock period is zero.
    ZeroClockPeriod,
    /// The signals cannot be synthesized from.
    Synthesis(SynthesisError),
}

/// Synthesizes the power trace of `signals` over `time_table`, sampled at
/// the multiples of the clock period where there is one.
///
/// Returns the timestamps and, beside them, the power samples.
pub fn power_trace_at_clock(
    signals: &[Vec<SignalChange>],
    time_table: &[u64],
    clock_period: Option<u64>,
) -> (r: Result<(Vec<u64>, Vec<u64>), ClockedError>)
    ensures
        match r {
            Ok(out) => {
                &&& clock_period != Some(0u64)
                &&& signals_in_range(signals_model(signals@), time_table@.len())
                &&& signals_comparable(signals_model(signals@))
                &&& out.0@ == times_of(
                    clocked_power_trace(signals_model(signals@), time_table@, clock_period),
                )
                &&& out.1@ == powers_of(
                    clocked_power_trace(signals_model(signals@), time_table@, clock_period),
                )
            },
            Err(ClockedError::ZeroClockPeriod) => clock_period == Some(0u64),
            Err(ClockedError::Synthesis(SynthesisError::TimeIndexOutOfRange)) => {
                &&& clock_period != Some(0u64)
                &&& !signals_in_range(signals_model(signals@), time_table@.len())
            },
            Err(ClockedError::Synthesis(SynthesisError::IncomparableValues)) => {
                &&& clock_period != Some(0u64)
                &&& signals_in_range(signals_model(signals@), time_table@.len())
                &&& !signals_comparable(signals_model(signals@))
            },
        },
{
    let period: u64 = match clock_period {
        Some(period) => period,
        None => 1,
    };
    if period == 0 {
        return Err(ClockedError::ZeroClockPeriod);
    }
    let at_clock = |entry: &(u64, u64)| -> (pass: bool)
        ensures
            pass == (entry.0 % period == 0),
        { entry.0 % period == 0 };
    let ghost entries = paired(
        time_table@,
        dense_power(signals_model(signals@), time_table@.len()),
    );
    match generate_power_trace(signals, time_table, at_clock, clock_period.is_some()) {
        Err(e) => Err(ClockedError::Synthesis(e)),
        Ok(out) => {
            proof {
                let kept = choose|kept: Seq<(u64, u64)>|
                    {
                        &&& #[trigger] is_optional_selection(
                            entries,
                            kept,
                            at_clock,
                            clock_period.is_some(),
                        )
                        &&& out.0@ == times_of(merged(kept))
                        &&& out.1@ == powers_of(merged(kept))
                    };
                if clock_period.is_some() {
                    let keep = choose|keep: Seq<bool>| #[trigger]
                        answers_of(entries, keep, at_clock) && kept == retained(entries, keep);
                    assert(keep =~= on_clock(entries, period));
                }
                assert(kept == decimated(entries, clock_period));
            }
            Ok(out)
        },
    }
}

/// Taking one signal out takes its power out.
proof fn lemma_total_power_remove(signals: Seq<Seq<ChangeModel>>, i: int, idx: int)
    requires
        0 <= i < signals.len(),
    ensures
        total_power_at(signals, idx) == total_power_at(signals.remove(i), idx) + signal_power_at(
            signals[i],
            idx,
        ),
    decreases signals.len(),
{
    if i == signals.len() - 1 {
        assert(signals.remove(i) =~= signals.drop_last());
    } else {
        assert(signals.remove(i).drop_last() =~= signals.drop_last().remove(i));
        assert(signals.remove(i).last() == signals.last());
        lemma_total_power_remove(signals.drop_last(), i, idx);
    }
}

/// The power drawn at a point does not depend on the order of the signals.
pub proof fn lemma_total_power_permutation(
    a: Seq<Seq<ChangeModel>>,
    b: Seq<Seq<ChangeModel>>,
    idx: int,
)
    requires
        a.to_multiset() == b.to_multiset(),
    ensures
        total_power_at(a, idx) == total_power_at(b, idx),
    decreases a.len(),
{
    a.to_multiset_ensures();
    b.to_multiset_ensures();
    if a.len() > 0 {
        let last = a.len() - 1;
        let x = a[last];
        assert(a.contains(x));
        assert(a.to_multiset().count(x) > 0);
        assert(b.to_multiset().count(x) > 0);
        assert(b.contains(x));
        let j = choose|j: int| 0 <= j < b.len() && b[j] == x;
        vstd::seq_lib::to_multiset_remove(a, last);
        vstd::seq_lib::to_multiset_remove(b, j);
        lemma_total_power_permutation(a.remove(last), b.remove(j), idx);
        lemma_total_power_remove(a, last, idx);
        lemma_total_power_remove(b, j, idx);
    }
}

/// Synthesizing from the same signals in another order yields the same
/// power series.
pub proof fn lemma_dense_power_permutation(
    a: Seq<Seq<ChangeModel>>,
    b: Seq<Seq<ChangeModel>>,
    len: nat,
)
    requires
        a.to_multiset() == b.to_multiset(),
    ensures
        dense_power(a, len) == dense_power(b, len),
{
    assert forall|i: int| 0 <= i < len implies total_power_at(a, i) == total_power_at(b, i) by {
        lemma_total_power_permutation(a, b, i);
    }
    assert(dense_power(a, len) =~= dense_power(b, len));
}

/// A signal with a single change draws no power: wherever it is put among
/// the signals, the power series stays as it is.
pub proof fn lemma_single_change_draws_nothing(
    signals: Seq<Seq<ChangeModel>>,
    at: int,
    changes: Seq<ChangeModel>,
    len: nat,
)
    requires
        0 <= at <= signals.len(),
        changes.len() == 1,
    ensures
        forall|idx: int| signal_power_at(changes, idx) == 0,
        dense_power(signals.insert(at, changes), len) == dense_power(signals, len),
{
    let with = signals.insert(at, changes);
    assert forall|i: int| 0 <= i < len implies total_power_at(with, i) == total_power_at(
        signals,
        i,
    ) by {
        lemma_total_power_remove(with, at, i);
        assert(with.remove(at) =~= signals);
    }
    assert(dense_power(with, len) =~= dense_power(signals, len));
}

/// Whether the timestamps grow from each entry to the next.
pub open spec fn strictly_increasing(times: Seq<u64>) -> bool {
    forall|i: int, j: int| 0 <= i < j < times.len() ==> times[i] < times[j]
}

/// Merging entries whose timestamps never decrease leaves timestamps that
/// grow strictly, all of them below the timestamp of the last entry.
pub proof fn lemma_merged_strictly_increasing(entries: Seq<(u64, u64)>)
    requires
        sorted(times_of(entries)),
    ensures
        strictly_increasing(times_of(merged(entries))),
        forall|j: int|
            0 <= j < merged(entries).len() ==> (#[trigger] merged(entries)[j]).0 < entries.last().0,
    decreases entries.len(),
{
    if entries.len() >= 2 {
        let i = entries.len() - 2;
        let front = entries.drop_last();
        assert forall|a: int, b: int| 0 <= a <= b < front.len() implies times_of(front)[a]
            <= times_of(front)[b] by {
            assert(times_of(entries)[a] <= times_of(entries)[b]);
        }
        lemma_merged_strictly_increasing(front);
        assert(times_of(entries)[i] <= times_of(entries)[i + 1]);
        assert(front.last() == entries[i]);
        let head = merged(front);
        let all = merged(entries);
        assert forall|a: int, b: int| 0 <= a < b < all.len() implies times_of(all)[a] < times_of(
            all,
        )[b] by {
            if b < head.len() {
                assert(times_of(head)[a] < times_of(head)[b]);
            } else {
                assert(head[a].0 < front.last().0);
            }
        }
        assert forall|j: int| 0 <= j < all.len() implies (#[trigger] all[j]).0
            < entries.last().0 by {
            if j < head.len() {
                assert(head[j].0 < front.last().0);
            }
        }
    }
}

/// A selection from entries whose timestamps never decrease is again such a
/// sequence, with no timestamp above `upper` where the entries had none.
proof fn lemma_retained_sorted(entries: Seq<(u64, u64)>, keep: Seq<bool>, upper: u64)
    requires
        keep.len() == entries.len(),
        sorted(times_of(entries)),
        forall|i: int| 0 <= i < entries.len() ==> (#[trigger] entries[i]).0 <= upper,
    ensures
        sorted(times_of(retained(entries, keep))),
        forall|j: int|
            0 <= j < retained(entries, keep).len() ==> (#[trigger] retained(entries, keep)[j]).0
                <= upper,
    decreases entries.len(),
{
    if entries.len() > 0 {
        let front = entries.drop_last();
        let last = entries.last();
        assert forall|a: int, b: int| 0 <= a <= b < front.len() implies times_of(front)[a]
            <= times_of(front)[b] by {
            assert(times_of(entries)[a] <= times_of(entries)[b]);
        }
        assert forall|i: int| 0 <= i < front.len() implies (#[trigger] front[i]).0 <= last.0 by {
            assert(times_of(entries)[i] <= times_of(entries)[entries.len() - 1]);
        }
        lemma_retained_sorted(front, keep.drop_last(), last.0);
        let head = retained(front, keep.drop_last());
        let all = retained(entries, keep);
        assert(last == entries[entries.len() - 1]);
        assert forall|a: int, b: int| 0 <= a <= b < all.len() implies times_of(all)[a]
            <= times_of(all)[b] by {
            if b < head.len() {
                assert(times_of(head)[a] <= times_of(head)[b]);
            } else if a < head.len() {
                assert(head[a].0 <= last.0);
            }
        }
        assert forall|j: int| 0 <= j < all.len() implies (#[trigger] all[j]).0 <= upper by {
            if j < head.len() {
                assert(head[j].0 <= last.0);
            }
        }
    }
}

/// Over a time table whose timestamps never decrease, the timestamps of a
/// power trace grow strictly, and it has one power sample per timestamp.
pub proof fn lemma_power_trace_strictly_increasing<F: Fn(&(u64, u64)) -> bool>(
    signals: Seq<Seq<ChangeModel>>,
    time_table: Seq<u64>,
    filter_predicate: F,
    do_filter: bool,
    times: Seq<u64>,
    powers: Seq<u64>,
)
    requires
        sorted(time_table),
        is_power_trace(signals, time_table, filter_predicate, do_filter, times, powers),
    ensures
        strictly_increasing(times),
        times.len() == powers.len(),
{
    let entries = paired(time_table, dense_power(signals, time_table.len()));
    let kept = choose|kept: Seq<(u64, u64)>|
        {
            &&& #[trigger] is_optional_selection(entries, kept, filter_predicate, do_filter)
            &&& times == times_of(merged(kept))
            &&& powers == powers_of(merged(kept))
        };
    assert forall|a: int, b: int| 0 <= a <= b < entries.len() implies times_of(entries)[a]
        <= times_of(entries)[b] by {
        assert(time_table[a] <= time_table[b]);
    }
    if do_filter {
        let keep = choose|keep: Seq<bool>| #[trigger]
            answers_of(entries, keep, filter_predicate) && kept == retained(entries, keep);
        lemma_retained_sorted(entries, keep, u64::MAX);
    }
    lemma_merged_strictly_increasing(kept);
}

/// The sum of a sequence of power samples.
pub open spec fn total_power(powers: Seq<u64>) -> nat
    decreases powers.len(),
{
    if powers.len() == 0 {
        0
    } else {
        total_power(powers.drop_last()) + powers.last() as nat
    }
}

/// Merging conserves power: as long as no sample overflows, the power of
/// the merged entries together with the power of the last run, which is not
/// put out, is the power of all entries.
pub proof fn lemma_merged_conserves_power(entries: Seq<(u64, u64)>)
    requires
        entries.len() > 0,
        total_power(powers_of(entries)) <= u64::MAX,
    ensures
        total_power(powers_of(merged(entries))) + run_power(entries, entries.len() - 1)
            == total_power(powers_of(entries)),
    decreases entries.len(),
{
    let n = entries.len() as int;
    let front = entries.drop_last();
    assert(powers_of(entries).drop_last() =~= powers_of(front));
    if n >= 2 {
        lemma_merged_conserves_power(front);
        assert(front =~= entries.take(n - 1));
        lemma_run_power_prefix(entries, n - 1, n - 2);
        if entries[n - 2].0 != entries[n - 1].0 {
            let head = merged(front);
            let sample = (entries[n - 2].0, sat(run_power(entries, n - 2)));
            assert(merged(entries) == head.push(sample));
            assert(powers_of(head.push(sample)).drop_last() =~= powers_of(head));
        }
    } else {
        assert(powers_of(merged(entries)) =~= Seq::<u64>::empty());
        assert(powers_of(front) =~= Seq::<u64>::empty());
    }
}

} // verus!
