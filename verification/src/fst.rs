//! Traces from the value changes of an FST waveform, read window by window.
//!
//! Within the window of a marker, every change of a signal after its first
//! draws the power of the bits that toggle, at the sample of its timestamp.
//! Values are byte strings with one byte per bit.

use crate::matrix::{check_shape, shape_fits, TraceMatrix};
use crate::optional_filter::{answers_of, callable_on, retained, select, OptionalFilter};
use crate::power_model::{bytes_distance, slice_distance};
use crate::segment::{
    check_ordered, first_at_or_after, is_sorted, longest, longest_window, markers_to_time_indices,
    nearest_following_index, sorted, windows_model, windows_of, windows_ordered, windows_valid,
};
use crate::synth::{sat, sat_add};
use std::collections::HashMap;
use vstd::prelude::*;
use vstd::slice::slice_subrange;

verus! {

/// One change read from the waveform: its timestamp, the signal that
/// changes, and the new value.
pub struct FstEvent {
    pub time: u64,
    pub signal: u32,
    pub value: Vec<u8>,
}

/// Mathematical model of an [`FstEvent`].
pub struct FstEventModel {
    pub time: u64,
    pub signal: u32,
    pub value: Seq<u8>,
}

impl View for FstEvent {
    type V = FstEventModel;

    open spec fn view(&self) -> FstEventModel {
        FstEventModel { time: self.time, signal: self.signal, value: self.value@ }
    }
}

/// The events as a sequence of models.
pub open spec fn events_model(events: Seq<FstEvent>) -> Seq<FstEventModel> {
    Seq::new(events.len(), |k: int| events[k]@)
}

/// The index of the last change of `signal` among the first `n` events.
pub open spec fn last_of(events: Seq<FstEventModel>, n: int, signal: u32) -> Option<int>
    decreases n,
{
    if n <= 0 {
        None
    } else if events[n - 1].signal == signal {
        Some(n - 1)
    } else {
        last_of(events, n - 1, signal)
    }
}

/// The power drawn at the sample `col` of a window by the first `n` events:
/// the distance of each event from the last change of its signal before it,
/// over the events whose timestamp is found at `col`.
pub open spec fn cell_power(events: Seq<FstEventModel>, times: Seq<u64>, col: int, n: int) -> nat
    decreases n,
{
    if n <= 0 {
        0
    } else {
        let event = events[n - 1];
        cell_power(events, times, col, n - 1) + if first_at_or_after(times, event.time) == col {
            match last_of(events, n - 1, event.signal) {
                Some(j) => bytes_distance(event.value, events[j].value),
                None => 0,
            }
        } else {
            0
        }
    }
}

/// The row of a window: the power drawn at each of `width` samples.
pub open spec fn row_power(events: Seq<FstEventModel>, times: Seq<u64>, width: nat) -> Seq<u64> {
    Seq::new(width, |c: int| sat(cell_power(events, times, c, events.len() as int)))
}

/// Why traces cannot be had from the events of a waveform.
#[derive(Debug, PartialEq, Eq)]
pub enum FstError {
    /// There is no marker.
    NoMarkers,
    /// There is not one list of events per marker.
    EventsMismatch,
    /// A timestamp of the time table is below the one before it.
    UnsortedTimeTable,
    /// A marker ends at an index before the one at which it starts.
    NegativeWindow,
    /// The matrix would be larger than can be held.
    TooLarge,
    /// A value and the one before it have more bits than a distance can
    /// count.
    ValueTooLong,
    /// A change that draws power has its timestamp at or beyond the width of
    /// the matrix.
    EventOutOfRange,
}

/// What stands against the event `k`: nothing where its signal has not
/// changed before.
pub open spec fn event_defect(
    events: Seq<FstEventModel>,
    times: Seq<u64>,
    width: nat,
    k: int,
) -> Option<FstError> {
    match last_of(events, k, events[k].signal) {
        None => None,
        Some(j) => if !(8 * events[k].value.len() <= u32::MAX || 8 * events[j].value.len()
            <= u32::MAX) {
            Some(FstError::ValueTooLong)
        } else if first_at_or_after(times, events[k].time) >= width {
            Some(FstError::EventOutOfRange)
        } else {
            None
        },
    }
}

/// What stands against the first of the first `n` events that anything
/// stands against.
pub open spec fn first_defect(
    events: Seq<FstEventModel>,
    times: Seq<u64>,
    width: nat,
    n: int,
) -> Option<FstError>
    decreases n,
{
    if n <= 0 {
        None
    } else {
        match first_defect(events, times, width, n - 1) {
            Some(e) => Some(e),
            None => event_defect(events, times, width, n - 1),
        }
    }
}

/// Once something stands against an event, it stands against the whole.
pub proof fn lemma_first_defect_stays(
    events: Seq<FstEventModel>,
    times: Seq<u64>,
    width: nat,
    k: int,
    n: int,
)
    requires
        0 <= k <= n,
        first_defect(events, times, width, k) is Some,
    ensures
        first_defect(events, times, width, n) == first_defect(events, times, width, k),
    decreases n - k,
{
    if k < n {
        lemma_first_defect_stays(events, times, width, k, n - 1);
    }
}

/// Sums the power that the events of one window draw at each of its `width`
/// samples.  `window_times` holds the timestamps of the window.
pub fn window_row(events: &[FstEvent], window_times: &[u64], width: usize) -> (r: Result<
    Vec<u64>,
    FstError,
>)
    requires
        sorted(window_times@),
    ensures
        match r {
            Ok(row) => {
                &&& first_defect(
                    events_model(events@),
                    window_times@,
                    width as nat,
                    events@.len() as int,
                ) is None
                &&& row@ == row_power(events_model(events@), window_times@, width as nat)
            },
            Err(e) => first_defect(
                events_model(events@),
                window_times@,
                width as nat,
                events@.len() as int,
            ) == Some(e),
        },
{
    broadcast use vstd::std_specs::hash::group_hash_axioms;

    let ghost model = events_model(events@);
    let ghost times = window_times@;
    let mut row: Vec<u64> = Vec::new();
    let mut c: usize = 0;
    while c < width
        invariant
            c <= width,
            row@.len() == c,
            forall|j: int| 0 <= j < c ==> row@[j] == 0,
        decreases width - c,
    {
        row.push(0);
        c = c + 1;
    }
    let mut last: HashMap<u32, usize> = HashMap::new();
    let mut k: usize = 0;
    while k < events.len()
        invariant
            k <= events@.len(),
            model == events_model(events@),
            times == window_times@,
            sorted(times),
            row@.len() == width,
            first_defect(model, times, width as nat, k as int) is None,
            forall|col: int|
                0 <= col < width ==> #[trigger] row@[col] == sat(cell_power(model, times, col, k as int)),
            forall|signal: u32|
                match #[trigger] last_of(model, k as int, signal) {
                    Some(j) => last@.contains_key(signal) && last@[signal] == j,
                    None => !last@.contains_key(signal),
                },
            forall|signal: u32| last@.contains_key(signal) ==> #[trigger] last@[signal] < k,
        decreases events@.len() - k,
    {
        let event = &events[k];
        assert(model[k as int] == event@);
        let ghost before = last_of(model, k as int, event.signal);
        match last.get(&event.signal) {
            Some(found) => {
                let j: usize = *found;
                assert(before == Some(j as int));
                let earlier = &events[j];
                assert(model[j as int] == earlier@);
                if event.value.len() > 0x1fff_ffff && earlier.value.len() > 0x1fff_ffff {
                    proof {
                        lemma_first_defect_stays(model, times, width as nat, k + 1, events@.len() as int);
                    }
                    return Err(FstError::ValueTooLong);
                }
                let at: usize = nearest_following_index(window_times, event.time);
                if at >= width {
                    proof {
                        lemma_first_defect_stays(model, times, width as nat, k + 1, events@.len() as int);
                    }
                    return Err(FstError::EventOutOfRange);
                }
                let drawn: u32 = slice_distance(event.value.as_slice(), earlier.value.as_slice());
                let sum: u64 = sat_add(row[at], drawn as u64);
                row.set(at, sum);
            },
            None => {
                assert(before is None);
            },
        }
        let ghost known = last@;
        last.insert(event.signal, k);
        proof {
            assert(last@ == known.insert(event.signal, k));
            assert forall|signal: u32|
                match #[trigger] last_of(model, k + 1, signal) {
                    Some(j) => last@.contains_key(signal) && last@[signal] == j,
                    None => !last@.contains_key(signal),
                } by {
                if signal != event.signal {
                    assert(last_of(model, k + 1, signal) == last_of(model, k as int, signal));
                }
            }
        }
        k = k + 1;
    }
    Ok(row)
}

/// Whether `keep` holds, for each event, an answer that `time_filter` can
/// give for its timestamp.
pub open spec fn time_answers<F: Fn(u64) -> bool>(
    events: Seq<FstEvent>,
    keep: Seq<bool>,
    time_filter: F,
) -> bool {
    &&& keep.len() == events.len()
    &&& forall|k: int|
        0 <= k < events.len() ==> call_ensures(time_filter, (events[k].time,), #[trigger] keep[k])
}

/// Whether `kept` holds exactly the events whose timestamp `time_filter`
/// accepted, in their order.
pub open spec fn is_time_selection<F: Fn(u64) -> bool>(
    events: Seq<FstEvent>,
    kept: Seq<FstEvent>,
    time_filter: F,
) -> bool {
    exists|keep: Seq<bool>| #[trigger]
        time_answers(events, keep, time_filter) && kept == retained(events, keep)
}

/// Whether `time_filter` may be called on the timestamp of every event.
pub open spec fn callable_on_times<F: Fn(u64) -> bool>(events: Seq<FstEvent>, time_filter: F) -> bool {
    forall|k: int| 0 <= k < events.len() ==> call_requires(time_filter, ((#[trigger] events[k]).time,))
}

/// Selects the events whose timestamp `time_filter` accepts.
pub fn select_by_time<F: Fn(u64) -> bool>(events: Vec<FstEvent>, time_filter: &F) -> (kept: Vec<
    FstEvent,
>)
    requires
        callable_on_times(events@, *time_filter),
    ensures
        is_time_selection(events@, kept@, *time_filter),
{
    let ghost all = events@;
    let by_time = |event: &FstEvent| -> (pass: bool)
        requires
            call_requires(time_filter, (event.time,)),
        ensures
            call_ensures(time_filter, (event.time,), pass),
        { time_filter(event.time) };
    assert(callable_on(all, by_time)) by {
        assert forall|k: int| 0 <= k < all.len() implies call_requires(
            by_time,
            (&#[trigger] all[k],),
        ) by {
            assert(call_requires(time_filter, (all[k].time,)));
        }
    }
    let kept: Vec<FstEvent> = select(events, &by_time);
    proof {
        let keep = choose|keep: Seq<bool>| #[trigger]
            answers_of(all, keep, by_time) && kept@ == retained(all, keep);
        assert forall|k: int| 0 <= k < all.len() implies call_ensures(
            time_filter,
            (all[k].time,),
            #[trigger] keep[k],
        ) by {
            assert(call_ensures(by_time, (&all[k],), keep[k]));
        }
        assert(time_answers(all, keep, *time_filter));
    }
    kept
}

/// The timestamps of a window.
pub open spec fn window_times(time_table: Seq<u64>, window: (int, int, u16)) -> Seq<u64> {
    time_table.subrange(window.0, window.1)
}

/// Whether `row` is the row of a window: the power drawn by the events that
/// `time_filter` accepted, none of which anything stands against.
pub open spec fn is_window_row<F: Fn(u64) -> bool>(
    events: Seq<FstEvent>,
    times: Seq<u64>,
    width: nat,
    time_filter: F,
    row: Seq<u64>,
) -> bool {
    exists|kept: Seq<FstEvent>|
        {
            &&& #[trigger] is_time_selection(events, kept, time_filter)
            &&& first_defect(events_model(kept), times, width, kept.len() as int) is None
            &&& row == row_power(events_model(kept), times, width)
        }
}

/// Whether `defect` stands against the events of a window that
/// `time_filter` accepted.
pub open spec fn has_window_defect<F: Fn(u64) -> bool>(
    events: Seq<FstEvent>,
    times: Seq<u64>,
    width: nat,
    time_filter: F,
    defect: FstError,
) -> bool {
    exists|kept: Seq<FstEvent>|
        {
            &&& #[trigger] is_time_selection(events, kept, time_filter)
            &&& first_defect(events_model(kept), times, width, kept.len() as int) == Some(defect)
        }
}

/// Whether markers, events and time table are such that a matrix can be laid
/// out: there are markers, one list of events for each, the timestamps never
/// decrease, no window is negative, and the matrix can be held.
pub open spec fn layout_defect(
    time_table: Seq<u64>,
    markers: Seq<(u64, u64, u16)>,
    lists: nat,
) -> Option<FstError> {
    if markers.len() == 0 {
        Some(FstError::NoMarkers)
    } else if lists != markers.len() {
        Some(FstError::EventsMismatch)
    } else if !sorted(time_table) {
        Some(FstError::UnsortedTimeTable)
    } else if !windows_ordered(windows_of(time_table, markers)) {
        Some(FstError::NegativeWindow)
    } else if !shape_fits(markers.len(), longest_window(windows_of(time_table, markers)) as nat) {
        Some(FstError::TooLarge)
    } else {
        None
    }
}

/// Whether `matrix` and `labels` are the traces of the events: one row per
/// marker, as wide as the longest window, and the labels in the order of the
/// markers.
pub open spec fn is_fst_traces<F: Fn(u64) -> bool>(
    time_table: Seq<u64>,
    markers: Seq<(u64, u64, u16)>,
    events: Seq<Vec<FstEvent>>,
    time_filter: F,
    matrix: TraceMatrix,
    labels: Seq<u16>,
) -> bool {
    &&& matrix.rectangular()
    &&& matrix.width() == longest_window(windows_of(time_table, markers))
    &&& matrix@.len() == markers.len()
    &&& labels == Seq::new(markers.len(), |m: int| markers[m].2)
    &&& forall|m: int|
        0 <= m < markers.len() ==> is_window_row(
            events[m]@,
            window_times(time_table, windows_of(time_table, markers)[m]),
            matrix.width(),
            time_filter,
            #[trigger] matrix@[m],
        )
}

/// Whether `time_filter` may be called on the timestamp of every event of
/// every list.
pub open spec fn callable_on_all_times<F: Fn(u64) -> bool>(
    events: Seq<Vec<FstEvent>>,
    time_filter: F,
) -> bool {
    forall|m: int| 0 <= m < events.len() ==> callable_on_times((#[trigger] events[m])@, time_filter)
}

/// Computes the traces of a waveform from the value changes within the
/// windows of the markers.
///
/// `time_table` is the time table of the waveform.  `events` holds, for
/// each marker, the changes of the bit-vector signals from its start time up
/// to, and without, its end time, in the order of the file.  Changes whose
/// timestamp `time_filter` does not accept are passed over.
pub fn traces_from_fst<F: Fn(u64) -> bool>(
    time_table: &[u64],
    meta_markers: &[(u64, u64, u16)],
    events: Vec<Vec<FstEvent>>,
    time_filter: F,
) -> (r: Result<(TraceMatrix, Vec<u16>), FstError>)
    requires
        callable_on_all_times(events@, time_filter),
    ensures
        match r {
            Ok(out) => {
                &&& layout_defect(time_table@, meta_markers@, events@.len()) is None
                &&& is_fst_traces(time_table@, meta_markers@, events@, time_filter, out.0, out.1@)
            },
            Err(e) => match layout_defect(time_table@, meta_markers@, events@.len()) {
                Some(defect) => e == defect,
                None => exists|m: int|
                    0 <= m < meta_markers@.len() && #[trigger] has_window_defect(
                        events@[m]@,
                        window_times(time_table@, windows_of(time_table@, meta_markers@)[m]),
                        longest_window(windows_of(time_table@, meta_markers@)) as nat,
                        time_filter,
                        e,
                    ),
            },
        },
{
    let count: usize = meta_markers.len();
    if count == 0 {
        return Err(FstError::NoMarkers);
    }
    if events.len() != count {
        return Err(FstError::EventsMismatch);
    }
    if !is_sorted(time_table) {
        return Err(FstError::UnsortedTimeTable);
    }
    let windows: Vec<(usize, usize, u16)> = markers_to_time_indices(meta_markers, time_table);
    let ghost model = windows_of(time_table@, meta_markers@);
    proof {
        assert(windows_model(windows@) =~= model);
    }
    if !check_ordered(windows.as_slice()) {
        return Err(FstError::NegativeWindow);
    }
    assert(windows_valid(model, time_table@.len())) by {
        assert forall|k: int| 0 <= k < model.len() implies 0 <= (#[trigger] model[k]).0
            <= model[k].1 <= time_table@.len() by {
            assert(windows@[k].1 <= time_table@.len());
        }
    }
    let width: usize = longest(windows.as_slice(), Ghost(time_table@.len()));
    if !check_shape(count, width) {
        return Err(FstError::TooLarge);
    }
    let ghost all = events@;
    let mut matrix = TraceMatrix::raw_zeros(count, width);
    let mut labels: Vec<u16> = Vec::new();
    let mut lists: OptionalFilter<Vec<FstEvent>> = OptionalFilter::new(events);
    let mut m: usize = 0;
    while m < count
        invariant
            m <= count == windows@.len(),
            count == meta_markers@.len(),
            count == all.len(),
            all == events@,
            model == windows_model(windows@),
            model == windows_of(time_table@, meta_markers@),
            windows_valid(model, time_table@.len()),
            sorted(time_table@),
            layout_defect(time_table@, meta_markers@, all.len()) is None,
            callable_on_all_times(all, time_filter),
            width == longest_window(model),
            lists@ == all.skip(m as int),
            matrix.width() == width,
            matrix@.len() == count,
            matrix.rectangular(),
            labels@.len() == m,
            forall|k: int| 0 <= k < m ==> labels@[k] == meta_markers@[k].2,
            forall|k: int|
                0 <= k < m ==> is_window_row(
                    all[k]@,
                    window_times(time_table@, model[k]),
                    width as nat,
                    time_filter,
                    #[trigger] matrix@[k],
                ),
        decreases count - m,
    {
        let list: Vec<FstEvent> = match lists.next() {
            Some(list) => list,
            None => {
                assert(false);
                return Err(FstError::EventsMismatch);
            },
        };
        assert(list == all[m as int]);
        assert(all.skip(m as int).skip(1) =~= all.skip(m + 1));
        let kept: Vec<FstEvent> = select_by_time(list, &time_filter);
        let (low_index, high_index, label) = windows[m];
        assert(model[m as int].0 <= model[m as int].1 <= time_table@.len());
        let times: &[u64] = slice_subrange(time_table, low_index, high_index);
        assert(times@ == window_times(time_table@, model[m as int]));
        assert(sorted(times@)) by {
            assert forall|i: int, j: int| 0 <= i <= j < times@.len() implies times@[i] <= times@[j] by {
                assert(time_table@[low_index + i] <= time_table@[low_index + j]);
            }
        }
        let row: Vec<u64> = match window_row(kept.as_slice(), times, width) {
            Ok(row) => row,
            Err(e) => {
                assert(is_time_selection(all[m as int]@, kept@, time_filter));
                assert(has_window_defect(
                    events@[m as int]@,
                    window_times(time_table@, windows_of(time_table@, meta_markers@)[m as int]),
                    longest_window(windows_of(time_table@, meta_markers@)) as nat,
                    time_filter,
                    e,
                ));
                return Err(e);
            },
        };
        matrix.write_row(m, row.as_slice());
        proof {
            assert(matrix@[m as int] =~= row@);
            assert(is_window_row(all[m as int]@, times@, width as nat, time_filter, matrix@[m as int]));
        }
        labels.push(label);
        m = m + 1;
    }
    proof {
        assert(labels@ =~= Seq::new(meta_markers@.len(), |m: int| meta_markers@[m].2));
    }
    Ok((matrix, labels))
}

} // verus!
