//! Cutting a power series into labelled execution windows.
//!
//! A marker names a half-open interval of time and a label.  Its window
//! runs from the first sample at or after its start to the first sample at
//! or after its end.  The windows of one file become the rows of a matrix as
//! wide as the longest of them; shorter windows are padded with zeros on the
//! right.

use crate::matrix::{fitted, shape_fits, TraceMatrix};
use vstd::prelude::*;
use vstd::slice::slice_subrange;

verus! {

/// Whether the timestamps never decrease.
pub open spec fn sorted(table: Seq<u64>) -> bool {
    forall|i: int, j: int| 0 <= i <= j < table.len() ==> table[i] <= table[j]
}

/// The index of the first timestamp that is at or after `key`, and the
/// length of the table where there is none.
pub open spec fn first_at_or_after(table: Seq<u64>, key: u64) -> int
    decreases table.len(),
{
    if table.len() == 0 {
        0
    } else if table[0] >= key {
        0
    } else {
        1 + first_at_or_after(table.skip(1), key)
    }
}

/// The first timestamp at or after `key` is where all timestamps before are
/// below `key` and the one there is not.
pub proof fn lemma_first_at_or_after_is(table: Seq<u64>, key: u64, r: int)
    requires
        0 <= r <= table.len(),
        forall|i: int| 0 <= i < r ==> table[i] < key,
        r < table.len() ==> table[r] >= key,
    ensures
        first_at_or_after(table, key) == r,
    decreases table.len(),
{
    if table.len() > 0 && r > 0 {
        let rest = table.skip(1);
        assert forall|i: int| 0 <= i < r - 1 implies rest[i] < key by {
            assert(rest[i] == table[i + 1]);
        }
        lemma_first_at_or_after_is(rest, key, r - 1);
    }
}

/// The index lies within the table or just behind it; the timestamps before
/// it are below `key`, and the one at it, if there is one, is not.
pub proof fn lemma_first_at_or_after_bounds(table: Seq<u64>, key: u64)
    ensures
        0 <= first_at_or_after(table, key) <= table.len(),
        forall|i: int| 0 <= i < first_at_or_after(table, key) ==> table[i] < key,
        first_at_or_after(table, key) < table.len() ==> table[first_at_or_after(table, key)]
            >= key,
    decreases table.len(),
{
    if table.len() > 0 && table[0] < key {
        let rest = table.skip(1);
        lemma_first_at_or_after_bounds(rest, key);
        assert forall|i: int| 0 <= i < first_at_or_after(table, key) implies table[i] < key by {
            if i > 0 {
                assert(table[i] == rest[i - 1]);
            }
        }
    }
}

/// In a sorted table, a later key is found at a later index or the same:
/// the window of a marker whose end is not before its start is not negative.
pub proof fn lemma_first_at_or_after_monotonic(table: Seq<u64>, a: u64, b: u64)
    requires
        a <= b,
    ensures
        first_at_or_after(table, a) <= first_at_or_after(table, b),
{
    lemma_first_at_or_after_bounds(table, a);
    lemma_first_at_or_after_bounds(table, b);
    let ia = first_at_or_after(table, a);
    let ib = first_at_or_after(table, b);
    if ib < ia {
        assert(table[ib] < a);
    }
}

/// Finds the index of `key` in a sorted time table, or, where the table does
/// not hold `key`, the index at which it would be inserted: in both cases
/// the index of the first timestamp at or after `key`.
pub fn nearest_following_index(time_table: &[u64], key: u64) -> (r: usize)
    ensures
        r <= time_table@.len(),
        sorted(time_table@) ==> r == first_at_or_after(time_table@, key),
{
    let mut lo: usize = 0;
    let mut hi: usize = time_table.len();
    while lo < hi
        invariant
            lo <= hi <= time_table@.len(),
            sorted(time_table@) ==> forall|i: int| 0 <= i < lo ==> time_table@[i] < key,
            sorted(time_table@) ==> forall|i: int|
                hi <= i < time_table@.len() ==> time_table@[i] >= key,
        decreases hi - lo,
    {
        let mid: usize = lo + (hi - lo) / 2;
        if time_table[mid] < key {
            lo = mid + 1;
        } else {
            hi = mid;
        }
    }
    proof {
        if sorted(time_table@) {
            lemma_first_at_or_after_is(time_table@, key, lo as int);
        }
    }
    lo
}

/// The window of a marker in a time table: the indices of the first
/// timestamps at or after its start and its end, and its label.
pub open spec fn window_of(table: Seq<u64>, marker: (u64, u64, u16)) -> (int, int, u16) {
    (first_at_or_after(table, marker.0), first_at_or_after(table, marker.1), marker.2)
}

/// Whether `windows` holds, marker by marker, the windows of `markers` in
/// `table`.
pub open spec fn are_windows_of(
    table: Seq<u64>,
    markers: Seq<(u64, u64, u16)>,
    windows: Seq<(usize, usize, u16)>,
) -> bool {
    &&& windows.len() == markers.len()
    &&& forall|m: int|
        0 <= m < markers.len() ==> {
            &&& (#[trigger] windows[m]).0 == window_of(table, markers[m]).0
            &&& windows[m].1 == window_of(table, markers[m]).1
            &&& windows[m].2 == window_of(table, markers[m]).2
        }
}

/// Converts markers, each a start time, an end time and a label, into
/// windows of indices into the time table.
///
/// Returns for each marker `(low_index, high_index, label)`, where
/// `low_index..high_index` is the range of time indices of the marker.
pub fn markers_to_time_indices(meta_markers: &[(u64, u64, u16)], time_table: &[u64]) -> (windows:
    Vec<(usize, usize, u16)>)
    ensures
        windows@.len() == meta_markers@.len(),
        forall|m: int|
            0 <= m < windows@.len() ==> {
                &&& (#[trigger] windows@[m]).0 <= time_table@.len()
                &&& windows@[m].1 <= time_table@.len()
                &&& windows@[m].2 == meta_markers@[m].2
            },
        sorted(time_table@) ==> are_windows_of(time_table@, meta_markers@, windows@),
{
    let mut windows: Vec<(usize, usize, u16)> = Vec::new();
    let mut m: usize = 0;
    while m < meta_markers.len()
        invariant
            m <= meta_markers@.len(),
            windows@.len() == m,
            forall|k: int|
                0 <= k < m ==> {
                    &&& (#[trigger] windows@[k]).0 <= time_table@.len()
                    &&& windows@[k].1 <= time_table@.len()
                    &&& windows@[k].2 == meta_markers@[k].2
                },
            sorted(time_table@) ==> forall|k: int|
                0 <= k < m ==> {
                    &&& (#[trigger] windows@[k]).0 == window_of(time_table@, meta_markers@[k]).0
                    &&& windows@[k].1 == window_of(time_table@, meta_markers@[k]).1
                },
        decreases meta_markers@.len() - m,
    {
        let (start_time, end_time, label) = meta_markers[m];
        let low_index: usize = nearest_following_index(time_table, start_time);
        let high_index: usize = nearest_following_index(time_table, end_time);
        windows.push((low_index, high_index, label));
        m = m + 1;
    }
    windows
}

/// Windows of indices with the types of a model.
pub open spec fn windows_model(windows: Seq<(usize, usize, u16)>) -> Seq<(int, int, u16)> {
    Seq::new(windows.len(), |m: int| (windows[m].0 as int, windows[m].1 as int, windows[m].2))
}

/// The windows of `markers` in `table`.
pub open spec fn windows_of(table: Seq<u64>, markers: Seq<(u64, u64, u16)>) -> Seq<
    (int, int, u16),
> {
    Seq::new(markers.len(), |m: int| window_of(table, markers[m]))
}

/// The length of the longest window, zero where there is none.
pub open spec fn longest_window(windows: Seq<(int, int, u16)>) -> int
    decreases windows.len(),
{
    if windows.len() == 0 {
        0
    } else {
        let rest = longest_window(windows.drop_last());
        let length = windows.last().1 - windows.last().0;
        if length > rest {
            length
        } else {
            rest
        }
    }
}

/// Whether every window has its low index at or before its high index, and
/// both within a power series of `power_len` samples.
pub open spec fn windows_valid(windows: Seq<(int, int, u16)>, power_len: nat) -> bool {
    forall|m: int|
        0 <= m < windows.len() ==> 0 <= (#[trigger] windows[m]).0 <= windows[m].1 <= power_len
}

/// Whether `matrix` and `labels` are the cut of `power` along `windows`:
/// the matrix is as wide as the longest window, row `m` holds the samples of
/// window `m`, padded with zeros, and label `m` is the label of window `m`.
pub open spec fn is_cut(
    power: Seq<u64>,
    windows: Seq<(int, int, u16)>,
    matrix: TraceMatrix,
    labels: Seq<u16>,
) -> bool {
    &&& matrix.rectangular()
    &&& matrix.width() == longest_window(windows)
    &&& matrix@.len() == windows.len()
    &&& labels.len() == windows.len()
    &&& forall|m: int|
        0 <= m < windows.len() ==> {
            &&& #[trigger] matrix@[m] == fitted(
                power.subrange(windows[m].0, windows[m].1),
                matrix.width(),
            )
            &&& labels[m] == windows[m].2
        }
}

/// No window is longer than the longest.
pub proof fn lemma_longest_window_bounds(windows: Seq<(int, int, u16)>, m: int)
    requires
        0 <= m < windows.len(),
    ensures
        windows[m].1 - windows[m].0 <= longest_window(windows),
        0 <= longest_window(windows),
    decreases windows.len(),
{
    if m < windows.len() - 1 {
        lemma_longest_window_bounds(windows.drop_last(), m);
    } else if windows.len() > 1 {
        lemma_longest_window_bounds(windows.drop_last(), 0);
    }
}

/// The length of the longest of the windows.
pub(crate) fn longest(windows: &[(usize, usize, u16)], Ghost(power_len): Ghost<nat>) -> (width: usize)
    requires
        windows_valid(windows_model(windows@), power_len),
    ensures
        width == longest_window(windows_model(windows@)),
{
    let ghost model = windows_model(windows@);
    let mut width: usize = 0;
    let mut m: usize = 0;
    while m < windows.len()
        invariant
            m <= windows@.len(),
            model == windows_model(windows@),
            windows_valid(model, power_len),
            width == longest_window(model.take(m as int)),
        decreases windows@.len() - m,
    {
        let (low_index, high_index, _) = windows[m];
        proof {
            assert(model.take(m + 1).drop_last() =~= model.take(m as int));
            assert(model[m as int].0 <= model[m as int].1);
        }
        let length: usize = high_index - low_index;
        if length > width {
            width = length;
        }
        m = m + 1;
    }
    proof {
        assert(model.take(m as int) =~= model);
    }
    width
}

/// Cuts the power series along windows of indices.
///
/// Row `m` of the matrix holds the samples `low_index..high_index` of window
/// `m`, followed by zeros up to the length of the longest window.  The
/// labels come in the order of the windows.
pub fn cut_windows(power_table: &[u64], windows: &[(usize, usize, u16)]) -> (r: (
    TraceMatrix,
    Vec<u16>,
))
    requires
        windows_valid(windows_model(windows@), power_table@.len()),
        shape_fits(windows@.len(), longest_window(windows_model(windows@)) as nat),
    ensures
        is_cut(power_table@, windows_model(windows@), r.0, r.1@),
{
    let ghost model = windows_model(windows@);
    let count: usize = windows.len();
    let width: usize = longest(windows, Ghost(power_table@.len()));
    let mut matrix = TraceMatrix::raw_zeros(count, width);
    let mut labels: Vec<u16> = Vec::new();
    let mut m: usize = 0;
    while m < count
        invariant
            m <= count == windows@.len(),
            model == windows_model(windows@),
            windows_valid(model, power_table@.len()),
            width == longest_window(model),
            matrix.width() == width,
            matrix@.len() == count,
            matrix.rectangular(),
            labels@.len() == m,
            forall|k: int|
                0 <= k < m ==> {
                    &&& #[trigger] matrix@[k] == fitted(
                        power_table@.subrange(model[k].0, model[k].1),
                        width as nat,
                    )
                    &&& labels@[k] == model[k].2
                },
            forall|k: int, c: int|
                m <= k < count && 0 <= c < width ==> #[trigger] matrix@[k][c] == 0,
        decreases count - m,
    {
        let (low_index, high_index, label) = windows[m];
        proof {
            assert(model[m as int].0 <= model[m as int].1 <= power_table@.len());
            lemma_longest_window_bounds(model, m as int);
        }
        let samples: &[u64] = slice_subrange(power_table, low_index, high_index);
        matrix.write_row(m, samples);
        proof {
            assert(matrix@[m as int] =~= fitted(samples@, width as nat));
        }
        labels.push(label);
        m = m + 1;
    }
    (matrix, labels)
}

/// Whether every window has its low index at or before its high index.
pub open spec fn windows_ordered(windows: Seq<(int, int, u16)>) -> bool {
    forall|m: int| 0 <= m < windows.len() ==> 0 <= (#[trigger] windows[m]).0 <= windows[m].1
}

/// Why a power series cannot be cut along markers.
#[derive(Debug)]
pub enum SegmentError {
    /// A timestamp of the time table is below the one before it.
    UnsortedTimeTable,
    /// A marker ends at an index before the one at which it starts.
    NegativeWindow,
    /// A window reaches beyond the power series.
    PowerTableTooShort,
    /// The matrix would be larger than can be held.
    TooLarge,
}

/// Decides whether the timestamps never decrease.
pub fn is_sorted(time_table: &[u64]) -> (ok: bool)
    ensures
        ok == sorted(time_table@),
{
    if time_table.len() < 2 {
        return true;
    }
    let n: usize = time_table.len();
    let mut i: usize = 0;
    while i + 1 < n
        invariant
            i + 1 <= n == time_table@.len(),
            forall|a: int, b: int| 0 <= a <= b <= i ==> time_table@[a] <= time_table@[b],
        decreases n - i,
    {
        if time_table[i] > time_table[i + 1] {
            return false;
        }
        i = i + 1;
    }
    true
}

/// Decides whether every window has its low index at or before its high
/// index.
pub fn check_ordered(windows: &[(usize, usize, u16)]) -> (ok: bool)
    ensures
        ok == windows_ordered(windows_model(windows@)),
{
    let ghost model = windows_model(windows@);
    let mut m: usize = 0;
    while m < windows.len()
        invariant
            m <= windows@.len(),
            model == windows_model(windows@),
            forall|k: int| 0 <= k < m ==> 0 <= (#[trigger] model[k]).0 <= model[k].1,
        decreases windows@.len() - m,
    {
        if windows[m].0 > windows[m].1 {
            assert(!(0 <= (#[trigger] model[m as int]).0 <= model[m as int].1));
            return false;
        }
        m = m + 1;
    }
    true
}

/// Decides whether every window, its low index being at or before its high
/// index, lies within a power series of `power_len` samples.
pub fn check_valid(windows: &[(usize, usize, u16)], power_len: usize) -> (ok: bool)
    ensures
        ok == windows_valid(windows_model(windows@), power_len as nat),
{
    let ghost model = windows_model(windows@);
    let mut m: usize = 0;
    while m < windows.len()
        invariant
            m <= windows@.len(),
            model == windows_model(windows@),
            forall|k: int|
                0 <= k < m ==> 0 <= (#[trigger] model[k]).0 <= model[k].1 <= power_len,
        decreases windows@.len() - m,
    {
        if windows[m].0 > windows[m].1 || windows[m].1 > power_len {
            assert(!(0 <= (#[trigger] model[m as int]).0 <= model[m as int].1 <= power_len));
            return false;
        }
        m = m + 1;
    }
    true
}

/// Cuts the power series into the windows of the markers.
///
/// `time_table` holds the timestamp of each sample of `power_table`.  Each
/// marker is a start time, an end time and a label.  Row `m` of the matrix
/// holds the samples from the first at or after the start of marker `m` up
/// to, and without, the first at or after its end, followed by zeros up to
/// the length of the longest window.  The labels come in the order of the
/// markers.
pub fn cut_trace(power_table: &[u64], time_table: &[u64], meta_markers: &[(u64, u64, u16)]) -> (r:
    Result<(TraceMatrix, Vec<u16>), SegmentError>)
    ensures
        match r {
            Ok(out) => {
                &&& sorted(time_table@)
                &&& windows_valid(windows_of(time_table@, meta_markers@), power_table@.len())
                &&& shape_fits(
                    meta_markers@.len(),
                    longest_window(windows_of(time_table@, meta_markers@)) as nat,
                )
                &&& is_cut(power_table@, windows_of(time_table@, meta_markers@), out.0, out.1@)
            },
            Err(SegmentError::UnsortedTimeTable) => !sorted(time_table@),
            Err(SegmentError::NegativeWindow) => {
                &&& sorted(time_table@)
                &&& !windows_ordered(windows_of(time_table@, meta_markers@))
            },
            Err(SegmentError::PowerTableTooShort) => {
                &&& sorted(time_table@)
                &&& windows_ordered(windows_of(time_table@, meta_markers@))
                &&& !windows_valid(windows_of(time_table@, meta_markers@), power_table@.len())
            },
            Err(SegmentError::TooLarge) => {
                &&& sorted(time_table@)
                &&& windows_valid(windows_of(time_table@, meta_markers@), power_table@.len())
                &&& !shape_fits(
                    meta_markers@.len(),
                    longest_window(windows_of(time_table@, meta_markers@)) as nat,
                )
            },
        },
{
    if !is_sorted(time_table) {
        return Err(SegmentError::UnsortedTimeTable);
    }
    let windows: Vec<(usize, usize, u16)> = markers_to_time_indices(meta_markers, time_table);
    let ghost model = windows_of(time_table@, meta_markers@);
    proof {
        assert(windows_model(windows@) =~= model);
    }
    let count: usize = windows.len();
    if !check_ordered(windows.as_slice()) {
        return Err(SegmentError::NegativeWindow);
    }
    if !check_valid(windows.as_slice(), power_table.len()) {
        return Err(SegmentError::PowerTableTooShort);
    }
    let width: usize = longest(windows.as_slice(), Ghost(power_table@.len()));
    if !crate::matrix::check_shape(count, width) {
        return Err(SegmentError::TooLarge);
    }
    Ok(cut_windows(power_table, windows.as_slice()))
}

} // verus!
