//! The phases of a run, and the sequential fold of trace matrices into a
//! leakage statistic.
//!
//! A run lists its input files, resolves each of them into a trace matrix,
//! folds the matrices one after the other, and is then final.
//!
//! The statistic itself is kept by an accumulator outside this library.  The
//! fold decides what the accumulator is fed: it holds every matrix to the
//! sample width that the first one established, counts the traces, and after
//! each file records, per order of the statistic, the largest magnitude
//! among its finite values.  Values that are not finite are left out of the
//! running maxima and never stop the fold; an order that has no finite value
//! after a file is recorded with a maximum of zero.
//!
//! A value of the statistic is held as its IEEE 754 binary64 bit pattern.
//! Among finite values, the magnitude orders as the pattern without its sign
//! bit does.

use crate::matrix::{check_shape, fitted, shape_fits, TraceMatrix};
use vstd::prelude::*;

verus! {

/// Where a run stands.
#[derive(Clone, Copy, Debug, PartialEq, Eq, Structural)]
pub enum RunPhase {
    /// The input files are being listed.
    Listing,
    /// The files are being resolved into trace matrices, in any order.
    Resolving,
    /// The trace matrices are being folded, one after the other.
    Accumulating,
    /// The statistic and the running maxima are final.
    Finalized,
    /// The run was given up.
    Aborted,
}

/// What has been done in a run.
#[derive(Clone, Copy, Debug)]
pub enum RunEvent {
    /// The input files were listed; there are so many.
    Listed(usize),
    /// Every file was resolved or left out.
    Resolved,
    /// Every trace matrix was folded.
    Folded,
}

/// The phase that follows on an event in a phase.  A run without input
/// files is given up before any work starts, and so is a run in which
/// anything comes out of turn.  A run that is final, or given up, stays so.
pub open spec fn next_phase(phase: RunPhase, event: RunEvent) -> RunPhase {
    match (phase, event) {
        (RunPhase::Listing, RunEvent::Listed(files)) => if files > 0 {
            RunPhase::Resolving
        } else {
            RunPhase::Aborted
        },
        (RunPhase::Resolving, RunEvent::Resolved) => RunPhase::Accumulating,
        (RunPhase::Accumulating, RunEvent::Folded) => RunPhase::Finalized,
        (RunPhase::Finalized, _) => RunPhase::Finalized,
        _ => RunPhase::Aborted,
    }
}

/// Moves a run on from one phase to the next.
pub fn advance(phase: RunPhase, event: RunEvent) -> (next: RunPhase)
    ensures
        next == next_phase(phase, event),
{
    match (phase, event) {
        (RunPhase::Listing, RunEvent::Listed(files)) => {
            if files > 0 {
                RunPhase::Resolving
            } else {
                RunPhase::Aborted
            }
        },
        (RunPhase::Resolving, RunEvent::Resolved) => RunPhase::Accumulating,
        (RunPhase::Accumulating, RunEvent::Folded) => RunPhase::Finalized,
        (RunPhase::Finalized, _) => RunPhase::Finalized,
        _ => RunPhase::Aborted,
    }
}

/// Two to the power of 63: the value of the sign bit of a pattern.
pub const SIGN_BIT: u64 = 0x8000_0000_0000_0000;

/// The pattern of positive infinity: the least magnitude that is not finite.
pub const INFINITY_PATTERN: u64 = 0x7ff0_0000_0000_0000;

/// The pattern of the magnitude of a value: its pattern without the sign
/// bit.
pub open spec fn magnitude(pattern: u64) -> u64 {
    pattern % SIGN_BIT
}

/// Whether a pattern stands for a finite value, neither infinite nor
/// not-a-number.
pub open spec fn is_finite(pattern: u64) -> bool {
    magnitude(pattern) < INFINITY_PATTERN
}

/// The largest magnitude among the finite values of a row, and nothing where
/// the row has no finite value.
pub open spec fn row_peak(row: Seq<u64>) -> Option<u64>
    decreases row.len(),
{
    if row.len() == 0 {
        None
    } else {
        let rest = row_peak(row.drop_last());
        let x = row.last();
        if !is_finite(x) {
            rest
        } else {
            match rest {
                None => Some(magnitude(x)),
                Some(m) => Some(
                    if magnitude(x) > m {
                        magnitude(x)
                    } else {
                        m
                    },
                ),
            }
        }
    }
}

/// The peak of a row is the magnitude of one of its finite values and is not
/// below the magnitude of any of them; a row has no peak exactly where it
/// has no finite value.
pub proof fn lemma_row_peak_is_maximum(row: Seq<u64>)
    ensures
        match row_peak(row) {
            Some(m) => {
                &&& exists|i: int| 0 <= i < row.len() && is_finite(row[i]) && magnitude(row[i]) == m
                &&& forall|i: int| 0 <= i < row.len() && is_finite(row[i]) ==> magnitude(row[i]) <= m
            },
            None => forall|i: int| 0 <= i < row.len() ==> !is_finite(row[i]),
        },
    decreases row.len(),
{
    if row.len() > 0 {
        let front = row.drop_last();
        lemma_row_peak_is_maximum(front);
        let last = row.len() - 1;
        match row_peak(front) {
            Some(m) => {
                let w = choose|i: int| 0 <= i < front.len() && is_finite(front[i]) && magnitude(front[i]) == m;
                assert(row[w] == front[w]);
                if is_finite(row[last]) && magnitude(row[last]) > m {
                    assert(is_finite(row[last]) && magnitude(row[last]) == magnitude(row[last]));
                }
                assert forall|i: int| 0 <= i < row.len() && is_finite(row[i]) implies magnitude(row[i])
                    <= row_peak(row).unwrap() by {
                    if i < last {
                        assert(row[i] == front[i]);
                    }
                }
            },
            None => {
                assert forall|i: int| 0 <= i < front.len() implies !is_finite(row[i]) by {
                    assert(row[i] == front[i]);
                }
                if is_finite(row[last]) {
                    assert(is_finite(row[last]) && magnitude(row[last]) == magnitude(row[last]));
                }
            },
        }
    }
}

/// Finds the largest magnitude among the finite values of a row.
pub fn peak_of_row(row: &[u64]) -> (peak: Option<u64>)
    ensures
        peak == row_peak(row@),
{
    let mut peak: Option<u64> = None;
    let mut i: usize = 0;
    while i < row.len()
        invariant
            i <= row@.len(),
            peak == row_peak(row@.take(i as int)),
        decreases row@.len() - i,
    {
        proof {
            assert(row@.take(i + 1).drop_last() =~= row@.take(i as int));
        }
        let m: u64 = row[i] % SIGN_BIT;
        if m < INFINITY_PATTERN {
            peak = match peak {
                None => Some(m),
                Some(p) => Some(
                    if m > p {
                        m
                    } else {
                        p
                    },
                ),
            };
        }
        i = i + 1;
    }
    proof {
        assert(row@.take(i as int) =~= row@);
    }
    peak
}

/// One entry of the running maxima: the number of traces folded so far and,
/// per order of the statistic, the peak of that order's row.
#[derive(Debug)]
pub struct Checkpoint {
    pub traces: usize,
    pub peaks: Vec<u64>,
}

/// Mathematical model of the state of a fold.
pub struct FoldModel {
    /// The number of orders of the statistic.
    pub order: nat,
    /// The sample width of the run, once a matrix has established it.
    pub samples_per_trace: Option<usize>,
    /// The number of traces up to and with a matrix that has been accepted
    /// and whose snapshot has not been recorded yet.
    pub pending: Option<usize>,
    /// The checkpoints recorded so far: trace count and peaks per order.
    pub checkpoints: Seq<(usize, Seq<u64>)>,
}

/// The state of a fold.
pub struct FoldState {
    order: usize,
    samples_per_trace: Option<usize>,
    pending: Option<usize>,
    checkpoints: Vec<Checkpoint>,
}

/// Why a step of the fold is refused.  A refused step leaves the state as it
/// was.
#[derive(Debug, PartialEq, Eq)]
pub enum FoldError {
    /// A matrix was offered while a snapshot was due, or a snapshot while
    /// none was due.
    OutOfTurn,
    /// The matrix has fewer than two rows.
    TooFewTraces,
    /// There is not one label per row of the matrix.
    LabelMismatch,
    /// The matrix at the width of the run, or the count of traces, is larger
    /// than can be held.
    TooLarge,
    /// The snapshot has not one row per order.
    SnapshotShape,
}

/// The number of traces folded up to the last checkpoint.
pub open spec fn traces_so_far(model: FoldModel) -> nat {
    if model.checkpoints.len() == 0 {
        0
    } else {
        model.checkpoints.last().0 as nat
    }
}

/// The sample width that holds once a matrix of `width` columns is
/// accepted: the width of the run where one is established, else `width`.
pub open spec fn width_after(model: FoldModel, width: nat) -> nat {
    match model.samples_per_trace {
        Some(w) => w as nat,
        None => width,
    }
}

/// Whether a matrix of `rows` by `width` samples with `labels` labels is
/// accepted.
pub open spec fn acceptable(model: FoldModel, rows: nat, width: nat, labels: nat) -> bool {
    &&& model.pending is None
    &&& rows > 1
    &&& labels == rows
    &&& shape_fits(rows, width_after(model, width))
    &&& traces_so_far(model) + rows <= usize::MAX
}

/// The state after a matrix of `rows` by `width` samples is accepted.
pub open spec fn accepted(model: FoldModel, rows: nat, width: nat) -> FoldModel {
    FoldModel {
        samples_per_trace: Some(width_after(model, width) as usize),
        pending: Some((traces_so_far(model) + rows) as usize),
        ..model
    }
}

/// The running maximum that a row gives: its peak, and zero where it has no
/// finite value.
///
/// Values that are not finite take no part in a running maximum.  Where that
/// leaves nothing of a row, the maximum is that of no values at all, which
/// among magnitudes is zero; the fold goes on.
pub open spec fn recorded_peak(row: Seq<u64>) -> u64 {
    match row_peak(row) {
        Some(peak) => peak,
        None => 0,
    }
}

/// The running maxima that a snapshot gives, row by row.
pub open spec fn snapshot_peaks(snapshot: Seq<Vec<u64>>) -> Seq<u64> {
    Seq::new(snapshot.len(), |o: int| recorded_peak(snapshot[o]@))
}

/// Whether a snapshot is recorded: one was due, and it has one row per
/// order.
pub open spec fn recordable(model: FoldModel, snapshot: Seq<Vec<u64>>) -> bool {
    &&& model.pending is Some
    &&& snapshot.len() == model.order
}

/// The state after a snapshot is recorded.
pub open spec fn recorded(model: FoldModel, snapshot: Seq<Vec<u64>>) -> FoldModel {
    FoldModel {
        pending: None,
        checkpoints: model.checkpoints.push((model.pending.unwrap(), snapshot_peaks(snapshot))),
        ..model
    }
}

/// Whether every checkpoint holds one peak per order.
pub open spec fn checkpoints_shaped(model: FoldModel) -> bool {
    forall|i: int|
        0 <= i < model.checkpoints.len() ==> (#[trigger] model.checkpoints[i]).1.len()
            == model.order
}

impl View for FoldState {
    type V = FoldModel;

    closed spec fn view(&self) -> FoldModel {
        FoldModel {
            order: self.order as nat,
            samples_per_trace: self.samples_per_trace,
            pending: self.pending,
            checkpoints: Seq::new(
                self.checkpoints@.len(),
                |i: int| (self.checkpoints@[i].traces, self.checkpoints@[i].peaks@),
            ),
        }
    }
}

impl FoldState {
    /// Every checkpoint holds one peak per order.
    pub open spec fn wf(&self) -> bool {
        checkpoints_shaped(self@)
    }

    /// The number of orders of the statistic.
    pub fn order(&self) -> (n: usize)
        ensures
            n == self@.order,
    {
        self.order
    }

    /// The sample width of the run, once a matrix has established it.
    pub fn samples_per_trace(&self) -> (w: Option<usize>)
        ensures
            w == self@.samples_per_trace,
    {
        self.samples_per_trace
    }

    /// Whether a snapshot is due.
    pub fn snapshot_due(&self) -> (due: bool)
        ensures
            due == self@.pending is Some,
    {
        self.pending.is_some()
    }

    /// The number of traces at each checkpoint.
    pub fn trace_counts(&self) -> (counts: Vec<usize>)
        ensures
            counts@ == Seq::new(self@.checkpoints.len(), |i: int| self@.checkpoints[i].0),
    {
        let mut counts: Vec<usize> = Vec::new();
        let mut i: usize = 0;
        while i < self.checkpoints.len()
            invariant
                i <= self.checkpoints@.len(),
                counts@.len() == i,
                forall|k: int| 0 <= k < i ==> counts@[k] == self.checkpoints@[k].traces,
            decreases self.checkpoints@.len() - i,
        {
            counts.push(self.checkpoints[i].traces);
            i = i + 1;
        }
        proof {
            assert(counts@ =~= Seq::new(self@.checkpoints.len(), |i: int| self@.checkpoints[i].0));
        }
        counts
    }

    /// The running maxima of one order: its peak at each checkpoint.  The
    /// orders are counted from zero.
    pub fn trajectory(&self, order: usize) -> (r: Option<Vec<u64>>)
        requires
            self.wf(),
        ensures
            match r {
                Some(peaks) => order < self@.order && peaks@ == Seq::new(
                    self@.checkpoints.len(),
                    |i: int| self@.checkpoints[i].1[order as int],
                ),
                None => order >= self@.order,
            },
    {
        if order >= self.order {
            return None;
        }
        proof {
            assert forall|k: int| 0 <= k < self.checkpoints@.len() implies (
            #[trigger] self.checkpoints@[k]).peaks@.len() == self.order by {
                assert(self@.checkpoints[k].1.len() == self@.order);
            }
        }
        let mut peaks: Vec<u64> = Vec::new();
        let mut i: usize = 0;
        while i < self.checkpoints.len()
            invariant
                i <= self.checkpoints@.len(),
                order < self.order,
                forall|k: int|
                    0 <= k < self.checkpoints@.len() ==> (#[trigger] self.checkpoints@[k]).peaks@.len()
                        == self.order,
                peaks@.len() == i,
                forall|k: int| 0 <= k < i ==> peaks@[k] == self.checkpoints@[k].peaks@[order as int],
            decreases self.checkpoints@.len() - i,
        {
            peaks.push(self.checkpoints[i].peaks[order]);
            i = i + 1;
        }
        proof {
            assert(peaks@ =~= Seq::new(
                self@.checkpoints.len(),
                |i: int| self@.checkpoints[i].1[order as int],
            ));
        }
        Some(peaks)
    }

    /// The state before the first matrix, for a statistic of `order` orders.
    /// With `origin` set, the running maxima start at a checkpoint of no
    /// traces and a peak of zero in every order.
    pub fn new(order: usize, origin: bool) -> (state: FoldState)
        ensures
            state@.order == order,
            state@.samples_per_trace is None,
            state@.pending is None,
            state@.checkpoints == if origin {
                seq![(0usize, Seq::new(order as nat, |o: int| 0u64))]
            } else {
                Seq::empty()
            },
            state.wf(),
    {
        let mut checkpoints: Vec<Checkpoint> = Vec::new();
        if origin {
            let mut peaks: Vec<u64> = Vec::new();
            let mut o: usize = 0;
            while o < order
                invariant
                    o <= order,
                    peaks@.len() == o,
                    forall|k: int| 0 <= k < o ==> peaks@[k] == 0,
                decreases order - o,
            {
                peaks.push(0);
                o = o + 1;
            }
            proof {
                assert(peaks@ =~= Seq::new(order as nat, |o: int| 0u64));
            }
            checkpoints.push(Checkpoint { traces: 0, peaks });
        }
        let state = FoldState { order, samples_per_trace: None, pending: None, checkpoints };
        proof {
            if origin {
                assert(state@.checkpoints =~= seq![(0usize, Seq::new(order as nat, |o: int| 0u64))]);
            } else {
                assert(state@.checkpoints =~= Seq::empty());
            }
        }
        state
    }

    /// The number of traces folded up to the last checkpoint.
    fn counted(&self) -> (n: usize)
        ensures
            n == traces_so_far(self@),
    {
        let len: usize = self.checkpoints.len();
        if len == 0 {
            0
        } else {
            self.checkpoints[len - 1].traces
        }
    }

    /// Accepts the next matrix of the run, with `labels` labels beside it.
    ///
    /// The first matrix establishes the sample width of the run.  Every
    /// matrix is handed back at that width, ready for the accumulator: cut
    /// off on the right where it is wider, filled with zeros where it is
    /// narrower.  A snapshot of the statistic is then due.
    pub fn accept(&mut self, matrix: &TraceMatrix, labels: usize) -> (r: Result<TraceMatrix, FoldError>)
        requires
            old(self).wf(),
        ensures
            matrix.rectangular(),
            final(self).wf(),
            follows(
                old(self)@,
                (FoldEvent::Matrix {
                    rows: matrix@.len(),
                    width: matrix.width(),
                    labels: labels as nat,
                }),
                final(self)@,
            ),
            match r {
                Ok(m) => {
                    &&& acceptable(old(self)@, matrix@.len(), matrix.width(), labels as nat)
                    &&& final(self)@ == accepted(old(self)@, matrix@.len(), matrix.width())
                    &&& m.rectangular()
                    &&& m.width() == width_after(old(self)@, matrix.width())
                    &&& m@.len() == matrix@.len()
                    &&& forall|i: int|
                        0 <= i < matrix@.len() ==> #[trigger] m@[i] == fitted(matrix@[i], m.width())
                },
                Err(e) => {
                    &&& final(self)@ == old(self)@
                    &&& !acceptable(old(self)@, matrix@.len(), matrix.width(), labels as nat)
                    &&& e == FoldError::OutOfTurn <==> old(self)@.pending is Some
                    &&& e == FoldError::TooFewTraces <==> old(self)@.pending is None && matrix@.len()
                        <= 1
                    &&& e == FoldError::LabelMismatch <==> old(self)@.pending is None && matrix@.len()
                        > 1 && labels != matrix@.len()
                    &&& e == FoldError::TooLarge <==> old(self)@.pending is None && matrix@.len() > 1
                        && labels == matrix@.len()
                },
            },
    {
        let rows: usize = matrix.nrows();
        let cols: usize = matrix.ncols();
        if self.pending.is_some() {
            return Err(FoldError::OutOfTurn);
        }
        if rows <= 1 {
            return Err(FoldError::TooFewTraces);
        }
        if labels != rows {
            return Err(FoldError::LabelMismatch);
        }
        let width: usize = match self.samples_per_trace {
            Some(w) => w,
            None => cols,
        };
        let so_far: usize = self.counted();
        if rows > usize::MAX - so_far {
            return Err(FoldError::TooLarge);
        }
        match matrix.reconcile_width(width) {
            None => Err(FoldError::TooLarge),
            Some(m) => {
                self.samples_per_trace = Some(width);
                self.pending = Some(so_far + rows);
                Ok(m)
            },
        }
    }

    /// Records the snapshot of the statistic that is due after a matrix was
    /// accepted and fed to the accumulator.
    ///
    /// The snapshot has one row per order.  A checkpoint is added that holds
    /// the number of traces so far and, per order, the largest magnitude
    /// among the finite values of the row.  Values that are not finite are
    /// left out; a row that holds no others gives zero.
    pub fn record(&mut self, snapshot: &[Vec<u64>]) -> (r: Result<(), FoldError>)
        requires
            old(self).wf(),
        ensures
            final(self).wf(),
            follows(old(self)@, FoldEvent::Snapshot(snapshot@), final(self)@),
            r is Ok <==> recordable(old(self)@, snapshot@),
            match r {
                Ok(_) => {
                    &&& recordable(old(self)@, snapshot@)
                    &&& final(self)@ == recorded(old(self)@, snapshot@)
                },
                Err(e) => {
                    &&& final(self)@ == old(self)@
                    &&& !recordable(old(self)@, snapshot@)
                    &&& e == FoldError::OutOfTurn <==> old(self)@.pending is None
                    &&& e == FoldError::SnapshotShape <==> old(self)@.pending is Some
                },
            },
    {
        let traces: usize = match self.pending {
            None => {
                return Err(FoldError::OutOfTurn);
            },
            Some(traces) => traces,
        };
        if snapshot.len() != self.order {
            return Err(FoldError::SnapshotShape);
        }
        let mut peaks: Vec<u64> = Vec::new();
        let mut o: usize = 0;
        while o < snapshot.len()
            invariant
                o <= snapshot@.len(),
                *self == *old(self),
                self.wf(),
                self.pending is Some,
                snapshot@.len() == self.order,
                peaks@.len() == o,
                forall|k: int| 0 <= k < o ==> peaks@[k] == recorded_peak(#[trigger] snapshot@[k]@),
            decreases snapshot@.len() - o,
        {
            let peak: u64 = match peak_of_row(snapshot[o].as_slice()) {
                Some(peak) => peak,
                None => 0,
            };
            peaks.push(peak);
            o = o + 1;
        }
        proof {
            assert(peaks@ =~= snapshot_peaks(snapshot@));
        }
        let ghost before = self@;
        self.checkpoints.push(Checkpoint { traces, peaks });
        self.pending = None;
        proof {
            assert(self@.checkpoints =~= before.checkpoints.push((traces, snapshot_peaks(snapshot@))));
        }
        Ok(())
    }
}

/// What a fold is given: a matrix, of which its shape and the number of its
/// labels count, or a snapshot of the statistic.
pub enum FoldEvent {
    Matrix { rows: nat, width: nat, labels: nat },
    Snapshot(Seq<Vec<u64>>),
}

/// Whether `after` is the state in which `event` leaves a fold that was in
/// the state `before`, where the event is taken as
/// [`FoldState::accept`] and [`FoldState::record`] take it.
pub open spec fn follows(before: FoldModel, event: FoldEvent, after: FoldModel) -> bool {
    match event {
        FoldEvent::Matrix { rows, width, labels } => if acceptable(before, rows, width, labels) {
            after == accepted(before, rows, width)
        } else {
            after == before
        },
        FoldEvent::Snapshot(snapshot) => if recordable(before, snapshot) {
            after == recorded(before, snapshot)
        } else {
            after == before
        },
    }
}

/// Whether `states` are the states that a fold goes through on `events`.
pub open spec fn is_run(states: Seq<FoldModel>, events: Seq<FoldEvent>) -> bool {
    &&& states.len() == events.len() + 1
    &&& forall|i: int| 0 <= i < events.len() ==> follows(states[i], #[trigger] events[i], states[i + 1])
}

/// The fold is determined by what it is given: two runs that start in the
/// same state and are given the same events in the same order go through the
/// same states, and so end with the same sample width, trace counts and
/// running maxima.
pub proof fn lemma_fold_is_determined(a: Seq<FoldModel>, b: Seq<FoldModel>, events: Seq<FoldEvent>)
    requires
        is_run(a, events),
        is_run(b, events),
        a[0] == b[0],
    ensures
        a == b,
{
    assert forall|i: int| 0 <= i < a.len() implies a[i] == b[i] by {
        lemma_runs_agree(a, b, events, i);
    }
    assert(a =~= b);
}

/// Two runs from the same state on the same events agree up to any step.
proof fn lemma_runs_agree(a: Seq<FoldModel>, b: Seq<FoldModel>, events: Seq<FoldEvent>, i: int)
    requires
        is_run(a, events),
        is_run(b, events),
        a[0] == b[0],
        0 <= i < a.len(),
    ensures
        a[i] == b[i],
    decreases i,
{
    if i > 0 {
        lemma_runs_agree(a, b, events, i - 1);
        assert(follows(a[i - 1], events[i - 1], a[i]));
        assert(follows(b[i - 1], events[i - 1], b[i]));
    }
}

} // verus!
