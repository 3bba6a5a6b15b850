use scasim::matrix::TraceMatrix;
use scasim::pipeline::{advance, peak_of_row, FoldError, FoldState, RunEvent, RunPhase};

fn bits(x: f64) -> u64 {
    x.to_bits()
}

fn matrix(rows: usize, width: usize, first: u64) -> TraceMatrix {
    let rows: Vec<Vec<u64>> =
        (0..rows).map(|r| (0..width).map(|c| first + (r * width + c) as u64).collect()).collect();
    TraceMatrix::from_rows(&rows, width).unwrap()
}

#[test]
fn the_peak_of_a_row_is_its_largest_finite_magnitude() {
    let row = vec![bits(1.5), bits(-7.25), bits(3.0), bits(f64::INFINITY), bits(f64::NAN)];
    assert_eq!(peak_of_row(&row), Some(bits(7.25)));
    assert_eq!(peak_of_row(&[bits(-0.0)]), Some(bits(0.0)));
    assert_eq!(peak_of_row(&[bits(f64::MAX), bits(f64::MIN)]), Some(bits(f64::MAX)));
    assert_eq!(peak_of_row(&[bits(-f64::MIN_POSITIVE), bits(5e-324)]), Some(bits(f64::MIN_POSITIVE)));
}

#[test]
fn a_row_without_a_finite_value_has_no_peak() {
    assert_eq!(peak_of_row(&[]), None);
    assert_eq!(peak_of_row(&[bits(f64::NAN), bits(f64::NEG_INFINITY), bits(f64::INFINITY)]), None);
    assert_eq!(peak_of_row(&[u64::MAX, 0x7ff0_0000_0000_0001]), None);
}

#[test]
fn the_peak_agrees_with_floating_point() {
    let values = [0.0, -0.0, 1.0, -1.0, 4.5, -4.5, 1e300, -1e-300, f64::NAN, f64::INFINITY, 2.5e-310];
    for a in values {
        for b in values {
            let expected = [a, b]
                .iter()
                .filter_map(|x: &f64| x.is_finite().then_some(x.abs()))
                .max_by(|p, q| p.partial_cmp(q).unwrap());
            assert_eq!(peak_of_row(&[bits(a), bits(b)]).map(f64::from_bits), expected);
        }
    }
}

#[test]
fn a_fold_starts_empty_or_at_the_origin() {
    let state = FoldState::new(2, false);
    assert_eq!(state.order(), 2);
    assert_eq!(state.samples_per_trace(), None);
    assert!(!state.snapshot_due());
    assert!(state.trace_counts().is_empty());
    assert_eq!(state.trajectory(0), Some(vec![]));
    assert_eq!(state.trajectory(2), None);
    let state = FoldState::new(2, true);
    assert_eq!(state.trace_counts(), vec![0]);
    assert_eq!(state.trajectory(0), Some(vec![0]));
    assert_eq!(state.trajectory(1), Some(vec![0]));
}

#[test]
fn the_first_matrix_establishes_the_width() {
    let mut state = FoldState::new(1, false);
    let fed = state.accept(&matrix(2, 3, 1), 2).unwrap();
    assert_eq!(fed.to_rows(), vec![vec![1, 2, 3], vec![4, 5, 6]]);
    assert_eq!(state.samples_per_trace(), Some(3));
    assert!(state.snapshot_due());
}

#[test]
fn later_matrices_are_held_to_the_width_of_the_run() {
    let mut state = FoldState::new(1, true);
    state.accept(&matrix(2, 3, 1), 2).unwrap();
    state.record(&[vec![bits(2.0)]]).unwrap();
    let fed = state.accept(&matrix(3, 2, 10), 3).unwrap();
    assert_eq!(fed.to_rows(), vec![vec![10, 11, 0], vec![12, 13, 0], vec![14, 15, 0]]);
    state.record(&[vec![bits(-3.0), bits(1.0)]]).unwrap();
    let fed = state.accept(&matrix(2, 5, 20), 2).unwrap();
    assert_eq!(fed.to_rows(), vec![vec![20, 21, 22], vec![25, 26, 27]]);
    state.record(&[vec![bits(f64::NAN), bits(0.5)]]).unwrap();
    assert_eq!(state.samples_per_trace(), Some(3));
    assert_eq!(state.trace_counts(), vec![0, 2, 5, 7]);
    assert_eq!(state.trajectory(0), Some(vec![0, bits(2.0), bits(3.0), bits(0.5)]));
}

#[test]
fn a_width_of_zero_is_a_width() {
    let mut state = FoldState::new(1, false);
    state.accept(&matrix(2, 0, 0), 2).unwrap();
    assert_eq!(state.samples_per_trace(), Some(0));
    state.record(&[vec![0]]).unwrap();
    let fed = state.accept(&matrix(2, 4, 1), 2).unwrap();
    assert_eq!((fed.nrows(), fed.ncols()), (2, 0));
}

#[test]
fn peaks_are_recorded_per_order() {
    let mut state = FoldState::new(3, false);
    state.accept(&matrix(4, 2, 0), 4).unwrap();
    let snapshot = vec![
        vec![bits(1.0), bits(-2.0)],
        vec![bits(f64::INFINITY), bits(0.25)],
        vec![bits(-9.0), bits(9.5)],
    ];
    state.record(&snapshot).unwrap();
    assert_eq!(state.trace_counts(), vec![4]);
    assert_eq!(state.trajectory(0), Some(vec![bits(2.0)]));
    assert_eq!(state.trajectory(1), Some(vec![bits(0.25)]));
    assert_eq!(state.trajectory(2), Some(vec![bits(9.5)]));
    assert_eq!(state.trajectory(3), None);
}

#[test]
fn folding_twice_yields_the_same() {
    let run = || {
        let mut state = FoldState::new(2, true);
        let mut fed = Vec::new();
        let files = [(matrix(2, 3, 1), 7.0), (matrix(5, 4, 2), -8.5), (matrix(3, 1, 3), 0.125)];
        for (m, t) in files.iter() {
            fed.push(state.accept(m, m.nrows()).unwrap().to_rows());
            state.record(&[vec![bits(*t), bits(1.0)], vec![bits(f64::NAN), bits(-*t)]]).unwrap();
        }
        (fed, state.samples_per_trace(), state.trace_counts(), state.trajectory(0), state.trajectory(1))
    };
    assert_eq!(run(), run());
    let (_, width, counts, first, second) = run();
    assert_eq!(width, Some(3));
    assert_eq!(counts, vec![0, 2, 7, 10]);
    assert_eq!(first, Some(vec![0, bits(7.0), bits(8.5), bits(1.0)]));
    assert_eq!(second, Some(vec![0, bits(7.0), bits(8.5), bits(0.125)]));
}

#[test]
fn a_matrix_of_fewer_than_two_traces_is_refused() {
    let mut state = FoldState::new(1, false);
    assert_eq!(state.accept(&matrix(1, 3, 0), 1).err(), Some(FoldError::TooFewTraces));
    assert_eq!(state.accept(&matrix(0, 3, 0), 0).err(), Some(FoldError::TooFewTraces));
    assert_eq!(state.samples_per_trace(), None);
    assert!(!state.snapshot_due());
}

#[test]
fn labels_must_match_the_traces() {
    let mut state = FoldState::new(1, false);
    assert_eq!(state.accept(&matrix(3, 3, 0), 2).err(), Some(FoldError::LabelMismatch));
    assert_eq!(state.accept(&matrix(3, 3, 0), 4).err(), Some(FoldError::LabelMismatch));
    assert!(state.accept(&matrix(3, 3, 0), 3).is_ok());
}

#[test]
fn a_matrix_too_large_at_the_width_of_the_run_is_refused() {
    let mut state = FoldState::new(1, false);
    state.accept(&matrix(2, 1, 0), 2).unwrap();
    state.record(&[vec![0]]).unwrap();
    // without columns any count of rows can be held, at one column not
    let rows = usize::MAX / 2;
    let tall = TraceMatrix::zeros(rows, 0).unwrap();
    assert_eq!(state.accept(&tall, rows).err(), Some(FoldError::TooLarge));
    assert!(!state.snapshot_due());
    assert_eq!(state.trace_counts(), vec![2]);
}

#[test]
fn steps_out_of_turn_are_refused() {
    let mut state = FoldState::new(1, false);
    assert_eq!(state.record(&[vec![0]]).err(), Some(FoldError::OutOfTurn));
    state.accept(&matrix(2, 2, 0), 2).unwrap();
    assert_eq!(state.accept(&matrix(2, 2, 0), 2).err(), Some(FoldError::OutOfTurn));
    assert_eq!(state.trace_counts(), Vec::<usize>::new());
    state.record(&[vec![0]]).unwrap();
    assert_eq!(state.record(&[vec![0]]).err(), Some(FoldError::OutOfTurn));
    assert_eq!(state.trace_counts(), vec![2]);
}

#[test]
fn a_snapshot_must_have_one_row_per_order() {
    let mut state = FoldState::new(2, false);
    state.accept(&matrix(2, 2, 0), 2).unwrap();
    assert_eq!(state.record(&[vec![0]]).err(), Some(FoldError::SnapshotShape));
    assert_eq!(state.record(&[vec![0], vec![0], vec![0]]).err(), Some(FoldError::SnapshotShape));
    assert!(state.snapshot_due());
    assert!(state.record(&[vec![0], vec![0]]).is_ok());
}

#[test]
fn a_snapshot_row_without_a_finite_value_is_recorded_as_zero() {
    let mut state = FoldState::new(2, false);
    state.accept(&matrix(2, 2, 0), 2).unwrap();
    let snapshot = vec![vec![bits(1.0)], vec![bits(f64::NAN), bits(f64::INFINITY)]];
    assert_eq!(state.record(&snapshot), Ok(()));
    assert!(!state.snapshot_due());
    assert_eq!(state.trace_counts(), vec![2]);
    assert_eq!(state.trajectory(0), Some(vec![bits(1.0)]));
    assert_eq!(state.trajectory(1), Some(vec![0]));
    // an empty row is a row without a finite value
    state.accept(&matrix(3, 2, 0), 3).unwrap();
    assert_eq!(state.record(&[vec![bits(-2.5)], vec![]]), Ok(()));
    assert_eq!(state.trajectory(0), Some(vec![bits(1.0), bits(2.5)]));
    assert_eq!(state.trajectory(1), Some(vec![0, 0]));
}

#[test]
fn the_fold_goes_on_after_a_statistic_without_finite_values() {
    let mut state = FoldState::new(1, true);
    state.accept(&matrix(2, 3, 1), 2).unwrap();
    assert_eq!(state.record(&[vec![bits(f64::NAN); 3]]), Ok(()));
    // the next pair is taken in turn
    let fed = state.accept(&matrix(4, 3, 9), 4).unwrap();
    assert_eq!(fed.nrows(), 4);
    assert_eq!(state.record(&[vec![bits(f64::NEG_INFINITY), bits(-6.0), bits(f64::NAN)]]), Ok(()));
    state.accept(&matrix(2, 3, 5), 2).unwrap();
    assert_eq!(state.record(&[vec![bits(0.5), bits(0.25), bits(0.125)]]), Ok(()));
    assert_eq!(state.trace_counts(), vec![0, 2, 6, 8]);
    assert_eq!(state.trajectory(0), Some(vec![0, 0, bits(6.0), bits(0.5)]));
}

#[test]
fn a_run_goes_through_its_phases() {
    let phase = advance(RunPhase::Listing, RunEvent::Listed(3));
    assert_eq!(phase, RunPhase::Resolving);
    let phase = advance(phase, RunEvent::Resolved);
    assert_eq!(phase, RunPhase::Accumulating);
    let phase = advance(phase, RunEvent::Folded);
    assert_eq!(phase, RunPhase::Finalized);
    assert_eq!(advance(phase, RunEvent::Listed(1)), RunPhase::Finalized);
}

#[test]
fn a_run_without_files_is_given_up() {
    assert_eq!(advance(RunPhase::Listing, RunEvent::Listed(0)), RunPhase::Aborted);
    assert_eq!(advance(RunPhase::Aborted, RunEvent::Listed(2)), RunPhase::Aborted);
    assert_eq!(advance(RunPhase::Listing, RunEvent::Folded), RunPhase::Aborted);
    assert_eq!(advance(RunPhase::Resolving, RunEvent::Folded), RunPhase::Aborted);
    assert_eq!(advance(RunPhase::Accumulating, RunEvent::Resolved), RunPhase::Aborted);
}
