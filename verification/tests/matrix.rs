use scasim::matrix::{check_shape, TraceMatrix};

#[test]
fn a_matrix_of_zeros() {
    let m = TraceMatrix::zeros(2, 3).unwrap();
    assert_eq!((m.nrows(), m.ncols()), (2, 3));
    assert_eq!(m.to_rows(), vec![vec![0, 0, 0], vec![0, 0, 0]]);
    let empty = TraceMatrix::zeros(0, 5).unwrap();
    assert_eq!((empty.nrows(), empty.ncols()), (0, 5));
    assert!(empty.to_rows().is_empty());
    let thin = TraceMatrix::zeros(4, 0).unwrap();
    assert_eq!((thin.nrows(), thin.ncols()), (4, 0));
    assert_eq!(thin.to_rows(), vec![Vec::<u64>::new(); 4]);
}

#[test]
fn a_matrix_too_large_to_hold() {
    assert!(check_shape(0, 0));
    assert!(check_shape(1000, 1000));
    assert!(!check_shape(usize::MAX, 1));
    assert!(!check_shape(usize::MAX, 0));
    assert!(!check_shape(0, usize::MAX));
    assert!(check_shape(0, usize::MAX / 2));
    assert!(!check_shape(usize::MAX / 8, 2));
    assert!(!check_shape(1 << 31, 1 << 31) || usize::BITS > 64);
    assert!(TraceMatrix::zeros(usize::MAX, 2).is_none());
    assert!(TraceMatrix::zeros(usize::MAX / 16 + 1, 1).is_none());
}

#[test]
fn cells_are_written_and_read() {
    let mut m = TraceMatrix::zeros(2, 2).unwrap();
    m.set(0, 1, 7);
    m.set(1, 0, 9);
    assert_eq!(m.get(0, 0), Some(0));
    assert_eq!(m.get(0, 1), Some(7));
    assert_eq!(m.get(1, 0), Some(9));
    assert_eq!(m.get(2, 0), None);
    assert_eq!(m.get(0, 2), None);
    assert_eq!(m.to_rows(), vec![vec![0, 7], vec![9, 0]]);
}

#[test]
fn a_matrix_from_rows() {
    let rows = vec![vec![1u64, 2, 3], vec![4, 5, 6]];
    let m = TraceMatrix::from_rows(&rows, 3).unwrap();
    assert_eq!((m.nrows(), m.ncols()), (2, 3));
    assert_eq!(m.to_rows(), rows);
    assert!(TraceMatrix::from_rows(&rows, 2).is_none());
    assert!(TraceMatrix::from_rows(&[vec![1], vec![2, 3]], 1).is_none());
    let none = TraceMatrix::from_rows(&[], 4).unwrap();
    assert_eq!((none.nrows(), none.ncols()), (0, 4));
}

#[test]
fn a_narrower_matrix_is_padded_with_zeros() {
    let m = TraceMatrix::from_rows(&[vec![1, 2], vec![3, 4]], 2).unwrap();
    let wide = m.reconcile_width(5).unwrap();
    assert_eq!((wide.nrows(), wide.ncols()), (2, 5));
    assert_eq!(wide.to_rows(), vec![vec![1, 2, 0, 0, 0], vec![3, 4, 0, 0, 0]]);
}

#[test]
fn a_wider_matrix_is_truncated() {
    let m = TraceMatrix::from_rows(&[vec![1, 2, 3, 4], vec![5, 6, 7, 8]], 4).unwrap();
    let narrow = m.reconcile_width(3).unwrap();
    assert_eq!((narrow.nrows(), narrow.ncols()), (2, 3));
    assert_eq!(narrow.to_rows(), vec![vec![1, 2, 3], vec![5, 6, 7]]);
    let none = m.reconcile_width(0).unwrap();
    assert_eq!((none.nrows(), none.ncols()), (2, 0));
}

#[test]
fn a_matrix_of_the_width_asked_for_stays() {
    let rows = vec![vec![1u64, 2, 3], vec![4, 5, 6]];
    let m = TraceMatrix::from_rows(&rows, 3).unwrap();
    assert_eq!(m.reconcile_width(3).unwrap().to_rows(), rows);
    assert!(m.reconcile_width(usize::MAX).is_none());
}

#[test]
fn a_matrix_from_traces() {
    let traces = vec![vec![1u64, 2], vec![3, 4], vec![5, 6]];
    let m = TraceMatrix::from_traces(&traces).unwrap();
    assert_eq!((m.nrows(), m.ncols()), (3, 2));
    assert_eq!(m.to_rows(), traces);
    assert!(TraceMatrix::from_traces(&[]).is_none());
    assert!(TraceMatrix::from_traces(&[vec![1, 2], vec![3]]).is_none());
    let thin = TraceMatrix::from_traces(&[vec![], vec![]]).unwrap();
    assert_eq!((thin.nrows(), thin.ncols()), (2, 0));
}

#[test]
fn rows_are_read_and_written_in_part() {
    let mut m = TraceMatrix::from_rows(&[vec![1, 2, 3, 4], vec![5, 6, 7, 8]], 4).unwrap();
    assert_eq!(m.row_prefix(1, 3), vec![5, 6, 7]);
    assert_eq!(m.row_prefix(0, 0), Vec::<u64>::new());
    assert_eq!(m.row_prefix(0, 4), vec![1, 2, 3, 4]);
    m.write_row(0, &[9, 9]);
    assert_eq!(m.to_rows(), vec![vec![9, 9, 3, 4], vec![5, 6, 7, 8]]);
    m.write_row(1, &[]);
    m.write_row(1, &[0, 1, 2, 3]);
    assert_eq!(m.to_rows(), vec![vec![9, 9, 3, 4], vec![0, 1, 2, 3]]);
}
