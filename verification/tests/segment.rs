use scasim::segment::{
    check_ordered, check_valid, cut_trace, cut_windows, is_sorted, markers_to_time_indices,
    nearest_following_index, SegmentError,
};

#[test]
fn the_following_index_on_hit_and_miss() {
    let times = vec![10u64, 20, 30];
    assert_eq!(nearest_following_index(&times, 10), 0);
    assert_eq!(nearest_following_index(&times, 20), 1);
    assert_eq!(nearest_following_index(&times, 30), 2);
    assert_eq!(nearest_following_index(&times, 0), 0);
    assert_eq!(nearest_following_index(&times, 11), 1);
    assert_eq!(nearest_following_index(&times, 29), 2);
    assert_eq!(nearest_following_index(&times, 31), 3);
    assert_eq!(nearest_following_index(&[], 5), 0);
    // of equal timestamps the first is found
    assert_eq!(nearest_following_index(&[1, 2, 2, 2, 3], 2), 1);
}

#[test]
fn the_following_index_agrees_with_a_scan() {
    let times: Vec<u64> = vec![0, 3, 3, 4, 9, 9, 9, 12, 40, 41];
    for key in 0u64..45 {
        let scan = times.iter().position(|&t| t >= key).unwrap_or(times.len());
        assert_eq!(nearest_following_index(&times, key), scan);
    }
}

#[test]
fn markers_become_windows() {
    let times = vec![0u64, 1, 2, 3, 4, 5];
    let markers = vec![(0u64, 2u64, 1u16), (2, 5, 0)];
    assert_eq!(markers_to_time_indices(&markers, &times), vec![(0, 2, 1), (2, 5, 0)]);
    let times = vec![10u64, 20, 30, 40];
    let markers = vec![(5u64, 25u64, 3u16), (25, 100, 4), (41, 50, 5)];
    assert_eq!(markers_to_time_indices(&markers, &times), vec![(0, 2, 3), (2, 4, 4), (4, 4, 5)]);
    assert_eq!(markers_to_time_indices(&[], &times), vec![]);
}

#[test]
fn segmentation_shape() {
    let times = vec![0u64, 1, 2, 3, 4, 5];
    let power = vec![10u64, 11, 12, 13, 14, 15];
    let markers = vec![(0u64, 2u64, 1u16), (2, 5, 0)];
    let (matrix, labels) = cut_trace(&power, &times, &markers).unwrap();
    assert_eq!((matrix.nrows(), matrix.ncols()), (2, 3));
    assert_eq!(matrix.to_rows(), vec![vec![10, 11, 0], vec![12, 13, 14]]);
    assert_eq!(labels, vec![1, 0]);
}

#[test]
fn cutting_without_markers_yields_nothing() {
    let (matrix, labels) = cut_trace(&[1, 2], &[10, 20], &[]).unwrap();
    assert_eq!((matrix.nrows(), matrix.ncols()), (0, 0));
    assert!(labels.is_empty());
}

#[test]
fn cutting_between_timestamps() {
    let times = vec![10u64, 20, 30, 40];
    let power = vec![1u64, 2, 3, 4];
    let markers = vec![(15u64, 35u64, 9u16), (0, 50, 8), (21, 29, 7)];
    let (matrix, labels) = cut_trace(&power, &times, &markers).unwrap();
    assert_eq!(matrix.to_rows(), vec![vec![2, 3, 0, 0], vec![1, 2, 3, 4], vec![0, 0, 0, 0]]);
    assert_eq!(labels, vec![9, 8, 7]);
}

#[test]
fn cutting_along_windows() {
    let power = vec![5u64, 6, 7, 8];
    let (matrix, labels) = cut_windows(&power, &[(1, 4, 2), (0, 1, 3), (2, 2, 4)]);
    assert_eq!(matrix.to_rows(), vec![vec![6, 7, 8], vec![5, 0, 0], vec![0, 0, 0]]);
    assert_eq!(labels, vec![2, 3, 4]);
}

#[test]
fn sortedness() {
    assert!(is_sorted(&[]));
    assert!(is_sorted(&[4]));
    assert!(is_sorted(&[1, 1, 2, 3, 3]));
    assert!(!is_sorted(&[1, 3, 2]));
    assert!(!is_sorted(&[2, 1]));
}

#[test]
fn an_unsorted_time_table_is_refused() {
    let r = cut_trace(&[1, 2, 3], &[10, 30, 20], &[(10, 20, 0)]);
    assert!(matches!(r, Err(SegmentError::UnsortedTimeTable)));
}

#[test]
fn a_marker_that_ends_before_it_starts_is_refused() {
    let r = cut_trace(&[1, 2, 3], &[10, 20, 30], &[(10, 20, 0), (30, 10, 1)]);
    assert!(matches!(r, Err(SegmentError::NegativeWindow)));
    // within one gap the window is empty, not negative
    let (matrix, _) = cut_trace(&[1, 2, 3], &[10, 20, 30], &[(18, 12, 0)]).unwrap();
    assert_eq!((matrix.nrows(), matrix.ncols()), (1, 0));
}

#[test]
fn a_power_series_that_is_too_short_is_refused() {
    let r = cut_trace(&[1, 2], &[10, 20, 30], &[(10, 40, 0)]);
    assert!(matches!(r, Err(SegmentError::PowerTableTooShort)));
    let (matrix, _) = cut_trace(&[1, 2], &[10, 20, 30], &[(10, 30, 0)]).unwrap();
    assert_eq!(matrix.to_rows(), vec![vec![1, 2]]);
}

#[test]
fn windows_are_checked() {
    assert!(check_ordered(&[]));
    assert!(check_ordered(&[(0, 0, 1), (2, 5, 0)]));
    assert!(!check_ordered(&[(0, 3, 1), (5, 2, 0)]));
    assert!(check_valid(&[(0, 3, 1), (3, 5, 0)], 5));
    assert!(!check_valid(&[(0, 3, 1), (3, 6, 0)], 5));
    assert!(!check_valid(&[(3, 0, 1)], 5));
    assert!(check_valid(&[], 0));
}
