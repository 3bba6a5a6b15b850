use scasim::optional_filter::{FilterAdaptorWithCondition, OptFilterAdaptor, OptionalFilter};

#[test]
fn a_filter_hands_out_items_in_order() {
    let mut filter = OptionalFilter::new(vec![3, 1, 2]);
    assert_eq!(filter.next(), Some(3));
    assert_eq!(filter.next(), Some(1));
    assert_eq!(filter.next(), Some(2));
    assert_eq!(filter.next(), None);
    assert_eq!(filter.next(), None);
    assert_eq!(OptionalFilter::new(vec![3, 1, 2]).collect(), vec![3, 1, 2]);
    let mut rest = OptionalFilter::new(vec!["a", "b", "c"]);
    assert_eq!(rest.next(), Some("a"));
    assert_eq!(rest.collect(), vec!["b", "c"]);
}

#[test]
fn a_filter_under_a_condition() {
    let items = vec![1u32, 2, 3, 4, 5, 6];
    let even = |x: &u32| x % 2 == 0;
    assert_eq!(items.clone().opt_filter(even, true).collect(), vec![2, 4, 6]);
    assert_eq!(items.clone().opt_filter(even, false).collect(), items);
    assert_eq!(items.clone().opt_filter(|_: &u32| false, true).collect(), Vec::<u32>::new());
    assert_eq!(Vec::<u32>::new().opt_filter(even, true).collect(), Vec::<u32>::new());
}

#[test]
fn a_filter_that_may_be_absent() {
    let items = vec![1u32, 2, 3, 4, 5, 6];
    let odd = |x: &u32| x % 2 == 1;
    assert_eq!(items.clone().opt_filter_option(Some(odd)).collect(), vec![1, 3, 5]);
    let none: Option<fn(&u32) -> bool> = None;
    assert_eq!(items.clone().opt_filter_option(none).collect(), items);
}

#[test]
fn a_filter_keeps_items_that_cannot_be_copied() {
    let items = vec!["ab".to_string(), "c".to_string(), "def".to_string()];
    let long = |s: &String| s.len() > 1;
    assert_eq!(items.opt_filter(long, true).collect(), vec!["ab".to_string(), "def".to_string()]);
}
