use scasim::power_model::{count_ones, power_model, slice_distance, slice_weight, Hamming};
use scasim::signal::{can_compare, SignalValue};

#[test]
fn count_ones_of_bytes() {
    assert_eq!(count_ones(0), 0);
    assert_eq!(count_ones(1), 1);
    assert_eq!(count_ones(0b1011_0010), 4);
    assert_eq!(count_ones(0xff), 8);
    for b in 0u16..256 {
        assert_eq!(count_ones(b as u8), (b as u8).count_ones());
    }
}

#[test]
fn weight_of_slices() {
    assert_eq!(slice_weight(&[]), 0);
    assert_eq!(slice_weight(&[0xff, 0x01, 0x80]), 10);
    let bytes: &[u8] = &[0x0f, 0xf0];
    assert_eq!(bytes.hamming_weight(), 8);
}

#[test]
fn distance_of_slices() {
    assert_eq!(slice_distance(&[0b1010], &[0b0110]), 2);
    assert_eq!(slice_distance(&[0xff, 0xff], &[0x00, 0xff]), 8);
    // only the bytes that both have are compared
    assert_eq!(slice_distance(&[0xff, 0xff], &[0x00]), 8);
    assert_eq!(slice_distance(&[], &[0x12]), 0);
    let a: &[u8] = b"0110";
    let b: &[u8] = b"1100";
    assert_eq!(a.hamming_distance(&b), 2);
    assert_eq!(power_model(&a, &b), 2);
}

#[test]
fn distance_is_symmetric_and_zero_on_itself() {
    let a = [0x12u8, 0x34, 0x56];
    let b = [0xfeu8, 0xdc, 0xba];
    assert_eq!(slice_distance(&a, &b), slice_distance(&b, &a));
    assert_eq!(slice_distance(&a, &a), 0);
}

#[test]
fn weight_of_signal_values() {
    assert_eq!(SignalValue::Binary(vec![0b111, 0xff], 11).hamming_weight(), 11);
    assert_eq!(SignalValue::FourValue(vec![0xff], 4).hamming_weight(), 0);
    assert_eq!(SignalValue::Text("11".to_string()).hamming_weight(), 0);
    assert_eq!(SignalValue::Real(0xffff).hamming_weight(), 0);
}

#[test]
fn distance_of_signal_values() {
    let a = SignalValue::Binary(vec![0b0000_1111], 8);
    let b = SignalValue::Binary(vec![0b0101_0101], 8);
    assert_eq!(a.hamming_distance(&b), 4);
    assert_eq!(power_model(&a, &b), 4);
    let four = SignalValue::FourValue(vec![0xff], 4);
    assert_eq!(a.hamming_distance(&four), 0);
    assert_eq!(four.hamming_distance(&a), 0);
    assert_eq!(power_model(&SignalValue::NineValue(vec![1], 2), &SignalValue::Real(7)), 0);
}

#[test]
fn values_of_different_widths_cannot_be_compared() {
    let a = SignalValue::Binary(vec![0x0f], 8);
    let b = SignalValue::Binary(vec![0x0f], 7);
    assert!(!can_compare(&a, &b));
    assert!(can_compare(&a, &a));
    assert!(can_compare(&a, &SignalValue::Text("x".to_string())));
    assert!(can_compare(&SignalValue::Real(1), &b));
}
