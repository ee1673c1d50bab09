use std::cmp::Ordering;

use numeric_cmp::numeric_str_cmp;

#[test]
fn test_single_digit() {
    assert_eq!(numeric_str_cmp("1", "2"), Ordering::Less);
    assert_eq!(numeric_str_cmp("2", "1"), Ordering::Greater);
    assert_eq!(numeric_str_cmp("0", "0"), Ordering::Equal);
}

#[test]
fn test_minus() {
    assert_eq!(numeric_str_cmp("-1", "-2"), Ordering::Greater);
    assert_eq!(numeric_str_cmp("-2", "-1"), Ordering::Less);
    assert_eq!(numeric_str_cmp("-0", "-0"), Ordering::Equal);
}

#[test]
fn test_different_len() {
    assert_eq!(numeric_str_cmp("-20", "-100"), Ordering::Greater);
    assert_eq!(numeric_str_cmp("10.0", "2.000000"), Ordering::Greater);
}

#[test]
fn test_decimal_digits() {
    assert_eq!(numeric_str_cmp("20.1", "20.2"), Ordering::Less);
    assert_eq!(numeric_str_cmp("20.1", "20.15"), Ordering::Less);
    assert_eq!(numeric_str_cmp("-20.1", "+20.15"), Ordering::Less);
    assert_eq!(numeric_str_cmp("-20.1", "-20"), Ordering::Less);
}

#[test]
fn test_trailing_zeroes() {
    assert_eq!(numeric_str_cmp("20.00000", "20.1"), Ordering::Less);
    assert_eq!(numeric_str_cmp("20.00000", "20.0"), Ordering::Equal);
}

#[test]
fn test_invalid_digits() {
    assert_eq!(numeric_str_cmp("foo", "bar"), Ordering::Equal);
    assert_eq!(numeric_str_cmp("20.1", "a"), Ordering::Greater);
    assert_eq!(numeric_str_cmp("-20.1", "a"), Ordering::Greater);
    assert_eq!(numeric_str_cmp("a", "0.15"), Ordering::Less);
}

#[test]
fn test_multiple_decimal_pts() {
    assert_eq!(numeric_str_cmp("10.0.0", "50.0.0"), Ordering::Equal);
    assert_eq!(numeric_str_cmp("0.1.", "0.2.0"), Ordering::Equal);
    assert_eq!(numeric_str_cmp("1.1.", "0"), Ordering::Less);
    assert_eq!(numeric_str_cmp("1.1.", "-0"), Ordering::Less);
}

#[test]
fn minus_zero() {
    // This matches the behavior of conventional numeric-sort tooling.
    assert_eq!(numeric_str_cmp("-0", "0"), Ordering::Less);
}
