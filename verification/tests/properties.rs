use std::cmp::Ordering;

use numeric_cmp::numeric_str_cmp;

#[test]
fn total_on_arbitrary_text() {
    // Every input, however malformed, gets an answer rather than an error.
    assert_eq!(numeric_str_cmp("", ""), Ordering::Equal);
    assert_eq!(numeric_str_cmp("+", "-"), Ordering::Greater);
    assert_eq!(numeric_str_cmp(",", ""), Ordering::Equal);
    assert_eq!(numeric_str_cmp("caf\u{e9}", "5"), Ordering::Less);
    assert_eq!(numeric_str_cmp("", "0"), Ordering::Less);
}

#[test]
fn antisymmetric_pairs() {
    let pairs = [
        ("1", "2"),
        ("-20", "-100"),
        ("20.1", "20.15"),
        ("foo", "bar"),
        ("20.1", "a"),
        ("-0", "0"),
        ("1,000", "1000"),
        ("20.00000", "20.0"),
        ("1.1.", "0"),
        ("", "+5"),
    ];
    for (a, b) in pairs {
        assert_eq!(numeric_str_cmp(a, b), numeric_str_cmp(b, a).reverse());
    }
}

#[test]
fn reflexive_on_any_text() {
    for s in ["", "0", "-12.5", "+0,1", "foo", "1.1.", "-", ".", "1,0,0"] {
        assert_eq!(numeric_str_cmp(s, s), Ordering::Equal);
    }
}

#[test]
fn sign_dominates_on_mismatch() {
    assert_eq!(numeric_str_cmp("-5", "5"), Ordering::Less);
    assert_eq!(numeric_str_cmp("-0", "0"), Ordering::Less);
    // Invalid content overrides the sign ordering.
    assert_eq!(numeric_str_cmp("-5", "x"), Ordering::Greater);
    assert_eq!(numeric_str_cmp("x", "-5"), Ordering::Less);
}

#[test]
fn grouping_chars_are_transparent() {
    assert_eq!(numeric_str_cmp("1,000", "1000"), Ordering::Equal);
    assert_eq!(numeric_str_cmp("1,000", "999"), Ordering::Greater);
    assert_eq!(numeric_str_cmp(",1", "1"), Ordering::Equal);
    assert_eq!(numeric_str_cmp("-2,0.5", "-20.5"), Ordering::Equal);
}

#[test]
fn arbitrary_length_beyond_float_range() {
    let s1 = "20".repeat(50_000);
    let s2 = "50".repeat(50_000);
    assert_eq!(numeric_str_cmp(&s1, &s2), Ordering::Less);
    assert_eq!(numeric_str_cmp(&s2, &s1), Ordering::Greater);
    assert_eq!(numeric_str_cmp(&s1, &s1), Ordering::Equal);
}

#[test]
fn fractional_trailing_zeros() {
    assert_eq!(numeric_str_cmp("20.00000", "20.0"), Ordering::Equal);
    assert_eq!(numeric_str_cmp("20.00000", "20.1"), Ordering::Less);
    assert_eq!(numeric_str_cmp("-3.1400", "-3.14"), Ordering::Equal);
}

#[test]
fn longer_integer_part_wins() {
    assert_eq!(numeric_str_cmp("-20", "-100"), Ordering::Greater);
    assert_eq!(numeric_str_cmp("10.0", "2.000000"), Ordering::Greater);
    assert_eq!(numeric_str_cmp("100", "20.5"), Ordering::Greater);
}
