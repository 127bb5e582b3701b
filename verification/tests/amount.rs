use payments::amount::{parse_amount, Amount};

fn minor(s: &str) -> Option<i64> {
    parse_amount(s).map(|a| a.minor)
}

#[test]
fn parses_plain_integers() {
    assert_eq!(minor("0"), Some(0));
    assert_eq!(minor("10"), Some(100000));
    assert_eq!(minor("65535"), Some(655350000));
}

#[test]
fn parses_fractions() {
    assert_eq!(minor("1.5"), Some(15000));
    assert_eq!(minor("0.0001"), Some(1));
    assert_eq!(minor("2.0001"), Some(20001));
    assert_eq!(minor(".5"), Some(5000));
    assert_eq!(minor("10."), Some(100000));
}

#[test]
fn parses_negative_amounts() {
    assert_eq!(minor("-2"), Some(-20000));
    assert_eq!(minor("-0.5"), Some(-5000));
}

#[test]
fn parses_largest_width() {
    // Fourteen digits before the point and four after it are accepted...
    assert_eq!(minor("99999999999999.9999"), Some(999999999999999999));
    // ...a fifteenth digit is not.
    assert_eq!(minor("100000000000000"), None);
}

#[test]
fn rejects_malformed_text() {
    assert_eq!(minor(""), None);
    assert_eq!(minor("-"), None);
    assert_eq!(minor("."), None);
    assert_eq!(minor("-."), None);
    assert_eq!(minor("1.2.3"), None);
    assert_eq!(minor("1e5"), None);
    assert_eq!(minor(" 1"), None);
    assert_eq!(minor("12x"), None);
    assert_eq!(minor("--1"), None);
    assert_eq!(minor("0.12345"), None);
}

#[test]
fn amount_constructors() {
    assert_eq!(Amount::from_units(3).minor, 30000);
    assert_eq!(Amount::from_minor(42).minor, 42);
    assert_eq!(Amount::zero().minor, 0);
}
