use bignumbe_rs::{BigNumBase, Decimal};

#[test]
fn display_test() {
    type BigNum = BigNumBase<Decimal>;

    assert_eq!(BigNum::from(1).to_string(), "1");
    assert_eq!(BigNum::from(999).to_string(), "999");
    assert_eq!(BigNum::from(1000).to_string(), "1k");
    assert_eq!(BigNum::from(1001).to_string(), "1.001k");
    assert_eq!(BigNum::from(999999).to_string(), "999.9k");
    assert_eq!(BigNum::from(1000000).to_string(), "1m");
    assert_eq!(BigNum::from(1001000).to_string(), "1.001m");
    assert_eq!(BigNum::from(999999999).to_string(), "999.9m");
    assert_eq!(BigNum::from(1000000000).to_string(), "1b");
    assert_eq!(BigNum::from(1001000000).to_string(), "1.001b");
    assert_eq!(BigNum::from(999999999999).to_string(), "999.9b");
    assert_eq!(BigNum::from(1000000000000).to_string(), "1t");
    assert_eq!(BigNum::from(1001000000000).to_string(), "1.001t");
    assert_eq!(BigNum::from(999999999999999).to_string(), "999.9t");
    assert_eq!(BigNum::from(1000000000000000).to_string(), "1e15");
    assert_eq!(BigNum::from(1001000000000000).to_string(), "1.001e15");
    assert_eq!(BigNum::from(999999999999999999).to_string(), "9.999e17");
    assert_eq!(BigNum::new(9999, 123523).to_string(), "9.999e123526");
    assert_eq!(BigNum::new(9099, 123523).to_string(), "9.099e123526");
    assert_eq!(BigNum::new(999, 123523).to_string(), "9.99e123525");
}

#[test]
fn display_zero_and_small() {
    type BigNum = BigNumBase<Decimal>;
    assert_eq!(BigNum::from(0).to_string(), "0");
    assert_eq!(BigNum::from(7).to_string(), "7");
    assert_eq!(BigNum::from(1234).to_string(), "1.234k");
    assert_eq!(BigNum::from(12345678).to_string(), "12.34m");
    assert_eq!(BigNum::from(100050).to_string(), "100.0k");
}

#[test]
fn display_expanded_mantissa_is_truncated() {
    type BigNum = BigNumBase<Decimal>;
    // the largest significand never shows as 10
    assert_eq!(BigNum::new_raw(9_999_999_999_999_999_999, 1).to_string(), "9.999e19");
    assert_eq!(BigNum::new_raw(1_000_000_000_000_000_000, 2).to_string(), "1e20");
    assert_eq!(BigNum::new_raw(1_234_500_000_000_000_000, 1).to_string(), "1.234e19");
}
