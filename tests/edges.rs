use std::cmp::Ordering;

use bignumbe_rs::{
    get_cached_exp_range, get_cached_mag_arbitrary, get_cached_pow, get_cached_sig_range, Base,
    BaseCache, BaseData, BigNumBase, BigNumBin, BigNumDec, Binary, Decimal, ExpRange,
    Hexadecimal, Octal, Radix, SigRange,
};

#[test]
fn builtin_ranges_match_derived_ranges() {
    assert_eq!(Binary.exp_range(), Binary::calculate_ranges().0);
    assert_eq!(Binary.sig_range(), Binary::calculate_ranges().1);
    assert_eq!(Octal.exp_range(), Octal::calculate_ranges().0);
    assert_eq!(Octal.sig_range(), Octal::calculate_ranges().1);
    assert_eq!(Hexadecimal.exp_range(), Hexadecimal::calculate_ranges().0);
    assert_eq!(Hexadecimal.sig_range(), Hexadecimal::calculate_ranges().1);
    assert_eq!(Decimal.exp_range(), Decimal::calculate_ranges().0);
    assert_eq!(Decimal.sig_range(), Decimal::calculate_ranges().1);
    assert_eq!(Binary::calculate_ranges().0, ExpRange(63, 64));
    assert_eq!(Binary::calculate_ranges().1, SigRange(1 << 63, u64::MAX));
    assert_eq!(Radix::<4>::calculate_ranges().1, SigRange(1 << 62, u64::MAX));
    assert_eq!(Radix::<256>::calculate_ranges().0, ExpRange(7, 8));
    assert_eq!(Radix::<65535>::calculate_ranges().0, ExpRange(3, 4));
}

#[test]
fn base_shortcuts() {
    assert_eq!(Binary::pow(10), 1024);
    assert_eq!(Binary::rshift(1 << 40, 8), 1 << 32);
    assert_eq!(Binary::lshift(3, 4), 48);
    assert_eq!(Binary::rshift_u128(1 << 100, 36), 1 << 64);
    assert_eq!(Decimal::pow(18), 10u64.pow(18));
    assert_eq!(Decimal::get_mag(999), 2);
    assert_eq!(Decimal::get_mag(1000), 3);
    assert_eq!(Radix::<61>::get_mag_u128(61u128.pow(15)), 15);
    assert_eq!(Radix::<61>::pow_u128(15), 61u128.pow(15));
    assert_eq!(Octal::pow(20), 1 << 60);
    assert_eq!(Octal::lshift(5, 2), 320);
    assert_eq!(Octal::rshift(320, 2), 5);
    assert_eq!(Octal::rshift_u128(1 << 90, 30), 1);
    assert_eq!(Hexadecimal::pow(15), 1 << 60);
    assert_eq!(Hexadecimal::lshift(3, 3), 3 << 12);
    assert_eq!(Hexadecimal::rshift(0xABCD, 2), 0xAB);
    assert_eq!(Hexadecimal::rshift_u128(1 << 124, 31), 1);
    assert_eq!(Radix::<7>::new().as_number(), 7);
}

#[test]
fn new_normalizes() {
    // past max_sig: one division by the radix
    assert_eq!(BigNumDec::new(u64::MAX, 0), BigNumDec::new_raw(u64::MAX / 10, 1));
    // short significand with a large exponent
    assert_eq!(BigNumDec::new(5, 100), BigNumDec::new_raw(5 * 10u64.pow(18), 82));
    // exponent too small to fill the window: compact
    assert_eq!(BigNumDec::new(5, 3), BigNumDec::new_raw(5000, 0));
    // exponents beyond 32 bits keep their value
    assert_eq!(BigNumBin::new(1, 1 << 33), BigNumBin::new_raw(1 << 63, (1 << 33) - 63));
}

#[test]
fn subtraction_collapses_to_exact_compact_value() {
    // 2^64 - (2^64 - 1) loses the low digit of the subtrahend and leaves 2
    assert_eq!(
        BigNumBin::new_raw(1 << 63, 1) - BigNumBin::from(u64::MAX),
        BigNumBin::from(2)
    );
    assert_eq!(BigNumDec::from(1000) - 1, BigNumDec::from(999));
}

#[test]
fn mixed_operands() {
    assert_eq!(BigNumDec::from(7) * 6, BigNumDec::from(42));
    assert_eq!(6 * BigNumDec::from(7), BigNumDec::from(42));
    assert_eq!(BigNumDec::from(43) / 6, BigNumDec::from(7));
    assert_eq!(BigNumDec::from(43) - 1, BigNumDec::from(42));
    assert_eq!(BigNumDec::from(41) + 1, BigNumDec::from(42));
}

#[test]
fn division_shapes() {
    let a = BigNumDec::new(10u64.pow(18), 50);
    let b = BigNumDec::new(2 * 10u64.pow(18), 10);
    assert_eq!(a / b, BigNumDec::new_raw(5 * 10u64.pow(18), 21));
    assert_eq!(BigNumDec::from(3) / BigNumDec::from(7), BigNumDec::from(0));
    assert_eq!(a / a, BigNumDec::from(1));
}

#[test]
fn cmp_orders_by_exponent_then_significand() {
    let a = BigNumBin::new_raw(5, 0);
    let b = BigNumBin::new_raw(1 << 63, 1);
    assert_eq!(a.cmp(&b), Ordering::Less);
    assert_eq!(b.cmp(&a), Ordering::Greater);
    assert_eq!(a.cmp(&a), Ordering::Equal);
    assert_eq!(a.partial_cmp(&b), Some(Ordering::Less));
}

#[test]
fn cache_populates_once_and_answers() {
    let mut cache = BaseCache::new();
    cache.ensure_cached(61);
    cache.ensure_cached(61);
    cache.ensure_cached(3);
    assert_eq!(get_cached_pow(&cache, 2, 61), 3721);
    assert_eq!(get_cached_pow(&cache, 0, 3), 1);
    assert_eq!(get_cached_mag_arbitrary(&cache, 3720, 61), 1);
    assert_eq!(get_cached_mag_arbitrary(&cache, 3721, 61), 2);
    assert_eq!(get_cached_mag_arbitrary(&cache, 0, 61), 0);
    assert_eq!(get_cached_exp_range(&cache, 61), (9, 10));
    assert_eq!(get_cached_sig_range(&cache, 61), (61u64.pow(9), 61u64.pow(10) - 1));
    let r = Radix::<61>::calculate_ranges();
    assert_eq!(get_cached_exp_range(&cache, 61), (r.0 .0, r.0 .1));
    assert_eq!(get_cached_sig_range(&cache, 61), (r.1 .0, r.1 .1));
}

#[test]
fn base_data_tables() {
    let d = BaseData::new(4);
    assert_eq!(d.exp_range(), (30, 31));
    assert_eq!(d.sig_range(), (1 << 60, (1 << 62) - 1));
    assert_eq!(d.pow(31), 1 << 62);
    assert_eq!(d.min_sig(), 1 << 60);
    assert_eq!(d.max_sig(), (1 << 62) - 1);
    assert_eq!(d.min_exp(), 30);
    assert_eq!(d.max_exp(), 31);
    let e = BaseData::new(65535);
    assert_eq!(e.exp_range(), (3, 4));
}

#[test]
fn ranges_helpers() {
    assert_eq!(ExpRange::new(3, 4), ExpRange::from((3, 4)));
    assert_eq!(ExpRange::new(3, 4).min(), 3);
    assert_eq!(ExpRange::new(3, 4).max(), 4);
    assert_eq!(SigRange::new(5, 9), SigRange::from((5, 9)));
    assert_eq!(SigRange::new(5, 9).min(), 5);
    assert_eq!(SigRange::new(5, 9).max(), 9);
}

#[test]
fn generic_radix_arithmetic() {
    type B3 = BigNumBase<Radix<3>>;
    let SigRange(min_sig, max_sig) = Radix::<3>::calculate_ranges().1;
    assert_eq!(B3::new(max_sig, 4) + B3::new(1, 4), B3::new_raw(min_sig, 5));
    assert_eq!(B3::from(9) * B3::from(9), B3::from(81));
    assert_eq!(B3::from(81) >> 2, B3::from(9));
}
