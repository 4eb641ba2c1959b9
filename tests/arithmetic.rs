use bignumbe_rs::{Base, BigNumBase, BigNumBin, Binary, Decimal, Hexadecimal, Radix, SigRange};

type Base61 = Radix<61>;

#[test]
fn new_binary_test() {
    type BigNum = BigNumBase<Binary>;
    assert_eq!(BigNum::new(1, 0), BigNum::new_raw(1, 0));
    assert_eq!(BigNum::new(0b100, 2), BigNum::new_raw(0b10000, 0));
    assert_eq!(BigNum::new(1 << 62, 20), BigNum::new_raw(1 << 63, 19));
    assert_eq!(BigNum::new(1 << 62, 20), BigNum::new_raw(1 << 63, 19));
}

#[test]
fn add_binary_test() {
    type BigNum = BigNumBase<Binary>;
    assert_eq!(
        BigNum::new(0x100, 0) + BigNum::new(0x0100_0000, 4),
        BigNum::new_raw(0x1000_0100, 0)
    );
    assert_eq!(
        BigNum::new(0x1000_0000, 32) + BigNum::new(0x0100_0000, 4),
        BigNum::new_raw(0x1000_0000_1000_0000, 0)
    );
    assert_eq!(
        BigNum::new(0xFFFF_FFFF, 32) + BigNum::new(0x8000_0000, 1),
        BigNum::new_raw(0x8000_0000_0000_0000, 1)
    );
    assert_eq!(
        BigNum::new(0xFFFF_FFFF_FFFF_FFFF, 1) + 0x1u64,
        BigNum::new_raw(0xFFFF_FFFF_FFFF_FFFF, 1)
    );
    assert_eq!(
        BigNum::new(0xFFFF_FFFF_FFFF_FFFF, 1) + 0x2u64,
        BigNum::new_raw(0x8000_0000_0000_0000, 2)
    );
}

#[test]
fn add_hex_test() {
    type BigNum = BigNumBase<Hexadecimal>;
    assert_eq!(
        BigNum::from(0xFFFF_FFFF_FFFF_FFFFu64) + 1u64,
        BigNum::new_raw(0x1000_0000_0000_0000, 1)
    );
    assert_eq!(
        BigNum::from(0xFFFF_FFFF_FFFF_FFFEu64) + 1u64,
        BigNum::new_raw(0xFFFF_FFFF_FFFF_FFFF, 0)
    );
    assert_eq!(
        BigNum::new(0xFFFF_FFFF_FFFF_FFFEu64, 10) + 0x0100_0000_0000u64,
        BigNum::new_raw(0xFFFF_FFFF_FFFF_FFFF, 10)
    );
    assert_eq!(
        BigNum::new(0xFFFF_FFFF_FFFF_FFFFu64, 0xFFFF_FFFF_FFFF_0000) + 0x0100_0000_0000u64,
        BigNum::new_raw(0xFFFF_FFFF_FFFF_FFFF, 0xFFFF_FFFF_FFFF_0000)
    );
    assert_eq!(
        BigNum::new(0xFFFF_FFFF_FFFF_FFFF, 0xFFFF_FFFF)
            + BigNum::new(0x1FFF_FFFF_FFFF_FFFF, 0xFFFF_FFF0),
        BigNum::new_raw(0x1000_0000_0000_0000, 0x1_0000_0000)
    );
    assert_eq!(
        BigNum::new(0xFFFF_FFFF_FFFF_FFFF, 0xFFFF_FFFF)
            + BigNum::new(0x1FFF_FFFF_FFFF_FFFF, 0xFFFF_FFEF),
        BigNum::new_raw(0xFFFF_FFFF_FFFF_FFFF, 0xFFFF_FFFF)
    );
}

#[test]
fn add_decimal_test() {
    type BigNum = BigNumBase<Decimal>;
    assert_eq!(
        BigNum::from(1) + BigNum::new(1243123123, 3),
        BigNum::new_raw(1243123123001, 0)
    );
    assert_eq!(
        BigNum::from(1000) + BigNum::new(10u64.pow(19) - 1, 3),
        BigNum::new_raw(10u64.pow(18), 4)
    );
    assert_eq!(
        BigNum::new(10u64.pow(19) - 1, 13) + BigNum::new(10u64.pow(18), 3),
        BigNum::new_raw(10u64.pow(18) + 10u64.pow(7) - 1, 14)
    );
}

#[test]
fn add_arbitrary_test() {
    type BigNum = BigNumBase<Base61>;
    let SigRange(min_sig, max_sig) = Base61::calculate_ranges().1;

    assert_eq!(
        BigNum::from(0xFFFF_FFFF_FFFF_FFFEu64) + 1u64,
        BigNum::new_raw(((u64::MAX as u128 + 1) / 61u128) as u64, 1)
    );
    assert_eq!(BigNum::from(1u64) + 1u64, BigNum::new_raw(2, 0));
    assert_eq!(
        BigNum::new(max_sig, 10) + BigNum::new(1, 10),
        BigNum::new_raw(min_sig, 11)
    );
    assert_eq!(
        BigNum::new(max_sig, 10) + BigNum::new(61u64, 9),
        BigNum::new_raw(min_sig, 11)
    );
}

#[test]
fn sub_binary_test() {
    type BigNum = BigNumBase<Binary>;
    assert_eq!(
        BigNum::new(0x100, 32) - BigNum::new(0x0080_0000_0000, 0),
        BigNum::new_raw(0x0080_0000_0000, 0)
    );
    assert_eq!(
        BigNum::new(0x1000_0000_0000_0000, 0) - BigNum::new(0x0010_0000_0000_0000, 8),
        BigNum::from(0)
    );
    assert_eq!(
        BigNum::new(0xFFFF_FFFF_FFFF_FFFF, 48) - BigNum::new(0x8000_0000_0000_0000, 16),
        BigNum::new(0xFFFF_FFFF_7FFF_FFFF, 48)
    );
    assert_eq!(
        BigNum::new(0xFFFF_FFFF_FFFF_FFFF, 48) - BigNum::new(0xFFFF_FFFF_0000_0000, 48),
        BigNum::new(0xFFFF_FFFF_0000_0000, 16)
    );
    assert_eq!(
        BigNum::new(0x8000_0000_0000_0000, 48) - BigNum::new(0xFFFF_FFFF_0000_0000, 16),
        BigNum::new(0xFFFF_FFFE_0000_0002, 47)
    );
}

#[test]
fn sub_arbitrary_test() {
    type BigNum = BigNumBase<Base61>;
    let SigRange(min_sig, max_sig) = Base61::calculate_ranges().1;

    assert_eq!(BigNum::new(min_sig, 1) - 61u64, BigNum::new_raw(max_sig - 60, 0));
    assert_eq!(
        BigNum::new(max_sig, 1) - max_sig,
        BigNum::new_raw(max_sig - max_sig / 61, 1)
    );
    assert_eq!(
        BigNum::new(12341098709128730491, 11234) - BigNum::new(12341098709128730491, 11234),
        BigNum::from(0)
    )
}

#[test]
fn mul_binary_test() {
    type BigNum = BigNumBase<Binary>;
    let SigRange(min_sig, max_sig) = Binary::calculate_ranges().1;

    assert_eq!(
        BigNum::from(14215125) * BigNum::from(120487091724u64),
        BigNum::from(120487091724u64 * 14215125)
    );
    assert_eq!(BigNum::from(min_sig) * BigNum::from(min_sig), BigNum::new(min_sig, 63));
    assert_eq!(BigNum::from(min_sig) * BigNum::from(min_sig), BigNum::new(min_sig, 63));
    assert_eq!(
        BigNum::new(max_sig, 1) * BigNum::new(max_sig, 1),
        BigNum::new(max_sig - 1, 64 + 2)
    );
    assert_eq!(
        BigNum::new(max_sig, 1123) * BigNum::new(max_sig, 11325),
        BigNum::new(max_sig - 1, 64 + 1123 + 11325)
    );
    assert_eq!(
        BigNum::new(max_sig - min_sig, 123410923) * BigNum::from(0),
        BigNum::from(0)
    );
    assert_eq!(
        BigNum::new(max_sig - min_sig, 123410923) * BigNum::from(1),
        BigNum::new(max_sig - min_sig, 123410923)
    );
}

#[test]
fn binary_div_test() {
    type BigNum = BigNumBase<Binary>;
    let SigRange(min_sig, max_sig) = Binary::calculate_ranges().1;

    assert_eq!(
        BigNum::from(123412341234432u64) / BigNum::from(1221314),
        BigNum::from(123412341234432u64 / 1221314)
    );
    assert_eq!(
        BigNum::from(123412341234432u64) / BigNum::from(123412341234432u64),
        BigNum::from(1)
    );
    assert_eq!(
        BigNum::from(123412341234432u64) / BigNum::from(12341234123412341234u64),
        BigNum::from(0)
    );
    assert_eq!(
        BigNum::new(123412341234432u64, 12341234) / BigNum::new(123412341234432u64, 12341234),
        BigNum::from(1)
    );
    assert_eq!(
        BigNum::new(123412341234432u64, 12341234) / BigNum::new(123412341234432u64, 12341235),
        BigNum::from(0)
    );
    assert_eq!(
        BigNum::new(123412341234432u64, 12341234) / BigNum::new(123412341234433u64, 12341234),
        BigNum::from(0)
    );
    assert_eq!(
        BigNum::new(min_sig, 12341234) / BigNum::new(min_sig, 12341233),
        BigNum::from(2)
    );
    assert_eq!(
        BigNum::new(min_sig, 12341234) / BigNum::new(min_sig, 1),
        BigNum::new(min_sig, 12341234 - 64)
    );
    assert_eq!(
        BigNum::new(max_sig, 12341234) / BigNum::new(max_sig, 1),
        BigNum::new(min_sig, 12341234 - 64)
    );
    assert_eq!(
        BigNum::new(max_sig, 12341234) / BigNum::new(min_sig, 1),
        BigNum::new(max_sig, 12341234 - 64)
    );
    assert_eq!(
        BigNum::new(max_sig, 63 + 12341234) / BigNum::new(min_sig, 1),
        BigNum::new(max_sig, 12341234 - 1)
    );
}

#[test]
fn binary_shifts() {
    type BigNum = BigNumBase<Binary>;

    assert_eq!(BigNum::new(0b100, 0) << 1, BigNum::new(0b1000, 0));
    assert_eq!(BigNum::new(0b100, 0) << 2, BigNum::new(0b10000, 0));
    assert_eq!(BigNum::new(u64::MAX, 1) << 3, BigNum::new(u64::MAX, 4));
    assert_eq!(BigNum::new(u64::MAX, 0) << 64, BigNum::new(u64::MAX, 64));

    assert_eq!(BigNum::new(0b100, 0) >> 1, BigNum::new(0b10, 0));
    assert_eq!(BigNum::new(0b100, 0) >> 2, BigNum::new(0b1, 0));
    assert_eq!(BigNum::new(u64::MAX, 1) >> 3, BigNum::new(u64::MAX / 4, 0));
    assert_eq!(BigNum::new(u64::MAX, 0) >> 63, BigNum::from(1));
    assert_eq!(
        BigNum::new(u64::MAX, 100) >> 105,
        BigNum::new(u64::MAX / 32, 0)
    );
}

#[test]
fn sum_test_binary() {
    type BigNum = BigNumBin;

    let a: [BigNum; 0] = [];
    let b: [BigNum; 10] = [BigNum::from(100); 10];
    let c: Vec<BigNum> = (0u64..100).map(BigNum::from).collect();
    let d: [BigNum; 100] = [BigNum::from(1 << 63); 100];

    assert_eq!(BigNum::from(0), BigNum::sum(&a));
    assert_eq!(BigNum::from(1000), BigNum::sum(&b));
    assert_eq!(BigNum::from(4950), BigNum::sum(&c));

    assert_eq!(BigNum::from(1 << 63) * 100, BigNum::sum(&d));
}

#[test]
fn prod_test_binary() {
    type BigNum = BigNumBin;

    let a: [BigNum; 0] = [];
    let b: [BigNum; 10] = [BigNum::from(2); 10];
    let c: [BigNum; 10] = [BigNum::from(8); 10];
    let d: [BigNum; 100] = [BigNum::from(1 << 63); 100];

    assert_eq!(BigNum::from(0), BigNum::product(&a));
    assert_eq!(BigNum::from(1024), BigNum::product(&b));
    assert_eq!(BigNum::from(1024 * 1024 * 1024), BigNum::product(&c));

    assert_eq!(BigNum::new(1, 63 * 100), BigNum::product(&d));
}

#[test]
fn fuzzy_eq_test() {
    type BigNum = BigNumBase<Decimal>;
    let max_sig = Decimal::calculate_ranges().1 .1;

    let a = BigNum::new(max_sig, 234);
    let b = a + a + a + a + a;
    let c = 2 * a + 3 * a;
    let d: BigNum = BigNum::sum(&vec![a; 20]);
    let e = a * 20;

    assert!(b.fuzzy_eq(c, 4));
    assert!(d.fuzzy_eq(e, 20));
}
