use bignumbe_rs::{
    Base, BigNumBase, BigNumBin, BigNumDec, BigNumHex, BigNumOct, Binary, Decimal, Hexadecimal,
    Octal, Pred, Radix, SigRange, Succ,
};

#[test]
fn new_compact_matches_raw() {
    let SigRange(_, bin_max) = Binary::calculate_ranges().1;
    for sig in [0u64, 1, 2, 1000, 1 << 40, bin_max] {
        assert_eq!(BigNumBin::new(sig, 0), BigNumBin::new_raw(sig, 0));
    }
    let SigRange(_, dec_max) = Decimal::calculate_ranges().1;
    for sig in [0u64, 9, 10u64.pow(18), dec_max] {
        assert_eq!(BigNumDec::new(sig, 0), BigNumDec::new_raw(sig, 0));
    }
    let SigRange(_, max3) = Radix::<3>::calculate_ranges().1;
    for sig in [0u64, 3, 81, max3] {
        assert_eq!(BigNumBase::<Radix<3>>::new(sig, 0), BigNumBase::<Radix<3>>::new_raw(sig, 0));
    }
}

#[test]
fn add_and_mul_commute() {
    let values = [
        BigNumDec::from(0),
        BigNumDec::from(1),
        BigNumDec::from(12345),
        BigNumDec::new(10u64.pow(19) - 1, 3),
        BigNumDec::new(10u64.pow(18), 40),
        BigNumDec::new(4321, 17),
    ];
    for a in values {
        for b in values {
            assert_eq!(a + b, b + a);
            assert_eq!(a * b, b * a);
        }
    }
}

#[test]
fn identities() {
    let values = [
        BigNumHex::from(0),
        BigNumHex::from(5),
        BigNumHex::new(0xFFFF_FFFF_FFFF_FFFF, 9),
        BigNumHex::new(0x1000_0000_0000_0000, 1),
    ];
    for a in values {
        assert_eq!(a + BigNumHex::from(0), a);
        assert_eq!(a * BigNumHex::from(1), a);
        assert_eq!(a * BigNumHex::from(0), BigNumHex::from(0));
    }
}

#[test]
fn compact_order_matches_integers() {
    let xs = [0u64, 1, 7, 1000, 1 << 62, u64::MAX / 2];
    for x in xs {
        for y in xs {
            assert_eq!(BigNumOct::from(x) < BigNumOct::from(y), x < y);
            assert_eq!(BigNumOct::from(x) == BigNumOct::from(y), x == y);
        }
    }
    // exponent dominates the significand
    assert!(BigNumBin::new_raw(u64::MAX, 1) < BigNumBin::new_raw(1 << 63, 2));
}

#[test]
fn fuzzy_eq_accumulated_rounding() {
    let max_sig = Decimal::calculate_ranges().1 .1;
    let a = BigNumDec::new(max_sig, 234);
    let b = a + a + a + a + a;
    let c = 2 * a + 3 * a;
    assert_ne!(b, c);
    assert!(b.fuzzy_eq(c, 4));
    assert!(!BigNumDec::from(10).fuzzy_eq(BigNumDec::from(20), 4));
    assert!(BigNumDec::from(10).fuzzy_eq(BigNumDec::from(14), 4));
}

#[test]
fn shift_round_trip() {
    let values = [
        BigNumBin::from(1),
        BigNumBin::from(12345),
        BigNumBin::new(u64::MAX, 0),
        BigNumBin::new(1 << 63, 77),
    ];
    for a in values {
        for n in [0u64, 1, 5, 63, 64, 1000] {
            assert_eq!((a << n) >> n, a);
        }
    }
    let d = BigNumDec::from(42);
    assert_eq!((d << 30) >> 30, d);
}

#[test]
fn pred_succ_inverse() {
    let SigRange(min_sig, max_sig) = Binary::calculate_ranges().1;
    let values = [
        BigNumBin::from(0),
        BigNumBin::from(1),
        BigNumBin::new_raw(max_sig, 0),
        BigNumBin::new_raw(min_sig, 1),
        BigNumBin::new_raw(max_sig, 5),
        BigNumBin::new_raw(min_sig + 3, 5),
    ];
    for a in values {
        assert_eq!(a.succ().pred(), a);
        if a != BigNumBin::from(0) {
            assert_eq!(a.pred().succ(), a);
        }
    }
}

#[test]
fn binary_overflow_to_next_exponent() {
    assert_eq!(
        BigNumBin::new(1, 0) + BigNumBin::from(u64::MAX),
        BigNumBin::new(1 << 63, 1)
    );
}

#[test]
fn binary_wrap_then_carry() {
    assert_eq!(
        BigNumBin::new(0xFFFF_FFFF_FFFF_FFFF, 1) + 2,
        BigNumBin::new(0x8000_0000_0000_0000, 2)
    );
}

#[test]
fn subtraction_precision_loss_any_radix() {
    fn check<T: Base>() {
        let SigRange(_, max_sig) = T::calculate_ranges().1;
        let n = T::NUMBER as u64;
        assert_eq!(
            BigNumBase::<T>::new(max_sig, 1) - max_sig,
            BigNumBase::<T>::new(max_sig - max_sig / n, 1)
        );
    }
    check::<Radix<3>>();
    check::<Radix<61>>();
    check::<Radix<1422>>();
    check::<Radix<65535>>();
    check::<Decimal>();
    check::<Octal>();
    check::<Hexadecimal>();
}
