//! The capability contract every radix satisfies, its range types, and the built-in
//! bases.
use crate::power::{
    lemma_log_bounds, lemma_pow_ge_pow2, lemma_pow_lt, lemma_pow_step, lemma_valid_base_facts,
    two64, valid_base,
};
use vstd::arithmetic::logarithm::{lemma_log0, lemma_log_s, log};
use vstd::arithmetic::power::{lemma_pow_increases, lemma_pow_positive, pow};
use vstd::prelude::*;

verus! {

/// The non-inclusive range of exponents `(min, min + 1)` of an expanded significand:
/// expanded significands lie in `[radix^min, radix^(min + 1))`.
#[derive(Clone, Copy, Debug, PartialEq, Eq, Structural)]
pub struct ExpRange(pub u32, pub u32);

impl ExpRange {
    pub fn new(min: u32, max: u32) -> (r: Self)
        ensures
            r == ExpRange(min, max),
    {
        ExpRange(min, max)
    }

    pub fn from(range: (u32, u32)) -> (r: Self)
        ensures
            r == ExpRange(range.0, range.1),
    {
        ExpRange(range.0, range.1)
    }

    pub fn min(&self) -> (r: u32)
        ensures
            r == self.0,
    {
        self.0
    }

    pub fn max(&self) -> (r: u32)
        ensures
            r == self.1,
    {
        self.1
    }
}

/// The inclusive range `(min, max)` of an expanded significand.
#[derive(Clone, Copy, Debug, PartialEq, Eq, Structural)]
pub struct SigRange(pub u64, pub u64);

impl SigRange {
    pub fn new(min: u64, max: u64) -> (r: Self)
        ensures
            r == SigRange(min, max),
    {
        SigRange(min, max)
    }

    pub fn from(range: (u64, u64)) -> (r: Self)
        ensures
            r == SigRange(range.0, range.1),
    {
        SigRange(range.0, range.1)
    }

    pub fn min(&self) -> (r: u64)
        ensures
            r == self.0,
    {
        self.0
    }

    pub fn max(&self) -> (r: u64)
        ensures
            r == self.1,
    {
        self.1
    }
}

/// The ranges that radix `b` with minimum expanded exponent `m` must report.
pub open spec fn ranges_of(b: int, m: nat) -> (ExpRange, SigRange) {
    (ExpRange(m as u32, (m + 1) as u32), SigRange(pow(b, m) as u64, (pow(b, m + 1) - 1) as u64))
}

/// The radix of `T` together with its exponent window is a valid base.
pub open spec fn base_ok<T: Base>() -> bool {
    valid_base(T::NUMBER as int, T::min_exp())
}

/// A radix for big numbers.
///
/// `NUMBER` is the radix; `min_exp` is the smallest exponent of an expanded
/// significand. Every method has the meaning its contract gives, whatever shortcut an
/// implementation takes.
pub trait Base: Copy + Sized + core::fmt::Debug {
    const NUMBER: u16;

    /// The smallest exponent `m` of an expanded significand: those lie in
    /// `[NUMBER^m, NUMBER^(m+1) - 1]`.
    spec fn min_exp() -> nat;

    /// Whether an instance carries the metadata of its radix.
    spec fn wf(&self) -> bool;

    /// Each radix of 2 or more has a valid exponent window.
    proof fn lemma_base_ok()
        requires
            Self::NUMBER >= 2,
        ensures
            valid_base(Self::NUMBER as int, Self::min_exp()),
    ;

    /// All well-formed instances of a radix are the same value.
    proof fn lemma_wf_unique(a: Self, b: Self)
        requires
            a.wf(),
            b.wf(),
        ensures
            a == b,
    ;

    /// Creates an instance; for a radix of 2 or more it is well formed.
    fn new() -> (r: Self)
        ensures
            Self::NUMBER >= 2 ==> r.wf(),
    ;

    fn exp_range(&self) -> (r: ExpRange)
        requires
            self.wf(),
            valid_base(Self::NUMBER as int, Self::min_exp()),
        ensures
            r == ranges_of(Self::NUMBER as int, Self::min_exp()).0,
    ;

    fn sig_range(&self) -> (r: SigRange)
        requires
            self.wf(),
            valid_base(Self::NUMBER as int, Self::min_exp()),
        ensures
            r == ranges_of(Self::NUMBER as int, Self::min_exp()).1,
    ;

    /// `NUMBER^exp`.
    fn pow(exp: u32) -> (r: u64)
        requires
            valid_base(Self::NUMBER as int, Self::min_exp()),
            exp <= Self::min_exp(),
        ensures
            r == pow(Self::NUMBER as int, exp as nat),
    {
        let ghost b = Self::NUMBER as int;
        proof {
            lemma_valid_base_facts(b, Self::min_exp());
        }
        let mut r: u64 = 1;
        let mut i: u32 = 0;
        proof {
            vstd::arithmetic::power::lemma_pow0(b);
        }
        while i < exp
            invariant
                valid_base(Self::NUMBER as int, Self::min_exp()),
                b == Self::NUMBER as int,
                i <= exp <= Self::min_exp(),
                r == pow(b, i as nat),
                pow(b, Self::min_exp()) < pow(b, Self::min_exp() + 1) <= two64(),
            decreases exp - i,
        {
            proof {
                lemma_pow_step(b, i as nat);
                lemma_pow_increases(b as nat, (i + 1) as nat, Self::min_exp());
                vstd::arithmetic::mul::lemma_mul_is_commutative(b, r as int);
            }
            r = r * (Self::NUMBER as u64);
            i = i + 1;
        }
        r
    }

    /// `NUMBER^exp` in 128 bits, for the wide intermediates of multiplication and
    /// division.
    fn pow_u128(exp: u32) -> (r: u128)
        requires
            valid_base(Self::NUMBER as int, Self::min_exp()),
            exp <= 2 * Self::min_exp() + 1,
        ensures
            r == pow(Self::NUMBER as int, exp as nat),
    {
        let ghost b = Self::NUMBER as int;
        let ghost m = Self::min_exp();
        proof {
            lemma_valid_base_facts(b, m);
        }
        let mut r: u128 = 1;
        let mut i: u32 = 0;
        proof {
            vstd::arithmetic::power::lemma_pow0(b);
        }
        while i < exp
            invariant
                valid_base(Self::NUMBER as int, Self::min_exp()),
                b == Self::NUMBER as int,
                m == Self::min_exp(),
                i <= exp <= 2 * m + 1,
                r == pow(b, i as nat),
                pow(b, 2 * m + 1) < two64() * two64(),
            decreases exp - i,
        {
            proof {
                lemma_pow_step(b, i as nat);
                lemma_pow_increases(b as nat, (i + 1) as nat, 2 * m + 1);
                vstd::arithmetic::mul::lemma_mul_is_commutative(b, r as int);
            }
            r = r * (Self::NUMBER as u128);
            i = i + 1;
        }
        r
    }

    /// Derives the exponent and significand ranges from the radix alone: the largest
    /// `M` with `NUMBER^M <= 2^64` gives `ExpRange(M - 1, M)` and
    /// `SigRange(NUMBER^(M-1), NUMBER^M - 1)`. The search runs in 128 bits, so radices
    /// whose power reaches 2^64 exactly need no special handling.
    fn calculate_ranges() -> (r: (ExpRange, SigRange))
        requires
            Self::NUMBER >= 2,
        ensures
            valid_base(Self::NUMBER as int, r.0.0 as nat),
            r == ranges_of(Self::NUMBER as int, r.0.0 as nat),
    {
        let ghost b = Self::NUMBER as int;
        let radix = Self::NUMBER as u128;
        let mut p: u128 = 1;
        let mut e: u32 = 0;
        proof {
            vstd::arithmetic::power::lemma_pow0(b);
        }
        proof {
            assert(p * radix <= 0x1_0000_0000_0000_0000 * 65535) by (nonlinear_arith)
                requires
                    p <= two64(),
                    radix <= 65535,
            ;
        }
        while p * radix <= 0x1_0000_0000_0000_0000
            invariant
                b == radix,
                2 <= radix <= 65535,
                p == pow(b, e as nat),
                1 <= p <= two64(),
                p * radix <= 0x1_0000_0000_0000_0000 * 65535,
                e <= 64,
            decreases two64() - p,
        {
            proof {
                vstd::arithmetic::mul::lemma_mul_is_commutative(b, p as int);
                vstd::arithmetic::mul::lemma_mul_strict_inequality(1, b, p as int);
                lemma_pow_step(b, e as nat);
                lemma_pow_ge_pow2(b, (e + 1) as nat);
                if e + 1 > 64 {
                    vstd::arithmetic::power2::lemma2_to64();
                    vstd::arithmetic::power2::lemma2_to64_rest();
                    vstd::arithmetic::power2::lemma_pow2(64);
                    lemma_pow_lt(2, 64, (e + 1) as nat);
                }
            }
            p = p * radix;
            e = e + 1;
            proof {
                assert(p * radix <= 0x1_0000_0000_0000_0000 * 65535) by (nonlinear_arith)
                    requires
                        p <= two64(),
                        radix <= 65535,
                ;
            }
        }
        proof {
            lemma_pow_step(b, e as nat);
            if e < 2 {
                vstd::arithmetic::power::lemma_pow0(b);
                vstd::arithmetic::power::lemma_pow1(b);
                lemma_pow_step(b, 1);
                assert(b * b <= 65535 * 65535) by (nonlinear_arith)
                    requires
                        2 <= b <= 65535,
                ;
            }
            lemma_pow_step(b, (e - 1) as nat);
            vstd::arithmetic::div_mod::lemma_div_multiples_vanish(pow(b, (e - 1) as nat), b);
            vstd::arithmetic::mul::lemma_mul_is_commutative(b, pow(b, (e - 1) as nat));
        }
        let min = p / radix;
        (ExpRange(e - 1, e), SigRange(min as u64, (p - 1) as u64))
    }

    /// `lhs * NUMBER^exp`.
    fn lshift(lhs: u64, exp: u32) -> (r: u64)
        requires
            valid_base(Self::NUMBER as int, Self::min_exp()),
            exp <= Self::min_exp(),
            lhs * pow(Self::NUMBER as int, exp as nat) <= u64::MAX,
        ensures
            r == lhs * pow(Self::NUMBER as int, exp as nat),
    {
        lhs * Self::pow(exp)
    }

    /// `lhs / NUMBER^exp`.
    fn rshift(lhs: u64, exp: u32) -> (r: u64)
        requires
            valid_base(Self::NUMBER as int, Self::min_exp()),
            exp <= Self::min_exp(),
        ensures
            r == lhs as int / pow(Self::NUMBER as int, exp as nat),
    {
        proof {
            lemma_pow_positive(Self::NUMBER as int, exp as nat);
        }
        lhs / Self::pow(exp)
    }

    /// `lhs * NUMBER^exp` in 128 bits.
    fn lshift_u128(lhs: u128, exp: u32) -> (r: u128)
        requires
            valid_base(Self::NUMBER as int, Self::min_exp()),
            exp <= 2 * Self::min_exp() + 1,
            lhs * pow(Self::NUMBER as int, exp as nat) <= u128::MAX,
        ensures
            r == lhs * pow(Self::NUMBER as int, exp as nat),
    {
        lhs * Self::pow_u128(exp)
    }

    /// `lhs / NUMBER^exp` in 128 bits.
    fn rshift_u128(lhs: u128, exp: u32) -> (r: u128)
        requires
            valid_base(Self::NUMBER as int, Self::min_exp()),
            exp <= 2 * Self::min_exp() + 1,
        ensures
            r == lhs as int / pow(Self::NUMBER as int, exp as nat),
    {
        proof {
            lemma_pow_positive(Self::NUMBER as int, exp as nat);
        }
        lhs / Self::pow_u128(exp)
    }

    /// The magnitude of `sig`: the largest `x` with `NUMBER^x <= sig`.
    fn get_mag(sig: u64) -> (r: u32)
        requires
            valid_base(Self::NUMBER as int, Self::min_exp()),
            sig >= 1,
        ensures
            r == log(Self::NUMBER as int, sig as int),
    {
        Self::get_mag_u128(sig as u128)
    }

    /// The magnitude of a 128-bit value.
    fn get_mag_u128(sig: u128) -> (r: u32)
        requires
            valid_base(Self::NUMBER as int, Self::min_exp()),
            sig >= 1,
        ensures
            r == log(Self::NUMBER as int, sig as int),
    {
        let ghost b = Self::NUMBER as int;
        proof {
            lemma_log_below_128(b, sig as int);
        }
        let radix = Self::NUMBER as u128;
        let mut v: u128 = sig;
        let mut k: u32 = 0;
        while v >= radix
            invariant
                b == radix,
                2 <= b,
                v >= 1,
                k + log(b, v as int) == log(b, sig as int),
                log(b, sig as int) <= 127,
                log(b, v as int) >= 0,
            decreases v,
        {
            proof {
                lemma_log_s(b, v as int);
                vstd::arithmetic::div_mod::lemma_div_is_ordered(b, v as int, b);
                vstd::arithmetic::div_mod::lemma_div_by_self(b);
                vstd::arithmetic::div_mod::lemma_div_decreases(v as int, b);
                vstd::arithmetic::logarithm::lemma_log_nonnegative(b, v as int / b);
            }
            v = v / radix;
            k = k + 1;
        }
        proof {
            lemma_log0(b, v as int);
        }
        k
    }

    /// The radix of this instance.
    fn as_number(&self) -> (r: u16)
        ensures
            r == Self::NUMBER,
    {
        Self::NUMBER
    }
}

/// A value below 2^128 has a logarithm below 128 in any radix of at least 2.
proof fn lemma_log_below_128(b: int, v: int)
    requires
        2 <= b,
        1 <= v < two64() * two64(),
    ensures
        0 <= log(b, v) <= 127,
{
    lemma_log_bounds(b, v);
    let l = log(b, v);
    if l > 127 {
        lemma_pow_ge_pow2(b, l as nat);
        vstd::arithmetic::power2::lemma2_to64();
        vstd::arithmetic::power2::lemma2_to64_rest();
        vstd::arithmetic::power2::lemma_pow2(64);
        vstd::arithmetic::power::lemma_pow_adds(2, 64, 64);
        vstd::arithmetic::power::lemma_pow_increases(2, 128, l as nat);
    }
}

/// Two exponent windows of one radix coincide.
pub proof fn lemma_valid_base_unique(b: int, m1: nat, m2: nat)
    requires
        valid_base(b, m1),
        valid_base(b, m2),
    ensures
        m1 == m2,
{
    if m1 < m2 {
        lemma_pow_increases(b as nat, m1 + 2, m2 + 1);
    } else if m2 < m1 {
        lemma_pow_increases(b as nat, m2 + 2, m1 + 1);
    }
}

/// Searching upward from a power that fits in 2^64 finds the exponent window.
proof fn lemma_window_from(b: int, e: nat)
    requires
        2 <= b <= 65535,
        2 <= e,
        pow(b, e) <= two64(),
    ensures
        exists|m: nat| #[trigger] valid_base(b, m),
    decreases 65 - e,
{
    lemma_pow_ge_pow2(b, e);
    if e > 64 {
        vstd::arithmetic::power2::lemma2_to64();
        vstd::arithmetic::power2::lemma2_to64_rest();
        vstd::arithmetic::power2::lemma_pow2(64);
        lemma_pow_lt(2, 64, e);
    }
    if pow(b, e + 1) > two64() {
        assert(valid_base(b, (e - 1) as nat));
    } else {
        lemma_window_from(b, e + 1);
    }
}

/// Every radix from 2 to 65535 has an exponent window.
pub proof fn lemma_valid_base_exists(b: int)
    requires
        2 <= b <= 65535,
    ensures
        exists|m: nat| #[trigger] valid_base(b, m),
{
    lemma_pow_step(b, 0);
    lemma_pow_step(b, 1);
    vstd::arithmetic::power::lemma_pow0(b);
    assert(b * b <= 65535 * 65535) by (nonlinear_arith)
        requires
            2 <= b <= 65535,
    ;
    lemma_window_from(b, 2);
}

/// `2^e` as a power of the radix 2.
proof fn lemma_pow_of_two(e: nat)
    requires
        e <= 64,
    ensures
        pow(2, e) == vstd::arithmetic::power2::pow2(e),
{
    vstd::arithmetic::power2::lemma_pow2(e);
}

/// Powers of a radix `2^bits` are powers of two: `pow(2^bits, e) == pow2(bits * e)`.
proof fn lemma_pow_of_pow2(r: int, bits: nat, e: nat)
    requires
        bits <= 4,
        r == pow(2, bits),
    ensures
        pow(r, e) == vstd::arithmetic::power2::pow2(bits * e),
{
    vstd::arithmetic::power::lemma_pow_multiplies(2, bits, e);
    vstd::arithmetic::power2::lemma_pow2(bits * e);
}

/// The binary radix: shifts stand in for powers.
#[derive(Clone, Copy, Debug)]
pub struct Binary;

/// The octal radix.
#[derive(Clone, Copy, Debug)]
pub struct Octal;

/// The hexadecimal radix.
#[derive(Clone, Copy, Debug)]
pub struct Hexadecimal;

/// The decimal radix.
#[derive(Clone, Copy, Debug)]
pub struct Decimal;

impl Base for Binary {
    const NUMBER: u16 = 2;

    open spec fn min_exp() -> nat {
        63
    }

    open spec fn wf(&self) -> bool {
        true
    }

    proof fn lemma_base_ok() {
        vstd::arithmetic::power2::lemma2_to64();
        vstd::arithmetic::power2::lemma2_to64_rest();
        lemma_pow_of_two(64);
        lemma_pow_step(2, 64);
    }

    proof fn lemma_wf_unique(a: Self, b: Self) {
    }

    fn new() -> (r: Self) {
        Binary
    }

    fn exp_range(&self) -> (r: ExpRange) {
        ExpRange(63, 64)
    }

    fn sig_range(&self) -> (r: SigRange) {
        proof {
            vstd::arithmetic::power2::lemma2_to64();
            vstd::arithmetic::power2::lemma2_to64_rest();
            lemma_pow_of_two(63);
            lemma_pow_of_two(64);
        }
        SigRange(0x8000_0000_0000_0000, 0xffff_ffff_ffff_ffff)
    }

    fn pow(exp: u32) -> (r: u64) {
        proof {
            lemma_pow_of_two(exp as nat);
            vstd::bits::lemma_u64_pow2_no_overflow(exp as nat);
            vstd::bits::lemma_u64_shl_is_mul(1, exp as u64);
        }
        1u64 << (exp as u64)
    }

    fn rshift(lhs: u64, exp: u32) -> (r: u64) {
        proof {
            lemma_pow_of_two(exp as nat);
            vstd::bits::lemma_u64_shr_is_div(lhs, exp as u64);
        }
        lhs >> (exp as u64)
    }

    fn lshift(lhs: u64, exp: u32) -> (r: u64) {
        proof {
            lemma_pow_of_two(exp as nat);
            vstd::bits::lemma_u64_shl_is_mul(lhs, exp as u64);
        }
        lhs << (exp as u64)
    }

    fn rshift_u128(lhs: u128, exp: u32) -> (r: u128) {
        proof {
            vstd::arithmetic::power2::lemma_pow2(exp as nat);
            vstd::bits::lemma_u128_shr_is_div(lhs, exp as u128);
        }
        lhs >> (exp as u128)
    }
}

impl Base for Octal {
    const NUMBER: u16 = 8;

    open spec fn min_exp() -> nat {
        20
    }

    open spec fn wf(&self) -> bool {
        true
    }

    proof fn lemma_base_ok() {
        reveal_with_fuel(pow, 23);
    }

    proof fn lemma_wf_unique(a: Self, b: Self) {
    }

    fn new() -> (r: Self) {
        Octal
    }

    fn exp_range(&self) -> (r: ExpRange) {
        ExpRange(20, 21)
    }

    fn pow(exp: u32) -> (r: u64) {
        proof {
            reveal_with_fuel(pow, 4);
            lemma_pow_of_pow2(8, 3, exp as nat);
            vstd::bits::lemma_u64_pow2_no_overflow(3 * exp as nat);
            vstd::bits::lemma_u64_shl_is_mul(1, (3 * exp) as u64);
        }
        1u64 << ((3 * exp) as u64)
    }

    fn rshift(lhs: u64, exp: u32) -> (r: u64) {
        proof {
            reveal_with_fuel(pow, 4);
            lemma_pow_of_pow2(8, 3, exp as nat);
            vstd::bits::lemma_u64_shr_is_div(lhs, (3 * exp) as u64);
        }
        lhs >> ((3 * exp) as u64)
    }

    fn lshift(lhs: u64, exp: u32) -> (r: u64) {
        proof {
            reveal_with_fuel(pow, 4);
            lemma_pow_of_pow2(8, 3, exp as nat);
            vstd::bits::lemma_u64_shl_is_mul(lhs, (3 * exp) as u64);
        }
        lhs << ((3 * exp) as u64)
    }

    fn rshift_u128(lhs: u128, exp: u32) -> (r: u128) {
        proof {
            reveal_with_fuel(pow, 4);
            lemma_pow_of_pow2(8, 3, exp as nat);
            vstd::bits::lemma_u128_shr_is_div(lhs, (3 * exp) as u128);
        }
        lhs >> ((3 * exp) as u128)
    }

    fn sig_range(&self) -> (r: SigRange) {
        proof {
            reveal_with_fuel(pow, 22);
        }
        SigRange(0x1000_0000_0000_0000, 0x7fff_ffff_ffff_ffff)
    }
}

impl Base for Hexadecimal {
    const NUMBER: u16 = 16;

    open spec fn min_exp() -> nat {
        15
    }

    open spec fn wf(&self) -> bool {
        true
    }

    proof fn lemma_base_ok() {
        reveal_with_fuel(pow, 18);
    }

    proof fn lemma_wf_unique(a: Self, b: Self) {
    }

    fn new() -> (r: Self) {
        Hexadecimal
    }

    fn exp_range(&self) -> (r: ExpRange) {
        ExpRange(15, 16)
    }

    fn pow(exp: u32) -> (r: u64) {
        proof {
            reveal_with_fuel(pow, 5);
            lemma_pow_of_pow2(16, 4, exp as nat);
            vstd::bits::lemma_u64_pow2_no_overflow(4 * exp as nat);
            vstd::bits::lemma_u64_shl_is_mul(1, (4 * exp) as u64);
        }
        1u64 << ((4 * exp) as u64)
    }

    fn rshift(lhs: u64, exp: u32) -> (r: u64) {
        proof {
            reveal_with_fuel(pow, 5);
            lemma_pow_of_pow2(16, 4, exp as nat);
            vstd::bits::lemma_u64_shr_is_div(lhs, (4 * exp) as u64);
        }
        lhs >> ((4 * exp) as u64)
    }

    fn lshift(lhs: u64, exp: u32) -> (r: u64) {
        proof {
            reveal_with_fuel(pow, 5);
            lemma_pow_of_pow2(16, 4, exp as nat);
            vstd::bits::lemma_u64_shl_is_mul(lhs, (4 * exp) as u64);
        }
        lhs << ((4 * exp) as u64)
    }

    fn rshift_u128(lhs: u128, exp: u32) -> (r: u128) {
        proof {
            reveal_with_fuel(pow, 5);
            lemma_pow_of_pow2(16, 4, exp as nat);
            vstd::bits::lemma_u128_shr_is_div(lhs, (4 * exp) as u128);
        }
        lhs >> ((4 * exp) as u128)
    }

    fn sig_range(&self) -> (r: SigRange) {
        proof {
            reveal_with_fuel(pow, 17);
        }
        SigRange(0x1000_0000_0000_0000, 0xffff_ffff_ffff_ffff)
    }
}

impl Base for Decimal {
    const NUMBER: u16 = 10;

    open spec fn min_exp() -> nat {
        18
    }

    open spec fn wf(&self) -> bool {
        true
    }

    proof fn lemma_base_ok() {
        reveal_with_fuel(pow, 21);
    }

    proof fn lemma_wf_unique(a: Self, b: Self) {
    }

    fn new() -> (r: Self) {
        Decimal
    }

    fn exp_range(&self) -> (r: ExpRange) {
        ExpRange(18, 19)
    }

    fn sig_range(&self) -> (r: SigRange) {
        proof {
            reveal_with_fuel(pow, 20);
        }
        SigRange(1_000_000_000_000_000_000, 9_999_999_999_999_999_999)
    }
}

/// Any radix `N` from 2 to 65535, with its ranges derived on construction and carried
/// in the instance; powers, shifts and magnitudes use the general methods of `Base`.
/// `N` below 2 is no radix: such an instance is never well formed.
#[derive(Clone, Copy, Debug)]
pub struct Radix<const N: u16> {
    exp_range: ExpRange,
    sig_range: SigRange,
}

impl<const N: u16> Base for Radix<N> {
    const NUMBER: u16 = N;

    open spec fn min_exp() -> nat {
        choose|m: nat| #[trigger] valid_base(N as int, m)
    }

    closed spec fn wf(&self) -> bool {
        (self.exp_range, self.sig_range) == ranges_of(N as int, Self::min_exp())
    }

    proof fn lemma_base_ok() {
        lemma_valid_base_exists(N as int);
    }

    proof fn lemma_wf_unique(a: Self, b: Self) {
    }

    fn new() -> (r: Self) {
        if N >= 2 {
            let (exp_range, sig_range) = Self::calculate_ranges();
            proof {
                lemma_valid_base_exists(N as int);
                lemma_valid_base_unique(N as int, exp_range.0 as nat, Self::min_exp());
            }
            Radix { exp_range, sig_range }
        } else {
            Radix { exp_range: ExpRange(0, 0), sig_range: SigRange(0, 0) }
        }
    }

    fn exp_range(&self) -> (r: ExpRange) {
        self.exp_range
    }

    fn sig_range(&self) -> (r: SigRange) {
        self.sig_range
    }
}

/// The radices of the built-in bases.
pub proof fn lemma_builtin_radices()
    ensures
        Binary::NUMBER == 2,
        Octal::NUMBER == 8,
        Hexadecimal::NUMBER == 16,
        Decimal::NUMBER == 10,
        Decimal::min_exp() == 18,
{
}

} // verus!
