//! Arithmetic, comparison and conversion operators on big numbers.
use crate::base::{Base, ExpRange, SigRange};
use crate::bignum::{
    aligned, lemma_shift_down, lt_pair, lt_pair_exec, normalize, normalize_short, radix,
    spec_max_sig, spec_min_sig, BigNumBase,
};
use crate::power::{lemma_log_bounds, lemma_valid_base_facts, valid_base};
use vstd::arithmetic::div_mod::{
    lemma_div_is_ordered, lemma_div_multiples_vanish, lemma_fundamental_div_mod,
    lemma_fundamental_div_mod_converse, lemma_mod_bound,
};
use vstd::arithmetic::logarithm::log;
use vstd::arithmetic::mul::{lemma_mul_inequality, lemma_mul_is_commutative};
use vstd::arithmetic::power::{lemma_pow_increases, lemma_pow_positive, pow};
use vstd::prelude::*;
use vstd::std_specs::ops::{AddSpecImpl, DivSpecImpl, MulSpecImpl, ShlSpecImpl, ShrSpecImpl, SubSpecImpl};

verus! {

/// The sum of two values: the larger keeps its exponent, the smaller is aligned to it
/// (digits below it are dropped), and a sum past `max_sig` is divided once by the
/// radix with the exponent raised by one.
pub open spec fn spec_add<T: Base>(x: (int, int), y: (int, int)) -> (int, int) {
    let (hi, lo) = if lt_pair(y, x) { (x, y) } else { (y, x) };
    let s = hi.0 + aligned::<T>(lo.0, lo.1, hi.1);
    if s > spec_max_sig::<T>() {
        (s / radix::<T>(), hi.1 + 1)
    } else {
        (s, hi.1)
    }
}

/// `(s - d * k) / d == s / d - k`.
pub proof fn lemma_div_sub_multiple(s: int, d: int, k: int)
    requires
        d > 0,
    ensures
        (s - d * k) / d == s / d - k,
{
    lemma_fundamental_div_mod(s, d);
    lemma_mod_bound(s, d);
    let q = s / d;
    let r = s % d;
    assert(s - d * k == d * (q - k) + r) by (nonlinear_arith)
        requires
            s == d * q + r,
    ;
    lemma_fundamental_div_mod_converse(s - d * k, d, s / d - k, s % d);
}

/// A significand aligned to an exponent at least one window above it vanishes.
pub proof fn lemma_aligned_vanishes<T: Base>(sig: int, shift: nat)
    requires
        valid_base(radix::<T>(), T::min_exp()),
        0 <= sig <= spec_max_sig::<T>(),
        shift >= T::min_exp() + 1,
    ensures
        sig / pow(radix::<T>(), shift) == 0,
{
    let b = radix::<T>();
    lemma_pow_increases(b as nat, T::min_exp() + 1, shift);
    lemma_pow_positive(b, shift);
    vstd::arithmetic::div_mod::lemma_basic_div(sig, pow(b, shift));
}

impl<T: Base> core::ops::Add for BigNumBase<T> {
    type Output = Self;

    fn add(self, rhs: Self) -> (r: Self)
        ensures
            r.wf(),
            r@ == spec_add::<T>(self@, rhs@),
    {
        let base = self.base;
        let ghost b = radix::<T>();
        let ghost m = T::min_exp();
        proof {
            lemma_valid_base_facts(b, m);
            T::lemma_wf_unique(self.base, rhs.base);
        }
        let SigRange(min_sig, max_sig) = base.sig_range();
        let ExpRange(_, max_exp) = base.exp_range();
        let (max, min) = if lt_pair_exec(&rhs, &self) {
            (self, rhs)
        } else {
            (rhs, self)
        };
        let shift = max.exp - min.exp;
        if shift >= max_exp as u64 {
            proof {
                lemma_aligned_vanishes::<T>(min.sig as int, shift as nat);
            }
            return max;
        }
        let q = T::rshift(min.sig, shift as u32);
        proof {
            lemma_pow_positive(b, shift as nat);
            vstd::arithmetic::div_mod::lemma_div_is_ordered_by_denominator(min.sig as int, 1, pow(b, shift as nat));
            vstd::arithmetic::div_mod::lemma_div_basics_1(min.sig as int);
            vstd::arithmetic::power::lemma_pow1(b);
        }
        let result = max.sig.wrapping_add(q);
        if result < max.sig {
            let diff = u64::MAX - max_sig;
            proof {
                let s = max.sig + q;
                lemma_div_sub_multiple(s, b, spec_min_sig::<T>());
                lemma_div_is_ordered(s, 2 * spec_max_sig::<T>(), b);
                lemma_div_is_ordered(b * spec_min_sig::<T>(), s, b);
                lemma_div_multiples_vanish(spec_min_sig::<T>(), b);
                lemma_mul_is_commutative(b, spec_min_sig::<T>());
                assert(2 * spec_max_sig::<T>() / b <= spec_max_sig::<T>()) by {
                    lemma_div_is_ordered_by_two::<T>();
                }
            }
            BigNumBase { sig: min_sig + T::rshift(result + diff, 1), exp: max.exp + 1, base }
        } else if result > max_sig {
            proof {
                lemma_div_is_ordered(b * spec_min_sig::<T>(), result as int, b);
                lemma_div_multiples_vanish(spec_min_sig::<T>(), b);
                lemma_mul_is_commutative(b, spec_min_sig::<T>());
                lemma_div_is_ordered(result as int, 0xffff_ffff_ffff_ffff, b);
            }
            BigNumBase { sig: T::rshift(result, 1), exp: max.exp + 1, base }
        } else {
            BigNumBase { sig: result, exp: max.exp, base }
        }
    }
}

/// Halving-or-better: `2 * max_sig / radix <= max_sig`.
proof fn lemma_div_is_ordered_by_two<T: Base>()
    requires
        valid_base(radix::<T>(), T::min_exp()),
    ensures
        2 * spec_max_sig::<T>() / radix::<T>() <= spec_max_sig::<T>(),
{
    let b = radix::<T>();
    let ms = spec_max_sig::<T>();
    lemma_valid_base_facts(b, T::min_exp());
    vstd::arithmetic::div_mod::lemma_div_is_ordered_by_denominator(2 * ms, 2, b);
    vstd::arithmetic::div_mod::lemma_div_multiples_vanish(ms, 2);
    lemma_mul_is_commutative(2, ms);
}

impl<T: Base> AddSpecImpl for BigNumBase<T> {
    open spec fn obeys_add_spec() -> bool {
        true
    }

    open spec fn add_req(self, rhs: Self) -> bool {
        &&& self.wf()
        &&& rhs.wf()
        &&& spec_add::<T>(self@, rhs@).1 <= u64::MAX
    }

    open spec fn add_spec(self, rhs: Self) -> Self {
        self.with(spec_add::<T>(self@, rhs@))
    }
}

/// The difference of `x >= y`: `y` is aligned to the exponent of `x` (digits below it
/// are dropped), subtracted, and the result is brought to canonical form.
pub open spec fn spec_sub<T: Base>(x: (int, int), y: (int, int)) -> (int, int) {
    normalize::<T>(x.0 - aligned::<T>(y.0, y.1, x.1), x.1)
}

/// The product: both significands multiplied in full width and exponents summed; a
/// product past `max_sig` keeps its leading `min_exp + 1` digits and moves the rest
/// into the exponent.
pub open spec fn spec_mul<T: Base>(x: (int, int), y: (int, int)) -> (int, int) {
    let b = radix::<T>();
    let m = T::min_exp();
    if x.0 == 0 || y.0 == 0 {
        (0, 0)
    } else {
        let p = x.0 * y.0;
        let e = x.1 + y.1;
        if p > spec_max_sig::<T>() {
            let adj = log(b, p) - m;
            (p / pow(b, adj as nat), e + adj)
        } else {
            (p, e)
        }
    }
}

/// The quotient. A smaller dividend gives 0 and an equal one 1; a compact dividend
/// divides exactly. Otherwise the dividend's significand is widened by `min_exp + 1`
/// digits before dividing, and the quotient is cut back to its leading `min_exp + 1`
/// digits, or to a compact value when the exponent difference cannot absorb the
/// digits lost.
pub open spec fn spec_div<T: Base>(x: (int, int), y: (int, int)) -> (int, int) {
    let b = radix::<T>();
    let m = T::min_exp();
    if lt_pair(x, y) {
        (0, 0)
    } else if x == y {
        (1, 0)
    } else if x.1 == 0 {
        (x.0 / y.0, 0)
    } else {
        let big = m + 1;
        let q = x.0 * pow(b, big) / y.0;
        let e = x.1 - y.1;
        let adj = (m + big) - log(b, q);
        if adj <= e {
            (q / pow(b, (big - adj) as nat), e - adj)
        } else {
            (q / pow(b, (big - e) as nat), 0)
        }
    }
}

/// Multiplication by `radix^n`.
pub open spec fn spec_shl<T: Base>(x: (int, int), n: int) -> (int, int) {
    normalize::<T>(x.0, x.1 + n)
}

/// Division by `radix^n`: the exponent absorbs what it can, the significand the rest.
pub open spec fn spec_shr<T: Base>(x: (int, int), n: int) -> (int, int) {
    if x.1 >= n {
        (x.0, x.1 - n)
    } else {
        (x.0 / pow(radix::<T>(), (n - x.1) as nat), 0)
    }
}

impl<T: Base> core::ops::Sub for BigNumBase<T> {
    type Output = Self;

    /// The subtrahend, aligned to the minuend's exponent, is at most
    /// `max_sig / radix < min_sig` whenever the exponents differ, so the significand
    /// subtraction never borrows.
    fn sub(self, rhs: Self) -> (r: Self)
        ensures
            r.wf(),
            r@ == spec_sub::<T>(self@, rhs@),
    {
        let base = self.base;
        let ghost b = radix::<T>();
        let ghost m = T::min_exp();
        proof {
            lemma_valid_base_facts(b, m);
            T::lemma_wf_unique(self.base, rhs.base);
        }
        let SigRange(min_sig, _) = base.sig_range();
        let ExpRange(_, max_exp) = base.exp_range();
        let shift = self.exp - rhs.exp;
        if shift >= max_exp as u64 {
            proof {
                lemma_aligned_vanishes::<T>(rhs.sig as int, shift as nat);
            }
            return self;
        }
        let q = T::rshift(rhs.sig, shift as u32);
        proof {
            vstd::arithmetic::power::lemma_pow0(b);
            vstd::arithmetic::div_mod::lemma_div_basics_1(rhs.sig as int);
            if shift > 0 {
                vstd::arithmetic::power::lemma_pow1(b);
                lemma_pow_increases(b as nat, 1, shift as nat);
                vstd::arithmetic::div_mod::lemma_div_is_ordered_by_denominator(
                    rhs.sig as int,
                    b,
                    pow(b, shift as nat),
                );
                lemma_div_is_ordered(rhs.sig as int, spec_max_sig::<T>(), b);
                vstd::arithmetic::div_mod::lemma_multiply_divide_lt(
                    spec_max_sig::<T>(),
                    b,
                    spec_min_sig::<T>(),
                );
            }
        }
        let res_sig = self.sig - q;
        let res_exp = self.exp;
        if res_sig == 0 {
            BigNumBase { sig: 0, exp: 0, base }
        } else if res_exp == 0 || res_sig >= min_sig {
            BigNumBase { sig: res_sig, exp: res_exp, base }
        } else {
            normalize_short(base, res_sig, res_exp)
        }
    }
}

impl<T: Base> SubSpecImpl for BigNumBase<T> {
    open spec fn obeys_sub_spec() -> bool {
        true
    }

    open spec fn sub_req(self, rhs: Self) -> bool {
        &&& self.wf()
        &&& rhs.wf()
        &&& !lt_pair(self@, rhs@)
    }

    open spec fn sub_spec(self, rhs: Self) -> Self {
        self.with(spec_sub::<T>(self@, rhs@))
    }
}

impl<T: Base> core::ops::Mul for BigNumBase<T> {
    type Output = Self;

    /// The product is formed in 128 bits; with a valid radix it always normalizes into
    /// the significand window.
    fn mul(self, rhs: Self) -> (r: Self)
        ensures
            r.wf(),
            r@ == spec_mul::<T>(self@, rhs@),
    {
        let base = self.base;
        let ghost b = radix::<T>();
        let ghost m = T::min_exp();
        proof {
            lemma_valid_base_facts(b, m);
            T::lemma_wf_unique(self.base, rhs.base);
            vstd::arithmetic::mul::lemma_mul_basics(rhs.sig as int);
            vstd::arithmetic::mul::lemma_mul_basics(self.sig as int);
        }
        if self.exp == 0 && self.sig == 1 {
            return rhs;
        } else if self.exp == 0 && self.sig == 0 {
            return BigNumBase { sig: 0, exp: 0, base };
        } else if rhs.exp == 0 && rhs.sig == 1 {
            return self;
        } else if rhs.exp == 0 && rhs.sig == 0 {
            return BigNumBase { sig: 0, exp: 0, base };
        }
        let SigRange(min_sig, max_sig) = base.sig_range();
        let ExpRange(min_exp, _) = base.exp_range();
        let lsig = self.sig as u128;
        let rsig = rhs.sig as u128;
        proof {
            lemma_mul_inequality(lsig as int, spec_max_sig::<T>(), rsig as int);
            lemma_mul_inequality(rsig as int, spec_max_sig::<T>(), spec_max_sig::<T>());
            lemma_mul_is_commutative(rsig as int, spec_max_sig::<T>());
            assert(spec_max_sig::<T>() * spec_max_sig::<T>() < pow(b, m + 1) * pow(b, m + 1))
                by (nonlinear_arith)
                requires
                    0 <= spec_max_sig::<T>() < pow(b, m + 1),
            ;
        }
        let res_sig = lsig * rsig;
        if res_sig > max_sig as u128 {
            proof {
                lemma_log_bounds(b, res_sig as int);
                let l = log(b, res_sig as int);
                if l <= m {
                    lemma_pow_increases(b as nat, (l + 1) as nat, m + 1);
                }
                if l > 2 * m + 1 {
                    lemma_pow_increases(b as nat, 2 * m + 2, l as nat);
                }
            }
            let mag = T::get_mag_u128(res_sig);
            let adj = mag - min_exp;
            proof {
                lemma_shift_down(b, res_sig as int, adj as nat);
            }
            let sig = T::rshift_u128(res_sig, adj);
            BigNumBase { sig: sig as u64, exp: self.exp + rhs.exp + adj as u64, base }
        } else {
            proof {
                if self.exp > 0 {
                    lemma_mul_inequality(1, rsig as int, lsig as int);
                    lemma_mul_is_commutative(lsig as int, rsig as int);
                }
                if rhs.exp > 0 {
                    lemma_mul_inequality(1, lsig as int, rsig as int);
                }
            }
            BigNumBase { sig: res_sig as u64, exp: self.exp + rhs.exp, base }
        }
    }
}

impl<T: Base> MulSpecImpl for BigNumBase<T> {
    open spec fn obeys_mul_spec() -> bool {
        true
    }

    open spec fn mul_req(self, rhs: Self) -> bool {
        &&& self.wf()
        &&& rhs.wf()
        &&& spec_mul::<T>(self@, rhs@).1 <= u64::MAX
    }

    open spec fn mul_spec(self, rhs: Self) -> Self {
        self.with(spec_mul::<T>(self@, rhs@))
    }
}

/// `c <= a / d` whenever `c * d <= a`.
proof fn lemma_div_lower(a: int, d: int, c: int)
    requires
        d > 0,
        c >= 0,
        c * d <= a,
    ensures
        c <= a / d,
{
    lemma_div_is_ordered(c * d, a, d);
    lemma_div_multiples_vanish(c, d);
    lemma_mul_is_commutative(c, d);
}

impl<T: Base> core::ops::Div for BigNumBase<T> {
    type Output = Self;

    /// The dividend's significand goes into the high digits of a 128-bit value so that
    /// the quotient keeps as many digits as the window holds.
    fn div(self, rhs: Self) -> (r: Self)
        ensures
            r.wf(),
            r@ == spec_div::<T>(self@, rhs@),
    {
        let ghost b = radix::<T>();
        let ghost m = T::min_exp();
        proof {
            lemma_valid_base_facts(b, m);
            T::lemma_wf_unique(self.base, rhs.base);
        }
        match self.cmp(&rhs) {
            core::cmp::Ordering::Less => {
                let r = Self::new(0, 0);
                proof {
                    T::lemma_wf_unique(self.base, r.base);
                }
                return r;
            },
            core::cmp::Ordering::Equal => {
                let r = Self::new(1, 0);
                proof {
                    T::lemma_wf_unique(self.base, r.base);
                    vstd::arithmetic::power::lemma_pow_positive(b, m);
                }
                return r;
            },
            _ => {},
        }
        if self.exp == 0 {
            return BigNumBase { sig: self.sig / rhs.sig, exp: 0, base: self.base };
        }
        let base = self.base;
        let ExpRange(min_exp, max_exp) = base.exp_range();
        proof {
            lemma_pow_positive(b, m + 1);
            lemma_mul_inequality(self.sig as int, spec_max_sig::<T>(), pow(b, m + 1));
            assert(spec_max_sig::<T>() * pow(b, m + 1) < pow(b, m + 1) * pow(b, m + 1))
                by (nonlinear_arith)
                requires
                    0 <= spec_max_sig::<T>() < pow(b, m + 1),
            ;
        }
        let lsig = T::lshift_u128(self.sig as u128, max_exp);
        let rsig = rhs.sig as u128;
        let res_sig = lsig / rsig;
        let res_exp = self.exp - rhs.exp;
        let ghost q = res_sig as int;
        proof {
            // the quotient has between min_exp and 2 * min_exp + 1 digits
            lemma_mul_inequality(spec_min_sig::<T>(), self.sig as int, pow(b, m + 1));
            lemma_mul_inequality(rsig as int, pow(b, m + 1), spec_min_sig::<T>());
            lemma_mul_is_commutative(rsig as int, spec_min_sig::<T>());
            lemma_mul_is_commutative(pow(b, m + 1), spec_min_sig::<T>());
            lemma_div_lower(lsig as int, rsig as int, spec_min_sig::<T>());
            vstd::arithmetic::div_mod::lemma_div_is_ordered_by_denominator(lsig as int, 1, rsig as int);
            vstd::arithmetic::div_mod::lemma_div_basics_1(lsig as int);
            lemma_log_bounds(b, q);
            let l = log(b, q);
            if l < m {
                lemma_pow_increases(b as nat, (l + 1) as nat, m);
            }
            if l > 2 * m + 1 {
                lemma_pow_increases(b as nat, 2 * m + 2, l as nat);
            }
        }
        let mag = T::get_mag_u128(res_sig);
        let adj = (min_exp + max_exp) - mag;
        if adj as u64 <= res_exp {
            proof {
                lemma_shift_down(b, q, (max_exp - adj) as nat);
            }
            BigNumBase {
                sig: T::rshift_u128(res_sig, max_exp - adj) as u64,
                exp: res_exp - adj as u64,
                base,
            }
        } else {
            let diff = adj as u64 - res_exp;
            let shift = max_exp - adj + diff as u32;
            proof {
                lemma_pow_positive(b, shift as nat);
                vstd::arithmetic::power::lemma_pow_division_inequality(
                    q as nat,
                    b as nat,
                    (mag + 1) as nat,
                    shift as nat,
                );
                lemma_pow_increases(b as nat, (mag + 1 - shift) as nat, m + 1);
            }
            BigNumBase { sig: T::rshift_u128(res_sig, shift) as u64, exp: 0, base }
        }
    }
}

impl<T: Base> DivSpecImpl for BigNumBase<T> {
    open spec fn obeys_div_spec() -> bool {
        true
    }

    open spec fn div_req(self, rhs: Self) -> bool {
        &&& self.wf()
        &&& rhs.wf()
        &&& rhs.sig != 0
    }

    open spec fn div_spec(self, rhs: Self) -> Self {
        self.with(spec_div::<T>(self@, rhs@))
    }
}

impl<T: Base> core::ops::Shl<u64> for BigNumBase<T> {
    type Output = Self;

    fn shl(self, rhs: u64) -> (r: Self)
        ensures
            r.wf(),
            r@ == spec_shl::<T>(self@, rhs as int),
    {
        let ghost b = radix::<T>();
        let ghost m = T::min_exp();
        proof {
            lemma_valid_base_facts(b, m);
        }
        let SigRange(min_sig, _) = self.base.sig_range();
        if self.exp != 0 || self.sig >= min_sig || rhs == 0 {
            BigNumBase { sig: self.sig, exp: self.exp + rhs, base: self.base }
        } else {
            normalize_short(self.base, self.sig, rhs)
        }
    }
}

impl<T: Base> ShlSpecImpl<u64> for BigNumBase<T> {
    open spec fn obeys_shl_spec() -> bool {
        true
    }

    open spec fn shl_req(self, rhs: u64) -> bool {
        &&& self.wf()
        &&& self.sig != 0
        &&& spec_shl::<T>(self@, rhs as int).1 <= u64::MAX
    }

    open spec fn shl_spec(self, rhs: u64) -> Self {
        self.with(spec_shl::<T>(self@, rhs as int))
    }
}

impl<T: Base> core::ops::Shr<u64> for BigNumBase<T> {
    type Output = Self;

    fn shr(self, rhs: u64) -> (r: Self)
        ensures
            r.wf(),
            r@ == spec_shr::<T>(self@, rhs as int),
    {
        let ghost b = radix::<T>();
        let ghost m = T::min_exp();
        proof {
            lemma_valid_base_facts(b, m);
        }
        if self.exp >= rhs {
            return BigNumBase { sig: self.sig, exp: self.exp - rhs, base: self.base };
        }
        let mag = T::get_mag(self.sig);
        let diff = rhs - self.exp;
        proof {
            lemma_log_bounds(b, self.sig as int);
            if mag > m {
                lemma_pow_increases(b as nat, m + 1, mag as nat);
            }
            lemma_pow_positive(b, diff as nat);
            vstd::arithmetic::div_mod::lemma_div_is_ordered_by_denominator(self.sig as int, 1, pow(b, diff as nat));
            vstd::arithmetic::div_mod::lemma_div_basics_1(self.sig as int);
        }
        BigNumBase { sig: T::rshift(self.sig, diff as u32), exp: 0, base: self.base }
    }
}

impl<T: Base> ShrSpecImpl<u64> for BigNumBase<T> {
    open spec fn obeys_shr_spec() -> bool {
        true
    }

    /// The shift may not exceed what the exponent and the significand's digits absorb.
    open spec fn shr_req(self, rhs: u64) -> bool {
        &&& self.wf()
        &&& (self.exp >= rhs || (self.sig != 0 && rhs - self.exp <= log(radix::<T>(), self.sig as int)))
    }

    open spec fn shr_spec(self, rhs: u64) -> Self {
        self.with(spec_shr::<T>(self@, rhs as int))
    }
}

impl<T: Base> PartialEq for BigNumBase<T> {
    /// Values are equal when significand and exponent are.
    fn eq(&self, other: &Self) -> (r: bool) {
        self.sig == other.sig && self.exp == other.exp
    }
}

impl<T: Base> vstd::std_specs::cmp::PartialEqSpecImpl for BigNumBase<T> {
    open spec fn obeys_eq_spec() -> bool {
        true
    }

    open spec fn eq_spec(&self, other: &Self) -> bool {
        self@ == other@
    }
}

impl<T: Base> Eq for BigNumBase<T> {
}

/// The order of two values as an `Ordering`.
pub open spec fn spec_cmp(a: (int, int), b: (int, int)) -> core::cmp::Ordering {
    if lt_pair(a, b) {
        core::cmp::Ordering::Less
    } else if a == b {
        core::cmp::Ordering::Equal
    } else {
        core::cmp::Ordering::Greater
    }
}

impl<T: Base> PartialOrd for BigNumBase<T> {
    /// Lexicographic on `(exponent, significand)`.
    fn partial_cmp(&self, other: &Self) -> (r: Option<core::cmp::Ordering>) {
        Some(self.cmp(other))
    }
}

impl<T: Base> vstd::std_specs::cmp::PartialOrdSpecImpl for BigNumBase<T> {
    open spec fn obeys_partial_cmp_spec() -> bool {
        true
    }

    open spec fn partial_cmp_spec(&self, other: &Self) -> Option<core::cmp::Ordering> {
        Some(spec_cmp(self@, other@))
    }
}

/// The instance that every well-formed instance of `T` equals.
pub open spec fn canonical_base<T: Base>() -> T {
    choose|t: T| t.wf()
}

impl<T: Base> From<u64> for BigNumBase<T> {
    /// The value `v` at exponent 0, normalized.
    fn from(v: u64) -> (r: Self)
        ensures
            T::NUMBER >= 2 ==> r.wf(),
    {
        if T::NUMBER >= 2 {
            let r = Self::new(v, 0);
            proof {
                T::lemma_wf_unique(r.base, canonical_base::<T>());
            }
            r
        } else {
            BigNumBase { sig: v, exp: 0, base: T::new() }
        }
    }
}

impl<T: Base> vstd::std_specs::convert::FromSpecImpl<u64> for BigNumBase<T> {
    open spec fn obeys_from_spec() -> bool {
        T::NUMBER >= 2
    }

    open spec fn from_spec(v: u64) -> Self {
        let p = crate::bignum::spec_new::<T>(v as int, 0);
        BigNumBase { sig: p.0 as u64, exp: p.1 as u64, base: canonical_base::<T>() }
    }
}

/// The value a `u64` operand stands for.
pub open spec fn from_u64<T: Base>(v: u64) -> (int, int) {
    crate::bignum::spec_new::<T>(v as int, 0)
}

impl<T: Base> core::ops::Add<u64> for BigNumBase<T> {
    type Output = Self;

    fn add(self, rhs: u64) -> (r: Self)
        ensures
            r.wf(),
            r@ == spec_add::<T>(self@, from_u64::<T>(rhs)),
    {
        self + Self::new(rhs, 0)
    }
}

impl<T: Base> AddSpecImpl<u64> for BigNumBase<T> {
    open spec fn obeys_add_spec() -> bool {
        true
    }

    open spec fn add_req(self, rhs: u64) -> bool {
        &&& self.wf()
        &&& spec_add::<T>(self@, from_u64::<T>(rhs)).1 <= u64::MAX
    }

    open spec fn add_spec(self, rhs: u64) -> Self {
        self.with(spec_add::<T>(self@, from_u64::<T>(rhs)))
    }
}

impl<T: Base> core::ops::Sub<u64> for BigNumBase<T> {
    type Output = Self;

    fn sub(self, rhs: u64) -> (r: Self)
        ensures
            r.wf(),
            r@ == spec_sub::<T>(self@, from_u64::<T>(rhs)),
    {
        self - Self::new(rhs, 0)
    }
}

impl<T: Base> SubSpecImpl<u64> for BigNumBase<T> {
    open spec fn obeys_sub_spec() -> bool {
        true
    }

    open spec fn sub_req(self, rhs: u64) -> bool {
        &&& self.wf()
        &&& !lt_pair(self@, from_u64::<T>(rhs))
    }

    open spec fn sub_spec(self, rhs: u64) -> Self {
        self.with(spec_sub::<T>(self@, from_u64::<T>(rhs)))
    }
}

impl<T: Base> core::ops::Mul<u64> for BigNumBase<T> {
    type Output = Self;

    fn mul(self, rhs: u64) -> (r: Self)
        ensures
            r.wf(),
            r@ == spec_mul::<T>(self@, from_u64::<T>(rhs)),
    {
        self * Self::new(rhs, 0)
    }
}

impl<T: Base> MulSpecImpl<u64> for BigNumBase<T> {
    open spec fn obeys_mul_spec() -> bool {
        true
    }

    open spec fn mul_req(self, rhs: u64) -> bool {
        &&& self.wf()
        &&& spec_mul::<T>(self@, from_u64::<T>(rhs)).1 <= u64::MAX
    }

    open spec fn mul_spec(self, rhs: u64) -> Self {
        self.with(spec_mul::<T>(self@, from_u64::<T>(rhs)))
    }
}

impl<T: Base> core::ops::Mul<BigNumBase<T>> for u64 {
    type Output = BigNumBase<T>;

    fn mul(self, rhs: BigNumBase<T>) -> (r: BigNumBase<T>)
        ensures
            r.wf(),
            r@ == spec_mul::<T>(from_u64::<T>(self), rhs@),
    {
        let lhs = BigNumBase::new(self, 0);
        proof {
            T::lemma_wf_unique(lhs.base, rhs.base);
        }
        lhs * rhs
    }
}

impl<T: Base> MulSpecImpl<BigNumBase<T>> for u64 {
    open spec fn obeys_mul_spec() -> bool {
        true
    }

    open spec fn mul_req(self, rhs: BigNumBase<T>) -> bool {
        &&& rhs.wf()
        &&& spec_mul::<T>(from_u64::<T>(self), rhs@).1 <= u64::MAX
    }

    open spec fn mul_spec(self, rhs: BigNumBase<T>) -> BigNumBase<T> {
        rhs.with(spec_mul::<T>(from_u64::<T>(self), rhs@))
    }
}

impl<T: Base> core::ops::Div<u64> for BigNumBase<T> {
    type Output = Self;

    fn div(self, rhs: u64) -> (r: Self)
        ensures
            r.wf(),
            r@ == spec_div::<T>(self@, from_u64::<T>(rhs)),
    {
        proof {
            lemma_valid_base_facts(radix::<T>(), T::min_exp());
        }
        self / Self::new(rhs, 0)
    }
}

impl<T: Base> DivSpecImpl<u64> for BigNumBase<T> {
    open spec fn obeys_div_spec() -> bool {
        true
    }

    open spec fn div_req(self, rhs: u64) -> bool {
        &&& self.wf()
        &&& rhs != 0
    }

    open spec fn div_spec(self, rhs: u64) -> Self {
        self.with(spec_div::<T>(self@, from_u64::<T>(rhs)))
    }
}

/// The running sum of the first `n` values, starting from zero.
pub open spec fn sum_prefix<T: Base>(s: Seq<BigNumBase<T>>, n: nat) -> (int, int)
    decreases n,
{
    if n == 0 || n > s.len() {
        (0, 0)
    } else {
        spec_add::<T>(sum_prefix::<T>(s, (n - 1) as nat), s[n - 1]@)
    }
}

/// The running product of the first `n >= 1` values, starting from the first.
pub open spec fn product_prefix<T: Base>(s: Seq<BigNumBase<T>>, n: nat) -> (int, int)
    decreases n,
{
    if n == 0 || n > s.len() {
        (0, 0)
    } else if n == 1 {
        s[0]@
    } else {
        spec_mul::<T>(product_prefix::<T>(s, (n - 1) as nat), s[n - 1]@)
    }
}

impl<T: Base> BigNumBase<T> {
    /// Adds up `items` left to right; the sum of none is zero.
    pub fn sum(items: &[Self]) -> (r: Self)
        requires
            T::NUMBER >= 2,
            forall|i: int| 0 <= i < items@.len() ==> (#[trigger] items@[i]).wf(),
            forall|n: nat|
                n < items@.len() ==> spec_add::<T>(
                    #[trigger] sum_prefix::<T>(items@, n),
                    items@[n as int]@,
                ).1 <= u64::MAX,
        ensures
            r.wf(),
            r@ == sum_prefix::<T>(items@, items@.len()),
    {
        let mut acc = Self::new(0, 0);
        let mut i: usize = 0;
        while i < items.len()
            invariant
                T::NUMBER >= 2,
                0 <= i <= items@.len(),
                acc.wf(),
                acc@ == sum_prefix::<T>(items@, i as nat),
                forall|i: int| 0 <= i < items@.len() ==> (#[trigger] items@[i]).wf(),
                forall|n: nat|
                    n < items@.len() ==> spec_add::<T>(
                        #[trigger] sum_prefix::<T>(items@, n),
                        items@[n as int]@,
                    ).1 <= u64::MAX,
            decreases items@.len() - i,
        {
            proof {
                T::lemma_wf_unique(acc.base, items@[i as int].base);
            }
            acc = acc + items[i];
            i = i + 1;
        }
        acc
    }

    /// Multiplies `items` left to right; the product of none is zero.
    pub fn product(items: &[Self]) -> (r: Self)
        requires
            T::NUMBER >= 2,
            forall|i: int| 0 <= i < items@.len() ==> (#[trigger] items@[i]).wf(),
            forall|n: nat|
                1 <= n < items@.len() ==> spec_mul::<T>(
                    #[trigger] product_prefix::<T>(items@, n),
                    items@[n as int]@,
                ).1 <= u64::MAX,
        ensures
            r.wf(),
            r@ == product_prefix::<T>(items@, items@.len()),
    {
        if items.len() == 0 {
            return Self::new(0, 0);
        }
        let mut acc = items[0];
        let mut i: usize = 1;
        while i < items.len()
            invariant
                T::NUMBER >= 2,
                1 <= i <= items@.len(),
                acc.wf(),
                acc@ == product_prefix::<T>(items@, i as nat),
                forall|i: int| 0 <= i < items@.len() ==> (#[trigger] items@[i]).wf(),
                forall|n: nat|
                    1 <= n < items@.len() ==> spec_mul::<T>(
                        #[trigger] product_prefix::<T>(items@, n),
                        items@[n as int]@,
                    ).1 <= u64::MAX,
            decreases items@.len() - i,
        {
            proof {
                T::lemma_wf_unique(acc.base, items@[i as int].base);
            }
            acc = acc * items[i];
            i = i + 1;
        }
        acc
    }
}

} // verus!
