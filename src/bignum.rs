//! The big-number value, its canonical forms, and construction.
use crate::base::{base_ok, Base, ExpRange, SigRange};
use crate::power::{lemma_log_bounds, lemma_log_unique, lemma_valid_base_facts, valid_base};
use vstd::arithmetic::div_mod::{lemma_div_is_ordered, lemma_div_multiples_vanish};
use vstd::arithmetic::logarithm::log;
use vstd::arithmetic::mul::{lemma_mul_inequality, lemma_mul_is_commutative, lemma_mul_strict_inequality};
use vstd::arithmetic::power::{lemma_pow_adds, lemma_pow_increases, lemma_pow_positive, pow};
use vstd::prelude::*;

verus! {

/// A number `sig * radix^exp` over the radix `T`.
///
/// A valid value is in one of two forms. Compact: `exp == 0` and `sig` is the value
/// itself, anywhere in `[0, max_sig]`. Expanded: `exp > 0` and `sig` lies in
/// `[min_sig, max_sig]`, so every digit of the significand is used.
#[derive(Clone, Copy, Debug)]
pub struct BigNumBase<T: Base> {
    pub sig: u64,
    pub exp: u64,
    pub base: T,
}

/// Big numbers in base 2.
pub type BigNumBin = BigNumBase<crate::base::Binary>;

/// Big numbers in base 8.
pub type BigNumOct = BigNumBase<crate::base::Octal>;

/// Big numbers in base 16.
pub type BigNumHex = BigNumBase<crate::base::Hexadecimal>;

/// Big numbers in base 10.
pub type BigNumDec = BigNumBase<crate::base::Decimal>;

/// The radix of `T` as an integer.
pub open spec fn radix<T: Base>() -> int {
    T::NUMBER as int
}

/// Smallest significand of an expanded value: `radix^min_exp`.
pub open spec fn spec_min_sig<T: Base>() -> int {
    pow(radix::<T>(), T::min_exp())
}

/// Largest significand of any value: `radix^(min_exp + 1) - 1`.
pub open spec fn spec_max_sig<T: Base>() -> int {
    pow(radix::<T>(), T::min_exp() + 1) - 1
}

/// `(sig, exp)` is in compact or expanded form.
pub open spec fn valid_pair<T: Base>(sig: int, exp: int) -> bool {
    &&& 0 <= sig <= spec_max_sig::<T>()
    &&& 0 <= exp <= u64::MAX
    &&& (exp == 0 || sig >= spec_min_sig::<T>())
}

/// The radix is at least 2, so `T` has a valid exponent window.
pub open spec fn radix_ok<T: Base>() -> bool {
    T::NUMBER >= 2 && base_ok::<T>()
}

/// The order of values: exponent first, then significand.
pub open spec fn lt_pair(a: (int, int), b: (int, int)) -> bool {
    a.1 < b.1 || (a.1 == b.1 && a.0 < b.0)
}

/// The canonical form of `sig * radix^exp` for `sig <= max_sig`: zero collapses to
/// `(0, 0)`; a short significand with a positive exponent is scaled up by consuming
/// exponent, down to the compact form when the exponent runs out.
pub open spec fn normalize<T: Base>(sig: int, exp: int) -> (int, int) {
    let b = radix::<T>();
    let m = T::min_exp();
    if sig == 0 {
        (0, 0)
    } else if exp == 0 || sig >= spec_min_sig::<T>() {
        (sig, exp)
    } else {
        let k = m - log(b, sig);
        if exp <= k {
            (sig * pow(b, exp as nat), 0)
        } else {
            (sig * pow(b, k as nat), exp - k)
        }
    }
}

/// What `new(sig, exp)` builds: one division by the radix for a significand past
/// `max_sig`, otherwise the canonical form.
pub open spec fn spec_new<T: Base>(sig: int, exp: int) -> (int, int) {
    if sig > spec_max_sig::<T>() {
        (sig / radix::<T>(), exp + 1)
    } else {
        normalize::<T>(sig, exp)
    }
}

/// The significand `sig` of a value at exponent `from` seen at exponent `to >= from`:
/// the digits below `to` are dropped.
pub open spec fn aligned<T: Base>(sig: int, from: int, to: int) -> int {
    sig / pow(radix::<T>(), (to - from) as nat)
}

impl<T: Base> View for BigNumBase<T> {
    type V = (int, int);

    /// The pair `(significand, exponent)`.
    open spec fn view(&self) -> (int, int) {
        (self.sig as int, self.exp as int)
    }
}

impl<T: Base> BigNumBase<T> {
    /// The value is in one of the two forms of its radix.
    pub open spec fn wf(&self) -> bool {
        &&& radix_ok::<T>()
        &&& self.base.wf()
        &&& valid_pair::<T>(self.sig as int, self.exp as int)
    }

    /// This value with its significand and exponent replaced by `p`.
    pub open spec fn with(self, p: (int, int)) -> Self {
        BigNumBase { sig: p.0 as u64, exp: p.1 as u64, base: self.base }
    }

    /// Creates the value `sig * radix^exp` in canonical form.
    ///
    /// A significand past `max_sig` is divided once by the radix (which always brings
    /// it into range) and the exponent grows by one; a short significand with a positive
    /// exponent is scaled up. A zero significand has no magnitude, so it takes exponent
    /// 0, and a significand past `max_sig` needs room for one more unit of exponent.
    pub fn new(sig: u64, exp: u64) -> (r: Self)
        requires
            T::NUMBER >= 2,
            sig > spec_max_sig::<T>() ==> exp < u64::MAX,
            sig == 0 ==> exp == 0,
        ensures
            r.wf(),
            r@ == spec_new::<T>(sig as int, exp as int),
    {
        let base = T::new();
        let ghost b = radix::<T>();
        let ghost m = T::min_exp();
        proof {
            T::lemma_base_ok();
            lemma_valid_base_facts(b, m);
        }
        let SigRange(min_sig, max_sig) = base.sig_range();
        if sig >= min_sig && sig <= max_sig {
            BigNumBase { sig, exp, base }
        } else if sig > max_sig {
            proof {
                vstd::arithmetic::power::lemma_pow1(b);
                lemma_div_is_ordered(b * spec_min_sig::<T>(), sig as int, b);
                lemma_mul_is_commutative(b, spec_min_sig::<T>());
                vstd::arithmetic::div_mod::lemma_div_multiples_vanish(spec_min_sig::<T>(), b);
                lemma_div_is_ordered(sig as int, 0xffff_ffff_ffff_ffff, b);
            }
            BigNumBase { sig: T::rshift(sig, 1), exp: exp + 1, base }
        } else if exp == 0 {
            BigNumBase { sig, exp, base }
        } else {
            normalize_short(base, sig, exp)
        }
    }

    /// Creates a value from a pair that is already in compact or expanded form, without
    /// normalizing it.
    pub fn new_raw(sig: u64, exp: u64) -> (r: Self)
        requires
            T::NUMBER >= 2,
            valid_pair::<T>(sig as int, exp as int),
        ensures
            r.wf(),
            r@ == (sig as int, exp as int),
    {
        let base = T::new();
        proof {
            T::lemma_base_ok();
        }
        BigNumBase { sig, exp, base }
    }

    /// Orders two values: exponent first, then significand.
    pub fn cmp(&self, other: &Self) -> (r: core::cmp::Ordering)
        ensures
            r == core::cmp::Ordering::Less <==> lt_pair(self@, other@),
            r == core::cmp::Ordering::Greater <==> lt_pair(other@, self@),
            r == core::cmp::Ordering::Equal <==> self@ == other@,
    {
        if self.exp < other.exp {
            core::cmp::Ordering::Less
        } else if self.exp > other.exp {
            core::cmp::Ordering::Greater
        } else if self.sig < other.sig {
            core::cmp::Ordering::Less
        } else if self.sig > other.sig {
            core::cmp::Ordering::Greater
        } else {
            core::cmp::Ordering::Equal
        }
    }

    /// Equality that tolerates accumulated rounding: the two values are at most
    /// `margin` apart in the significand at one exponent, or sit within `margin` of
    /// either side of the boundary between adjacent exponents.
    pub fn fuzzy_eq(self, other: Self, margin: u64) -> (r: bool)
        requires
            self.wf(),
            other.wf(),
        ensures
            r == spec_fuzzy_eq::<T>(self@, other@, margin as int),
    {
        proof {
            lemma_valid_base_facts(radix::<T>(), T::min_exp());
        }
        let SigRange(min_sig, max_sig) = self.base.sig_range();
        let (min, max) = if lt_pair_exec(&other, &self) {
            (other, self)
        } else {
            (self, other)
        };
        if max.exp == min.exp {
            max.sig - min.sig <= margin
        } else if max.exp == min.exp.wrapping_add(1) {
            max.sig.saturating_sub(margin) <= min_sig && min.sig.saturating_add(margin) >= max_sig
        } else {
            false
        }
    }
}

/// Brings a short significand with a positive exponent into canonical form: it is
/// scaled up by as many digits as the window has room for, each paid for with one
/// unit of exponent, and ends compact when the exponent runs out first.
pub(crate) fn normalize_short<T: Base>(base: T, sig: u64, exp: u64) -> (r: BigNumBase<T>)
    requires
        radix_ok::<T>(),
        base.wf(),
        1 <= sig < spec_min_sig::<T>(),
        exp > 0,
    ensures
        r.wf(),
        r.base == base,
        r@ == normalize::<T>(sig as int, exp as int),
{
    let ghost b = radix::<T>();
    let ghost m = T::min_exp();
    proof {
        lemma_valid_base_facts(b, m);
    }
    let ExpRange(min_exp, _) = base.exp_range();
    let mag = T::get_mag(sig);
    proof {
        lemma_log_bounds(b, sig as int);
        if mag >= m {
            lemma_pow_increases(b as nat, m, mag as nat);
        }
    }
    let adj = min_exp - mag;
    if adj as u64 >= exp {
        proof {
            lemma_shift_up(b, m, sig as int, exp as nat);
        }
        BigNumBase { sig: T::lshift(sig, exp as u32), exp: 0, base }
    } else {
        proof {
            lemma_shift_up(b, m, sig as int, adj as nat);
        }
        BigNumBase { sig: T::lshift(sig, adj), exp: exp - adj as u64, base }
    }
}

/// Fuzzy equality of two values within `margin`.
pub open spec fn spec_fuzzy_eq<T: Base>(a: (int, int), b: (int, int), margin: int) -> bool {
    let (lo, hi) = if lt_pair(b, a) { (b, a) } else { (a, b) };
    if hi.1 == lo.1 {
        hi.0 - lo.0 <= margin
    } else if hi.1 == lo.1 + 1 {
        hi.0 - margin <= spec_min_sig::<T>() && lo.0 + margin >= spec_max_sig::<T>()
    } else {
        false
    }
}

/// `a < b` in the order of values.
pub fn lt_pair_exec<T: Base>(a: &BigNumBase<T>, b: &BigNumBase<T>) -> (r: bool)
    ensures
        r == lt_pair(a@, b@),
{
    a.exp < b.exp || (a.exp == b.exp && a.sig < b.sig)
}

/// Scaling a significand up by `k` digits moves its logarithm by `k`; while the
/// result stays within the window it fits below `radix^(m+1)`.
pub proof fn lemma_shift_up(b: int, m: nat, sig: int, k: nat)
    requires
        valid_base(b, m),
        sig >= 1,
        log(b, sig) + k <= m,
    ensures
        pow(b, (log(b, sig) + k) as nat) <= sig * pow(b, k) < pow(b, (log(b, sig) + k + 1) as nat),
        log(b, sig * pow(b, k)) == log(b, sig) + k,
        sig * pow(b, k) < pow(b, m + 1),
        log(b, sig) + k == m ==> sig * pow(b, k) >= pow(b, m),
{
    lemma_log_bounds(b, sig);
    let l = log(b, sig) as nat;
    lemma_pow_positive(b, k);
    lemma_mul_inequality(pow(b, l), sig, pow(b, k));
    lemma_mul_strict_inequality(sig, pow(b, l + 1), pow(b, k));
    lemma_pow_adds(b, l, k);
    lemma_pow_adds(b, l + 1, k);
    assert(l + 1 + k == l + k + 1);
    lemma_log_unique(b, sig * pow(b, k), l + k);
    vstd::arithmetic::power::lemma_pow_increases(b as nat, l + k + 1, m + 1);
}

/// Scaling down by `k` digits, when the value has at least `k + 1` digits, moves the
/// logarithm down by `k`.
pub proof fn lemma_shift_down(b: int, v: int, k: nat)
    requires
        b > 1,
        v >= 1,
        log(b, v) >= k,
    ensures
        pow(b, k) >= 1,
        v / pow(b, k) >= 1,
        log(b, v / pow(b, k)) == log(b, v) - k,
        pow(b, (log(b, v) - k) as nat) <= v / pow(b, k) < pow(b, (log(b, v) - k + 1) as nat),
{
    lemma_log_bounds(b, v);
    let l = log(b, v) as nat;
    lemma_pow_positive(b, k);
    lemma_pow_positive(b, (l - k) as nat);
    lemma_pow_adds(b, (l - k) as nat, k);
    assert((l - k) as nat + k == l);
    lemma_div_is_ordered(pow(b, (l - k) as nat) * pow(b, k), v, pow(b, k));
    lemma_div_multiples_vanish(pow(b, (l - k) as nat), pow(b, k));
    lemma_mul_is_commutative(pow(b, (l - k) as nat), pow(b, k));
    vstd::arithmetic::power::lemma_pow_division_inequality(v as nat, b as nat, l + 1, k);
    assert((l + 1 - k) as nat == (l - k + 1) as nat);
    lemma_log_unique(b, v / pow(b, k), (l - k) as nat);
}

} // verus!
