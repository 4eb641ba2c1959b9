//! Laws that hold across the operations: construction, commutativity, identities,
//! ordering, shifting and stepping.
use crate::base::Base;
use crate::bignum::{
    lemma_shift_up, lt_pair, radix, radix_ok, spec_max_sig, spec_min_sig, spec_new,
    BigNumBase,
};
use crate::ops::{spec_add, spec_mul, spec_shl, spec_shr};
use crate::power::{lemma_log_bounds, lemma_valid_base_facts};
use crate::traits::{spec_pred, spec_succ};
use vstd::arithmetic::logarithm::log;
use vstd::arithmetic::power::{lemma_pow_positive, pow};
use vstd::prelude::*;

verus! {

/// Normalizing construction of a compact value is the raw pair itself:
/// `new(sig, 0)` and `new_raw(sig, 0)` agree for every `sig <= max_sig`.
pub proof fn lemma_new_compact_is_raw<T: Base>(sig: u64)
    requires
        radix_ok::<T>(),
        sig <= spec_max_sig::<T>(),
    ensures
        spec_new::<T>(sig as int, 0) == (sig as int, 0int),
{
}

/// Addition commutes: `a + b == b + a`.
pub proof fn lemma_add_commutes<T: Base>(a: BigNumBase<T>, b: BigNumBase<T>)
    requires
        a.wf(),
        b.wf(),
    ensures
        spec_add::<T>(a@, b@) == spec_add::<T>(b@, a@),
{
}

/// Multiplication commutes: `a * b == b * a`.
pub proof fn lemma_mul_commutes<T: Base>(a: BigNumBase<T>, b: BigNumBase<T>)
    requires
        a.wf(),
        b.wf(),
    ensures
        spec_mul::<T>(a@, b@) == spec_mul::<T>(b@, a@),
{
    vstd::arithmetic::mul::lemma_mul_is_commutative(a.sig as int, b.sig as int);
}

/// Zero is the identity of addition: `a + 0 == a`.
pub proof fn lemma_add_zero<T: Base>(a: BigNumBase<T>)
    requires
        a.wf(),
    ensures
        spec_add::<T>(a@, spec_new::<T>(0, 0)) == a@,
{
    lemma_valid_base_facts(radix::<T>(), T::min_exp());
    lemma_pow_positive(radix::<T>(), a.exp as nat);
    vstd::arithmetic::div_mod::lemma_div_of0(pow(radix::<T>(), a.exp as nat));
}

/// One is the identity of multiplication: `a * 1 == a`.
pub proof fn lemma_mul_one<T: Base>(a: BigNumBase<T>)
    requires
        a.wf(),
    ensures
        spec_mul::<T>(a@, spec_new::<T>(1, 0)) == a@,
{
    lemma_valid_base_facts(radix::<T>(), T::min_exp());
    assert(spec_new::<T>(1, 0) == (1int, 0int));
    assert(a.sig * 1 == a.sig);
}

/// Zero absorbs multiplication: `a * 0 == 0`.
pub proof fn lemma_mul_zero<T: Base>(a: BigNumBase<T>)
    requires
        a.wf(),
    ensures
        spec_mul::<T>(a@, spec_new::<T>(0, 0)) == (0int, 0int),
{
}

/// On compact values the order of big numbers is the order of the integers they hold.
pub proof fn lemma_compact_order<T: Base>(x: u64, y: u64)
    requires
        radix_ok::<T>(),
        x <= spec_max_sig::<T>(),
        y <= spec_max_sig::<T>(),
    ensures
        lt_pair(spec_new::<T>(x as int, 0), spec_new::<T>(y as int, 0)) <==> x < y,
        spec_new::<T>(x as int, 0) == spec_new::<T>(y as int, 0) <==> x == y,
{
}

/// Shifting left by `n` digits and back right by `n` returns the value, whenever the
/// left shift is defined (a nonzero value whose exponent stays in range); the right
/// shift is then always defined.
pub proof fn lemma_shift_round_trip<T: Base>(a: BigNumBase<T>, n: u64)
    requires
        a.wf(),
        a.sig != 0,
        spec_shl::<T>(a@, n as int).1 <= u64::MAX,
    ensures
        ({
            let s = spec_shl::<T>(a@, n as int);
            s.1 >= n || (s.0 != 0 && n - s.1 <= log(radix::<T>(), s.0))
        }),
        spec_shr::<T>(spec_shl::<T>(a@, n as int), n as int) == a@,
{
    let b = radix::<T>();
    let m = T::min_exp();
    lemma_valid_base_facts(b, m);
    if a.exp == 0 && a.sig < spec_min_sig::<T>() && n > 0 {
        let sig = a.sig as int;
        lemma_log_bounds(b, sig);
        if log(b, sig) >= m {
            vstd::arithmetic::power::lemma_pow_increases(b as nat, m, log(b, sig) as nat);
        }
        let k = m - log(b, sig);
        let t = if n <= k {
            n as nat
        } else {
            k as nat
        };
        lemma_shift_up(b, m, sig, t);
        lemma_pow_positive(b, t);
        vstd::arithmetic::div_mod::lemma_div_multiples_vanish(sig, pow(b, t));
        vstd::arithmetic::mul::lemma_mul_is_commutative(sig, pow(b, t));
        vstd::arithmetic::mul::lemma_mul_strict_inequality(0, sig, pow(b, t));
    }
}

/// Stepping up and then down returns the value, for every value but the largest.
pub proof fn lemma_pred_of_succ<T: Base>(a: BigNumBase<T>)
    requires
        a.wf(),
        !(a.sig == spec_max_sig::<T>() && a.exp == u64::MAX),
    ensures
        spec_succ::<T>(a@) != (0int, 0int),
        spec_pred::<T>(spec_succ::<T>(a@)) == a@,
{
    lemma_valid_base_facts(radix::<T>(), T::min_exp());
}

/// Stepping down and then up returns the value, for every value but zero.
pub proof fn lemma_succ_of_pred<T: Base>(a: BigNumBase<T>)
    requires
        a.wf(),
        a@ != (0int, 0int),
    ensures
        spec_succ::<T>(spec_pred::<T>(a@)) == a@,
{
    lemma_valid_base_facts(radix::<T>(), T::min_exp());
}

} // verus!
