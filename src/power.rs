//! Facts about powers and integer logarithms used throughout the engine.
use vstd::arithmetic::div_mod::{
    lemma_div_is_ordered, lemma_div_pos_is_pos, lemma_fundamental_div_mod,
    lemma_multiply_divide_lt,
};
use vstd::arithmetic::logarithm::{log, lemma_log0, lemma_log_s};
use vstd::arithmetic::mul::{lemma_mul_inequality, lemma_mul_is_commutative};
use vstd::arithmetic::power::{
    lemma_pow_adds, lemma_pow_increases, lemma_pow_positive, lemma_pow_strictly_increases, pow,
};
use vstd::prelude::*;

verus! {

/// 2^64, one past the largest `u64`.
pub open spec fn two64() -> int {
    0x1_0000_0000_0000_0000
}

/// The conditions a radix `b` and its minimum expanded exponent `m` must meet.
///
/// Expanded significands live in `[b^m, b^(m+1) - 1]`; `m + 1` is the largest exponent
/// whose power still fits in 2^64, so one division by `b` brings any `u64` back into
/// the significand window.
pub open spec fn valid_base(b: int, m: nat) -> bool {
    &&& 2 <= b <= 65535
    &&& 1 <= m
    &&& pow(b, m + 1) <= two64()
    &&& pow(b, m + 2) > two64()
}

/// `b^e` fits the window and grows: `pow(b, e) >= 1`, and `pow(b, e + 1) == b * pow(b, e)`.
pub proof fn lemma_pow_step(b: int, e: nat)
    requires
        b >= 1,
    ensures
        pow(b, e) >= 1,
        pow(b, e + 1) == b * pow(b, e),
{
    lemma_pow_positive(b, e);
    lemma_pow_adds(b, e, 1);
    vstd::arithmetic::power::lemma_pow1(b);
    lemma_mul_is_commutative(b, pow(b, e));
}

/// The integer logarithm brackets its argument.
pub proof fn lemma_log_bounds(b: int, v: int)
    requires
        b > 1,
        v >= 1,
    ensures
        log(b, v) >= 0,
        pow(b, log(b, v) as nat) <= v < pow(b, (log(b, v) + 1) as nat),
    decreases v,
{
    if v < b {
        lemma_log0(b, v);
        vstd::arithmetic::power::lemma_pow0(b);
        vstd::arithmetic::power::lemma_pow1(b);
    } else {
        lemma_log_s(b, v);
        lemma_div_pos_is_pos(v, b);
        lemma_fundamental_div_mod(v, b);
        let q = v / b;
        assert(q >= 1) by {
            lemma_div_is_ordered(b, v, b);
            vstd::arithmetic::div_mod::lemma_div_by_self(b);
        }
        assert(q < v) by {
            vstd::arithmetic::div_mod::lemma_div_decreases(v, b);
        }
        lemma_log_bounds(b, q);
        let k = log(b, q);
        lemma_pow_step(b, k as nat);
        lemma_pow_step(b, (k + 1) as nat);
        lemma_mul_inequality(pow(b, k as nat), q, b);
        lemma_mul_is_commutative(pow(b, k as nat), b);
        lemma_mul_is_commutative(q, b);
        vstd::arithmetic::div_mod::lemma_mod_bound(v, b);
        lemma_mul_inequality(q + 1, pow(b, (k + 1) as nat), b);
        lemma_mul_is_commutative(q + 1, b);
        lemma_mul_is_commutative(pow(b, (k + 1) as nat), b);
        assert(b * (q + 1) == b * q + b) by (nonlinear_arith);
    }
}

/// A bracketing power pins the logarithm down.
pub proof fn lemma_log_unique(b: int, v: int, k: nat)
    requires
        b > 1,
        pow(b, k) <= v < pow(b, k + 1),
    ensures
        log(b, v) == k,
{
    lemma_pow_positive(b, k);
    lemma_log_bounds(b, v);
    let l = log(b, v);
    if l < k {
        lemma_pow_increases(b as nat, (l + 1) as nat, k);
    } else if l > k {
        lemma_pow_increases(b as nat, k + 1, l as nat);
    }
}

/// Powers of a radix above 1 are strictly ordered by their exponents.
pub proof fn lemma_pow_lt(b: int, e1: nat, e2: nat)
    requires
        b > 1,
        e1 < e2,
    ensures
        pow(b, e1) < pow(b, e2),
        pow(b, e1) * b <= pow(b, e2),
{
    lemma_pow_strictly_increases(b as nat, e1, e2);
    lemma_pow_step(b, e1);
    lemma_pow_increases(b as nat, e1 + 1, e2);
    lemma_mul_is_commutative(b, pow(b, e1));
}

/// A larger radix gives larger powers: `pow(b, e) >= pow(2, e)` for `b >= 2`.
pub proof fn lemma_pow_ge_pow2(b: int, e: nat)
    requires
        b >= 2,
    ensures
        pow(b, e) >= pow(2, e),
    decreases e,
{
    if e == 0 {
        vstd::arithmetic::power::lemma_pow0(b);
        vstd::arithmetic::power::lemma_pow0(2);
    } else {
        lemma_pow_ge_pow2(b, (e - 1) as nat);
        lemma_pow_step(b, (e - 1) as nat);
        lemma_pow_step(2, (e - 1) as nat);
        lemma_mul_inequality(2, b, pow(2, (e - 1) as nat));
        lemma_mul_inequality(pow(2, (e - 1) as nat), pow(b, (e - 1) as nat), b);
        lemma_mul_is_commutative(2, pow(2, (e - 1) as nat));
        lemma_mul_is_commutative(b, pow(2, (e - 1) as nat));
        lemma_mul_is_commutative(b, pow(b, (e - 1) as nat));
    }
}

/// What a valid radix/exponent pair implies about the significand window and the
/// wide (128-bit) intermediate values.
pub proof fn lemma_valid_base_facts(b: int, m: nat)
    requires
        valid_base(b, m),
    ensures
        m <= 63,
        2 <= pow(b, m),
        pow(b, m + 1) == b * pow(b, m),
        pow(b, m) < pow(b, m + 1),
        pow(b, m + 1) - 1 <= 0xffff_ffff_ffff_ffffint,
        0xffff_ffff_ffff_ffffint / b <= pow(b, m + 1) - 1,
        pow(b, 2 * m + 2) == pow(b, m + 1) * pow(b, m + 1),
        pow(b, 2 * m + 2) <= two64() * two64(),
        pow(b, 2 * m + 1) < two64() * two64(),
{
    lemma_pow_step(b, m);
    lemma_pow_step(b, m + 1);
    vstd::arithmetic::power::lemma_pow1(b);
    lemma_pow_increases(b as nat, 1, m);
    lemma_pow_strictly_increases(b as nat, m, m + 1);
    assert(m <= 63) by {
        if m > 63 {
            lemma_pow_ge_pow2(b, m + 1);
            vstd::arithmetic::power2::lemma2_to64();
            vstd::arithmetic::power2::lemma2_to64_rest();
            vstd::arithmetic::power2::lemma_pow2(64);
            lemma_pow_strictly_increases(2, 64, m + 1);
        }
    }
    let big = pow(b, m + 1);
    assert(0xffff_ffff_ffff_ffffint / b < big) by {
        lemma_multiply_divide_lt(0xffff_ffff_ffff_ffffint, b, big);
        lemma_mul_is_commutative(b, big);
    }
    lemma_pow_adds(b, m + 1, m + 1);
    lemma_mul_inequality(big, two64(), big);
    lemma_mul_inequality(big, two64(), two64());
    lemma_mul_is_commutative(big, two64());
    lemma_pow_strictly_increases(b as nat, 2 * m + 1, 2 * m + 2);
}

} // verus!
