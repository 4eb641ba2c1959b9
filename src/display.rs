//! Human-readable text for decimal big numbers.
use crate::base::{Base, Decimal};
use crate::bignum::BigNumBase;
use vstd::arithmetic::logarithm::log;
use vstd::arithmetic::power::{lemma_pow_positive, pow};
use vstd::prelude::*;

verus! {

/// The character of a decimal digit.
pub open spec fn digit_char(d: int) -> char {
    if d == 0 {
        '0'
    } else if d == 1 {
        '1'
    } else if d == 2 {
        '2'
    } else if d == 3 {
        '3'
    } else if d == 4 {
        '4'
    } else if d == 5 {
        '5'
    } else if d == 6 {
        '6'
    } else if d == 7 {
        '7'
    } else if d == 8 {
        '8'
    } else {
        '9'
    }
}

/// The decimal digits of `n`, without leading zeros.
pub open spec fn digits(n: nat) -> Seq<char>
    decreases n,
{
    if n < 10 {
        seq![digit_char(n as int)]
    } else {
        digits(n / 10).push(digit_char((n % 10) as int))
    }
}

/// The last `d` decimal digits of `f`, with leading zeros.
pub open spec fn fixed_digits(f: nat, d: nat) -> Seq<char>
    decreases d,
{
    if d == 0 {
        seq![]
    } else {
        fixed_digits(f / 10, (d - 1) as nat).push(digit_char((f % 10) as int))
    }
}

/// The digits of `f / 10^d` after the decimal point, trailing zeros dropped.
pub open spec fn frac_text(f: nat, d: nat) -> Seq<char>
    decreases d,
{
    if f == 0 || d == 0 {
        seq![]
    } else if f % 10 == 0 {
        frac_text(f / 10, (d - 1) as nat)
    } else {
        fixed_digits(f, d)
    }
}

/// `n / 10^d` written out exactly: the integer digits, then a point and the fraction
/// when there is one.
pub open spec fn decimal_text(n: nat, d: nat) -> Seq<char> {
    let p = pow(10, d);
    let t = frac_text((n as int % p) as nat, d);
    if t.len() == 0 {
        digits((n as int / p) as nat)
    } else {
        digits((n as int / p) as nat) + seq!['.'] + t
    }
}

/// At most the first five characters.
pub open spec fn head5(s: Seq<char>) -> Seq<char> {
    if s.len() <= 5 {
        s
    } else {
        s.take(5)
    }
}

/// The metric suffix of the `g`-th group of three digits.
pub open spec fn suffix(g: int) -> char {
    if g == 1 {
        'k'
    } else if g == 2 {
        'm'
    } else if g == 3 {
        'b'
    } else {
        't'
    }
}

/// The text of a decimal value `(sig, exp)`.
///
/// Compact values under 1000 are written as they are; below 10^15 they are scaled to
/// thousands, millions, billions or trillions and keep at most five characters before
/// the suffix. Larger compact values and all expanded ones are written as a mantissa
/// of at most five characters (truncated, so never `10`) and a power of ten.
pub open spec fn decimal_display(x: (int, int)) -> Seq<char> {
    let sig = x.0 as nat;
    let exp = x.1 as nat;
    if exp == 0 {
        if sig < 1000 {
            digits(sig)
        } else if sig < pow(10, 15) {
            let g = log(10, sig as int) / 3;
            head5(decimal_text(sig, (3 * g) as nat)).push(suffix(g))
        } else {
            let k = log(10, sig as int) as nat;
            head5(decimal_text(sig, k)) + seq!['e'] + digits(k)
        }
    } else {
        head5(decimal_text(sig, 18)) + seq!['e'] + digits(exp + 18)
    }
}

/// The character of the digit `d < 10`.
fn digit_of(d: u128) -> (r: char)
    requires
        d < 10,
    ensures
        r == digit_char(d as int),
{
    if d == 0 {
        '0'
    } else if d == 1 {
        '1'
    } else if d == 2 {
        '2'
    } else if d == 3 {
        '3'
    } else if d == 4 {
        '4'
    } else if d == 5 {
        '5'
    } else if d == 6 {
        '6'
    } else if d == 7 {
        '7'
    } else if d == 8 {
        '8'
    } else {
        '9'
    }
}

/// Appends the decimal digits of `n`.
fn push_digits(out: &mut Vec<char>, n: u128)
    ensures
        final(out)@ == old(out)@ + digits(n as nat),
    decreases n,
{
    if n >= 10 {
        push_digits(out, n / 10);
    }
    out.push(digit_of(n % 10));
    proof {
        assert(final(out)@ =~= old(out)@ + digits(n as nat));
    }
}

/// Appends the last `d` digits of `f`, with leading zeros.
fn push_fixed(out: &mut Vec<char>, f: u64, d: u32)
    ensures
        final(out)@ == old(out)@ + fixed_digits(f as nat, d as nat),
    decreases d,
{
    if d > 0 {
        push_fixed(out, f / 10, d - 1);
        out.push(digit_of((f % 10) as u128));
    }
    proof {
        assert(final(out)@ =~= old(out)@ + fixed_digits(f as nat, d as nat));
    }
}

/// Appends the fraction digits of `f / 10^d`, trailing zeros dropped.
fn push_frac(out: &mut Vec<char>, f: u64, d: u32)
    ensures
        final(out)@ == old(out)@ + frac_text(f as nat, d as nat),
    decreases d,
{
    if f == 0 || d == 0 {
        proof {
            assert(final(out)@ =~= old(out)@ + frac_text(f as nat, d as nat));
        }
    } else if f % 10 == 0 {
        push_frac(out, f / 10, d - 1);
    } else {
        push_fixed(out, f, d);
    }
}

/// `frac_text` is empty exactly for a zero fraction.
proof fn lemma_frac_text_empty(f: nat, d: nat)
    requires
        f < pow(10, d),
    ensures
        (frac_text(f, d).len() == 0) == (f == 0),
    decreases d,
{
    if f != 0 && d == 0 {
        vstd::arithmetic::power::lemma_pow0(10);
    }
    if f != 0 && d > 0 {
        if f % 10 == 0 {
            crate::power::lemma_pow_step(10, (d - 1) as nat);
            vstd::arithmetic::div_mod::lemma_fundamental_div_mod(f as int, 10);
            assert(f / 10 < pow(10, (d - 1) as nat)) by {
                vstd::arithmetic::div_mod::lemma_multiply_divide_lt(
                    f as int,
                    10,
                    pow(10, (d - 1) as nat),
                );
            }
            lemma_frac_text_empty(f / 10, (d - 1) as nat);
        } else {
            lemma_fixed_digits_len(f, d);
        }
    }
}

proof fn lemma_fixed_digits_len(f: nat, d: nat)
    ensures
        fixed_digits(f, d).len() == d,
    decreases d,
{
    if d > 0 {
        lemma_fixed_digits_len(f / 10, (d - 1) as nat);
    }
}

/// `n / 10^d` written out exactly.
fn decimal_text_exec(n: u64, d: u32) -> (r: Vec<char>)
    requires
        d <= 18,
    ensures
        r@ == decimal_text(n as nat, d as nat),
{
    proof {
        crate::base::lemma_builtin_radices();
        Decimal::lemma_base_ok();
        lemma_pow_positive(10, d as nat);
    }
    let p = Decimal::pow(d);
    let mut out: Vec<char> = Vec::new();
    push_digits(&mut out, (n / p) as u128);
    let f = n % p;
    proof {
        vstd::arithmetic::div_mod::lemma_mod_bound(n as int, p as int);
        lemma_frac_text_empty(f as nat, d as nat);
    }
    if f != 0 {
        out.push('.');
        push_frac(&mut out, f, d);
    }
    proof {
        assert(out@ =~= decimal_text(n as nat, d as nat));
    }
    out
}

/// Appends at most the first five characters of `s`.
fn push_head5(out: &mut Vec<char>, s: &Vec<char>)
    ensures
        final(out)@ == old(out)@ + head5(s@),
{
    let n: usize = if s.len() < 5 {
        s.len()
    } else {
        5
    };
    let mut i: usize = 0;
    while i < n
        invariant
            n <= s@.len(),
            n == if s@.len() < 5 { s@.len() } else { 5 },
            i <= n,
            out@ == old(out)@ + s@.take(i as int),
        decreases n - i,
    {
        out.push(s[i]);
        i = i + 1;
        proof {
            assert(s@.take(i as int) =~= s@.take((i - 1) as int).push(s@[i - 1]));
        }
    }
    proof {
        if s@.len() <= 5 {
            assert(s@.take(n as int) =~= s@);
        }
    }
}

/// Relies on `String::from_iter`: the string holds the given characters in order.
#[verifier::external_body]
fn string_from_chars(chars: Vec<char>) -> (r: String)
    ensures
        r@ == chars@,
{
    String::from_iter(chars)
}

impl BigNumBase<Decimal> {
    /// The text of this value: see `decimal_display`.
    pub fn to_string(&self) -> (r: String)
        requires
            self.wf(),
        ensures
            r@ == decimal_display(self@),
    {
        let mut out: Vec<char> = Vec::new();
        proof {
            crate::base::lemma_builtin_radices();
            Decimal::lemma_base_ok();
        }
        if self.exp == 0 {
            if self.sig < 1000 {
                push_digits(&mut out, self.sig as u128);
            } else {
                let mag = Decimal::get_mag(self.sig);
                proof {
                    crate::power::lemma_log_bounds(10, self.sig as int);
                    if mag > 18 {
                        vstd::arithmetic::power::lemma_pow_increases(10, 19, mag as nat);
                    }
                }
                if mag < 15 {
                    let g = mag / 3;
                    let text = decimal_text_exec(self.sig, 3 * g);
                    push_head5(&mut out, &text);
                    let c = if g == 1 {
                        'k'
                    } else if g == 2 {
                        'm'
                    } else if g == 3 {
                        'b'
                    } else {
                        't'
                    };
                    out.push(c);
                    proof {
                        if self.sig >= pow(10, 15) {
                            vstd::arithmetic::power::lemma_pow_increases(10, (mag + 1) as nat, 15);
                        }
                    }
                } else {
                    let text = decimal_text_exec(self.sig, mag);
                    push_head5(&mut out, &text);
                    out.push('e');
                    push_digits(&mut out, mag as u128);
                    proof {
                        if self.sig < pow(10, 15) {
                            vstd::arithmetic::power::lemma_pow_increases(10, 15, mag as nat);
                        }
                    }
                }
            }
        } else {
            let text = decimal_text_exec(self.sig, 18);
            push_head5(&mut out, &text);
            out.push('e');
            push_digits(&mut out, self.exp as u128 + 18);
        }
        proof {
            assert(out@ =~= decimal_display(self@));
        }
        string_from_chars(out)
    }
}

} // verus!
