//! Metadata for radices without built-in shortcuts: a table of powers and the derived
//! ranges, computed once per radix and kept in a registry.
use crate::power::{lemma_log_unique, lemma_pow_ge_pow2, lemma_pow_step, two64};
use vstd::arithmetic::logarithm::log;
use vstd::arithmetic::power::{lemma_pow_increases, pow};
use vstd::prelude::*;

verus! {

/// The table of powers of one radix and the ranges derived from it.
#[derive(Debug)]
pub struct BaseData {
    base: u16,
    powers: Vec<u64>,
    sig_range: (u64, u64),
    exp_range: (u32, u32),
}

impl BaseData {
    /// The radix of the table.
    pub closed spec fn spec_base(&self) -> nat {
        self.base as nat
    }

    /// The powers held, from `radix^0` up.
    pub closed spec fn spec_powers(&self) -> Seq<u64> {
        self.powers@
    }

    /// The significand range, inclusive.
    pub closed spec fn spec_sig_range(&self) -> (u64, u64) {
        self.sig_range
    }

    /// The exponent range, exclusive at the top.
    pub closed spec fn spec_exp_range(&self) -> (u32, u32) {
        self.exp_range
    }

    /// The table holds every power of the radix that fits in a `u64`, in order; with
    /// `n` entries, the exponent range is `(n - 2, n - 1)` and the significand range
    /// `(radix^(n-2), radix^(n-1) - 1)`.
    pub open spec fn wf(&self) -> bool {
        let b = self.spec_base() as int;
        let t = self.spec_powers();
        let n = t.len();
        &&& 2 <= b
        &&& 3 <= n
        &&& forall|i: int| 0 <= i < n ==> #[trigger] t[i] == pow(b, i as nat)
        &&& pow(b, n) > u64::MAX
        &&& self.spec_exp_range() == ((n - 2) as u32, (n - 1) as u32)
        &&& self.spec_sig_range() == (pow(b, (n - 2) as nat) as u64, (pow(b, (n - 1) as nat) - 1) as u64)
    }

    /// Builds the table for `base` by multiplying up from 1 in 128 bits until the next
    /// power would pass `u64::MAX`. The built-in radices have their own metadata and get
    /// no table.
    pub fn new(base: u16) -> (r: Self)
        requires
            base >= 3,
            base != 8 && base != 10 && base != 16,
        ensures
            r.wf(),
            r.spec_base() == base,
    {
        let ghost b = base as int;
        let mut powers: Vec<u64> = Vec::new();
        let mut exp: u32 = 0;
        let mut sig: u128 = 1;
        proof {
            vstd::arithmetic::power::lemma_pow0(b);
        }
        while sig <= u64::MAX as u128
            invariant
                b == base as int,
                3 <= base,
                sig == pow(b, exp as nat),
                1 <= sig <= two64() * 65535,
                exp <= 64,
                exp > 0 ==> pow(b, (exp - 1) as nat) <= u64::MAX,
                powers@.len() == exp,
                forall|i: int| 0 <= i < exp ==> #[trigger] powers@[i] == pow(b, i as nat),
            decreases two64() * 65536 - sig,
        {
            powers.push(sig as u64);
            proof {
                lemma_pow_step(b, exp as nat);
                assert(sig * b <= 0xffff_ffff_ffff_ffffint * 65535) by (nonlinear_arith)
                    requires
                        sig <= 0xffff_ffff_ffff_ffffint,
                        b <= 65535,
                ;
                vstd::arithmetic::mul::lemma_mul_is_commutative(b, sig as int);
                vstd::arithmetic::mul::lemma_mul_strict_inequality(1, b, sig as int);
                if exp >= 64 {
                    lemma_pow_ge_pow2(b, exp as nat);
                    vstd::arithmetic::power2::lemma2_to64();
                    vstd::arithmetic::power2::lemma2_to64_rest();
                    vstd::arithmetic::power2::lemma_pow2(64);
                    lemma_pow_increases(2, 64, exp as nat);
                }
            }
            exp = exp + 1;
            sig = sig * (base as u128);
        }
        proof {
            // three powers at least fit: base^2 <= 65535^2
            if exp < 3 {
                lemma_pow_step(b, 0);
                lemma_pow_step(b, 1);
                vstd::arithmetic::power::lemma_pow0(b);
                assert(b * b <= 65535 * 65535) by (nonlinear_arith)
                    requires
                        3 <= b <= 65535,
                ;
                if exp == 2 {
                    assert(pow(b, 2) == b * b);
                } else if exp == 1 {
                    assert(pow(b, 1) == b);
                }
            }
            lemma_pow_step(b, (exp - 1) as nat);
            lemma_pow_step(b, (exp - 2) as nat);
            vstd::arithmetic::div_mod::lemma_div_multiples_vanish(pow(b, (exp - 1) as nat), b);
            vstd::arithmetic::div_mod::lemma_div_multiples_vanish(pow(b, (exp - 2) as nat), b);
            vstd::arithmetic::mul::lemma_mul_is_commutative(b, pow(b, (exp - 1) as nat));
            vstd::arithmetic::mul::lemma_mul_is_commutative(b, pow(b, (exp - 2) as nat));
        }
        let max = sig / (base as u128);
        let min = max / (base as u128);
        BaseData {
            base,
            powers,
            exp_range: (exp - 2, exp - 1),
            sig_range: (min as u64, (max - 1) as u64),
        }
    }

    pub fn sig_range(&self) -> (r: (u64, u64))
        ensures
            r == self.spec_sig_range(),
    {
        self.sig_range
    }

    pub fn exp_range(&self) -> (r: (u32, u32))
        ensures
            r == self.spec_exp_range(),
    {
        self.exp_range
    }

    /// `radix^exp`, looked up in the table.
    pub fn pow(&self, exp: u32) -> (r: u64)
        requires
            self.wf(),
            exp < self.spec_powers().len(),
        ensures
            r == pow(self.spec_base() as int, exp as nat),
    {
        self.powers[exp as usize]
    }

    /// The number of powers in the table.
    pub fn power_count(&self) -> (r: usize)
        ensures
            r == self.spec_powers().len(),
    {
        self.powers.len()
    }

    /// Max value for the significand, inclusive.
    pub fn max_sig(&self) -> (r: u64)
        ensures
            r == self.spec_sig_range().1,
    {
        self.sig_range.1
    }

    /// Min value for an expanded significand.
    pub fn min_sig(&self) -> (r: u64)
        ensures
            r == self.spec_sig_range().0,
    {
        self.sig_range.0
    }

    /// Max value for the exponent range, exclusive.
    pub fn max_exp(&self) -> (r: u32)
        ensures
            r == self.spec_exp_range().1,
    {
        self.exp_range.1
    }

    /// Min value for the exponent range.
    pub fn min_exp(&self) -> (r: u32)
        ensures
            r == self.spec_exp_range().0,
    {
        self.exp_range.0
    }

    /// The index of the first power above `sig`, less one (0 for `sig == 0`): the
    /// magnitude of `sig`.
    fn magnitude(&self, sig: u64) -> (r: u64)
        requires
            self.wf(),
            sig < self.spec_powers().last(),
        ensures
            r == if sig == 0 { 0 } else { log(self.spec_base() as int, sig as int) },
    {
        let ghost b = self.spec_base() as int;
        let mut i: usize = 0;
        while i < self.powers.len() && !(sig < self.powers[i])
            invariant
                self.wf(),
                b == self.spec_base() as int,
                sig < self.spec_powers().last(),
                i <= self.powers@.len(),
                forall|j: int| 0 <= j < i ==> sig >= #[trigger] self.powers@[j],
            decreases self.powers@.len() - i,
        {
            i = i + 1;
        }
        proof {
            vstd::arithmetic::power::lemma_pow0(b);
            if i == self.powers@.len() {
                assert(sig >= self.powers@[self.powers@.len() - 1]);
            }
            if i > 0 {
                assert(sig >= self.powers@[i - 1]);
                assert(sig >= self.powers@[0]);
                assert(sig < self.powers@[i as int]);
                assert((i - 1) as nat + 1 == i as nat);
                lemma_log_unique(b, sig as int, (i - 1) as nat);
            } else {
                assert(sig < self.powers@[0]);
                vstd::arithmetic::power::lemma_pow0(b);
            }
        }
        if i == 0 {
            0
        } else {
            (i - 1) as u64
        }
    }
}

/// The registry of computed metadata, at most one entry per radix.
pub struct BaseCache {
    entries: Vec<BaseData>,
}

impl BaseCache {
    /// The entries, in the order they were populated.
    pub closed spec fn spec_entries(&self) -> Seq<BaseData> {
        self.entries@
    }

    /// Every entry is a valid table, and no radix has two.
    pub open spec fn wf(&self) -> bool {
        let e = self.spec_entries();
        &&& forall|i: int| 0 <= i < e.len() ==> (#[trigger] e[i]).wf()
        &&& forall|i: int, j: int|
            0 <= i < j < e.len() ==> (#[trigger] e[i]).spec_base() != (#[trigger] e[j]).spec_base()
    }

    /// The radix has an entry.
    pub open spec fn contains(&self, base: u16) -> bool {
        exists|i: int| 0 <= i < self.spec_entries().len() && (#[trigger] self.spec_entries()[i]).spec_base() == base
    }

    /// The entry of a radix that has one.
    pub open spec fn entry(&self, base: u16) -> BaseData {
        let i = choose|i: int| 0 <= i < self.spec_entries().len() && (#[trigger] self.spec_entries()[i]).spec_base() == base;
        self.spec_entries()[i]
    }

    /// An empty registry.
    pub fn new() -> (r: Self)
        ensures
            r.wf(),
            r.spec_entries().len() == 0,
    {
        BaseCache { entries: Vec::new() }
    }

    /// The entry at position `i` is the entry of its radix.
    pub proof fn lemma_entry_at(&self, i: int, base: u16)
        requires
            self.wf(),
            0 <= i < self.spec_entries().len(),
            self.spec_entries()[i].spec_base() == base,
        ensures
            self.contains(base),
            self.entry(base) == self.spec_entries()[i],
    {
        let e = self.spec_entries();
        assert(e[i].spec_base() == base);
        let k = choose|k: int| 0 <= k < e.len() && (#[trigger] e[k]).spec_base() == base;
        if k < i {
            assert(e[k].spec_base() != e[i].spec_base());
        } else if k > i {
            assert(e[i].spec_base() != e[k].spec_base());
        }
    }

    /// The position of the entry for `base`, if there is one.
    fn find(&self, base: u16) -> (r: Option<usize>)
        requires
            self.wf(),
        ensures
            r is None <==> !self.contains(base),
            r matches Some(i) ==> i < self.spec_entries().len() && self.spec_entries()[i as int]
                == self.entry(base),
    {
        let mut i: usize = 0;
        while i < self.entries.len()
            invariant
                self.wf(),
                i <= self.entries@.len(),
                forall|j: int| 0 <= j < i ==> (#[trigger] self.entries@[j]).spec_base() != base,
            decreases self.entries@.len() - i,
        {
            if self.entries[i].base == base {
                proof {
                    self.lemma_entry_at(i as int, base);
                }
                return Some(i);
            }
            i = i + 1;
        }
        None
    }

    /// The entry of `base`, if it has been populated.
    pub fn lookup(&self, base: u16) -> (r: Option<&BaseData>)
        requires
            self.wf(),
        ensures
            r is None <==> !self.contains(base),
            r matches Some(d) ==> *d == self.entry(base) && d.wf(),
    {
        match self.find(base) {
            Some(i) => Some(&self.entries[i]),
            None => None,
        }
    }

    /// Populates the entry for `base` unless it is there already; an existing entry is
    /// kept as it is, and a new one goes after the others.
    pub fn ensure_cached(&mut self, base: u16)
        requires
            old(self).wf(),
            base >= 3,
            base != 8 && base != 10 && base != 16,
        ensures
            final(self).wf(),
            final(self).contains(base),
            final(self).entry(base).spec_base() == base,
            old(self).contains(base) ==> final(self).spec_entries() == old(self).spec_entries(),
            !old(self).contains(base) ==> {
                &&& final(self).spec_entries().len() == old(self).spec_entries().len() + 1
                &&& final(self).spec_entries().subrange(0, old(self).spec_entries().len() as int)
                    == old(self).spec_entries()
            },
    {
        match self.find(base) {
            Some(i) => {
                proof {
                    self.lemma_entry_at(i as int, base);
                }
            },
            None => {
                let data = BaseData::new(base);
                let ghost prev = self.spec_entries();
                self.entries.push(data);
                proof {
                    let e = self.spec_entries();
                    assert(e.subrange(0, prev.len() as int) =~= prev);
                    assert forall|i: int, j: int|
                        0 <= i < j < e.len() implies (#[trigger] e[i]).spec_base() != (#[trigger] e[j]).spec_base() by {
                        if j == prev.len() {
                            assert(e[i] == prev[i]);
                            if e[i].spec_base() == base {
                                assert(self.contains(base));
                            }
                        } else {
                            assert(e[i] == prev[i] && e[j] == prev[j]);
                        }
                    }
                    assert(forall|i: int| 0 <= i < e.len() ==> (#[trigger] e[i]).wf()) by {
                        assert forall|i: int| 0 <= i < e.len() implies (#[trigger] e[i]).wf() by {
                            if i < prev.len() {
                                assert(e[i] == prev[i]);
                            }
                        }
                    }
                    self.lemma_entry_at(prev.len() as int, base);
                }
            },
        }
    }
}

/// `base^exp` from the entry of `base`.
pub fn get_cached_pow(cache: &BaseCache, exp: u32, base: u16) -> (r: u64)
    requires
        cache.wf(),
        cache.contains(base),
        exp < cache.entry(base).spec_powers().len(),
    ensures
        r == pow(base as int, exp as nat),
{
    match cache.find(base) {
        Some(i) => {
            proof {
                cache.lemma_entry_at(i as int, base);
            }
            cache.entries[i].pow(exp)
        },
        None => {
            proof {
                assert(false);
            }
            0
        },
    }
}

/// The magnitude of `sig` in the radix `base` (0 for `sig == 0`), from the entry of
/// `base`.
pub fn get_cached_mag_arbitrary(cache: &BaseCache, sig: u64, base: u16) -> (r: u64)
    requires
        cache.wf(),
        cache.contains(base),
        sig < cache.entry(base).spec_powers().last(),
    ensures
        r == if sig == 0 { 0 } else { log(base as int, sig as int) },
{
    match cache.find(base) {
        Some(i) => {
            proof {
                cache.lemma_entry_at(i as int, base);
            }
            cache.entries[i].magnitude(sig)
        },
        None => {
            proof {
                assert(false);
            }
            0
        },
    }
}

/// The exponent range of `base`, from its entry.
pub fn get_cached_exp_range(cache: &BaseCache, base: u16) -> (r: (u32, u32))
    requires
        cache.wf(),
        cache.contains(base),
    ensures
        r == cache.entry(base).spec_exp_range(),
{
    match cache.find(base) {
        Some(i) => cache.entries[i].exp_range(),
        None => {
            proof {
                assert(false);
            }
            (0, 0)
        },
    }
}

/// The significand range of `base`, from its entry.
pub fn get_cached_sig_range(cache: &BaseCache, base: u16) -> (r: (u64, u64))
    requires
        cache.wf(),
        cache.contains(base),
    ensures
        r == cache.entry(base).spec_sig_range(),
{
    match cache.find(base) {
        Some(i) => cache.entries[i].sig_range(),
        None => {
            proof {
                assert(false);
            }
            (0, 0)
        },
    }
}

} // verus!
