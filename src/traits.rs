//! Stepping to the neighbouring representable values.
use crate::base::{Base, SigRange};
use crate::bignum::{radix, spec_max_sig, spec_min_sig, BigNumBase};
use crate::power::lemma_valid_base_facts;
use vstd::prelude::*;

verus! {

/// The next representable value. Adding one often leaves a big number unchanged, so
/// this steps to the very next value instead.
pub trait Succ: Sized {
    /// The inputs that have a successor.
    spec fn succ_req(self) -> bool;

    /// The successor.
    spec fn succ_spec(self) -> Self;

    fn succ(self) -> (r: Self)
        requires
            self.succ_req(),
        ensures
            r == self.succ_spec(),
    ;
}

/// The previous representable value.
pub trait Pred: Sized {
    /// The inputs that have a predecessor.
    spec fn pred_req(self) -> bool;

    /// The predecessor.
    spec fn pred_spec(self) -> Self;

    fn pred(self) -> (r: Self)
        requires
            self.pred_req(),
        ensures
            r == self.pred_spec(),
    ;
}

/// The successor of `x`: the significand grows by one, rolling over from `max_sig`
/// to `min_sig` at the next exponent.
pub open spec fn spec_succ<T: Base>(x: (int, int)) -> (int, int) {
    if x.0 == spec_max_sig::<T>() {
        (spec_min_sig::<T>(), x.1 + 1)
    } else {
        (x.0 + 1, x.1)
    }
}

/// The predecessor of `x > 0`: the significand drops by one, rolling over from
/// `min_sig` to `max_sig` at the previous exponent.
pub open spec fn spec_pred<T: Base>(x: (int, int)) -> (int, int) {
    if x.1 == 0 {
        (x.0 - 1, 0)
    } else if x.0 == spec_min_sig::<T>() {
        (spec_max_sig::<T>(), x.1 - 1)
    } else {
        (x.0 - 1, x.1)
    }
}

impl<T: Base> Succ for BigNumBase<T> {
    /// Every value but the largest, `max_sig` at the largest exponent.
    open spec fn succ_req(self) -> bool {
        self.wf() && !(self.sig == spec_max_sig::<T>() && self.exp == u64::MAX)
    }

    open spec fn succ_spec(self) -> Self {
        self.with(spec_succ::<T>(self@))
    }

    fn succ(self) -> (r: Self)
        ensures
            r.wf(),
            r@ == spec_succ::<T>(self@),
    {
        proof {
            lemma_valid_base_facts(radix::<T>(), T::min_exp());
        }
        let SigRange(min_sig, max_sig) = self.base.sig_range();
        if self.sig == max_sig {
            BigNumBase { sig: min_sig, exp: self.exp + 1, base: self.base }
        } else {
            BigNumBase { sig: self.sig + 1, ..self }
        }
    }
}

impl<T: Base> Pred for BigNumBase<T> {
    /// Every value but zero.
    open spec fn pred_req(self) -> bool {
        self.wf() && !(self.sig == 0 && self.exp == 0)
    }

    open spec fn pred_spec(self) -> Self {
        self.with(spec_pred::<T>(self@))
    }

    fn pred(self) -> (r: Self)
        ensures
            r.wf(),
            r@ == spec_pred::<T>(self@),
    {
        proof {
            lemma_valid_base_facts(radix::<T>(), T::min_exp());
        }
        let SigRange(min_sig, max_sig) = self.base.sig_range();
        if self.exp == 0 {
            BigNumBase { sig: self.sig - 1, ..self }
        } else if self.sig == min_sig {
            BigNumBase { sig: max_sig, exp: self.exp - 1, base: self.base }
        } else {
            BigNumBase { sig: self.sig - 1, ..self }
        }
    }
}

} // verus!
