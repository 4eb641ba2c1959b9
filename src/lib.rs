//! Fixed-size approximate big numbers: a `u64` significand and a `u64` exponent over
//! any radix from 2 to 65535.
pub mod base;
pub mod bignum;
pub mod cache;
pub mod display;
pub mod laws;
pub mod ops;
pub mod power;
pub mod traits;

pub use base::{Base, Binary, Decimal, ExpRange, Hexadecimal, Octal, Radix, SigRange};
pub use bignum::{BigNumBase, BigNumBin, BigNumDec, BigNumHex, BigNumOct};
pub use cache::{
    get_cached_exp_range, get_cached_mag_arbitrary, get_cached_pow, get_cached_sig_range,
    BaseCache, BaseData,
};
pub use traits::{Pred, Succ};
