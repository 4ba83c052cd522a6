//! The library's only randomness source: one trusted wrapper over `rand`.
//!
//! Every stochastic choice of the renderer (lens sampling, scatter
//! directions, the reflect-or-refract coin) is a draw of a raw
//! fixed-point value through [`random_raw_in`].  Nothing is promised of
//! a draw beyond its range, so everything proved downstream holds for
//! every possible sequence of draws.

use vstd::prelude::*;

verus! {

/// Relies on rand::random_range over `lo..hi` on `i64`: it panics only
/// on an empty range and returns a value of that range.
#[verifier::external_body]
pub(crate) fn random_raw_in(lo: i64, hi: i64) -> (r: i64)
    requires
        lo < hi,
    ensures
        lo <= r < hi,
{
    rand::random_range(lo..hi)
}

} // verus!
