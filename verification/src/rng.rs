//! Randomness used by the spawning logic, behind trusted wrappers. Nothing
//! is assumed of an outcome beyond the bounds the sampling functions
//! document, so every caller is verified for every value that can come back.

use rand::Rng;
use vstd::prelude::*;

verus! {

/// Relies on rand::random::<bool>: a coin flip. Either outcome may come
/// back, so nothing is promised of the result.
#[verifier::external_body]
pub(crate) fn coin() -> bool {
    rand::random::<bool>()
}

/// Relies on rand::Rng::gen_range (through rand::thread_rng) on the
/// half-open range lo..hi: the sample lies in [lo, hi). gen_range panics on
/// an empty range, which the precondition rules out.
#[verifier::external_body]
pub(crate) fn range_u64(lo: u64, hi: u64) -> (r: u64)
    requires
        lo < hi,
    ensures
        lo <= r < hi,
{
    rand::thread_rng().gen_range(lo..hi)
}

} // verus!
