//! Trusted surface over the process's random number generator.

use vstd::prelude::*;

verus! {

/// Relies on rand's RngExt::random_range over rand::rng(): a value drawn
/// from the half-open range. It panics only on an empty range, which the
/// precondition rules out; nothing more is promised of a random draw.
#[verifier::external_body]
pub fn random_in_range(lo: u64, hi: u64) -> (r: u64)
    requires
        lo < hi,
    ensures
        lo <= r < hi,
{
    <rand::rngs::ThreadRng as rand::RngExt>::random_range(&mut rand::rng(), lo..hi)
}

} // verus!
