//! The crate's only source of randomness: a uniform draw from a bounded
//! range, used for the randomized difficulty tiers and for breaking ties
//! between equally good search moves.

use rand::Rng;
use vstd::prelude::*;

verus! {

/// Relies on `rand::thread_rng` and `rand::Rng::gen_range`: the sample
/// lies in the half-open range it is drawn from.  `gen_range` panics on
/// an empty range, so the bound must be positive.  Nothing more is
/// taken on trust: every caller is verified for every value below `n`.
#[verifier::external_body]
pub(crate) fn random_below(n: usize) -> (r: usize)
    requires
        n >= 1,
    ensures
        r < n,
{
    rand::thread_rng().gen_range(0..n)
}

} // verus!
