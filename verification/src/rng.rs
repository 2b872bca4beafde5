//! The one point where the crate consumes randomness.

use vstd::prelude::*;

verus! {

/// Draws a uniformly distributed value in the half-open range `[lo, hi)`.
///
/// Relies on `rand::Rng::gen_range` on a `thread_rng`: it panics on an
/// empty range (excluded here) and otherwise returns a value inside the
/// range.
#[verifier::external_body]
pub(crate) fn random_in_range(lo: i64, hi: i64) -> (r: i64)
    requires
        lo < hi,
    ensures
        lo <= r < hi,
{
    rand::Rng::gen_range(&mut rand::thread_rng(), lo..hi)
}

} // verus!
