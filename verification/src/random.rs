use vstd::prelude::*;

use rand::RngExt;

verus! {

/// A number drawn from the thread-local generator of `rand`, uniformly from
/// `lo..=hi` (`rand::rng().random_range(lo..=hi)`).
///
/// The contract claims only what holds of every draw: the result lies in the
/// inclusive range. `random_range` panics on an empty range, so the range must
/// not be empty.
#[verifier::external_body]
pub fn rri(lo: i32, hi: i32) -> (r: i32)
    requires
        lo <= hi,
    ensures
        lo <= r <= hi,
{
    rand::rng().random_range(lo..=hi)
}

} // verus!
