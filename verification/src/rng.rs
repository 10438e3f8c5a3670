//! Random draws from the process entropy source.
//!
//! Nothing is assumed of a draw beyond its range: every function that
//! consumes one is verified for every value the range admits.

use vstd::prelude::*;
use rand::Rng;

verus! {

/// Relies on `rand::thread_rng` and `rand::Rng::gen_range`: a draw in
/// `[lo, hi)`. `gen_range` panics only on an empty range, which the
/// precondition rules out.
#[verifier::external_body]
pub(crate) fn draw_range(lo: u64, hi: u64) -> (r: u64)
    requires
        lo < hi,
    ensures
        lo <= r < hi,
{
    rand::thread_rng().gen_range(lo..hi)
}

} // verus!
