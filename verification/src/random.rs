//! The one source of chance: uniform integers from the thread's generator.

use rand::Rng;
use vstd::prelude::*;

verus! {

/// Draws an integer from `lo` up to but not including `hi`.
///
/// Calls `rand::Rng::gen_range` on `rand::thread_rng()` with the half-open
/// range `lo..hi`. That call panics on an empty range, which `requires`
/// leaves out. Of the outcome only its bounds are claimed: two draws from
/// one range may differ.
///
/// The thread's generator seeds itself from the system's entropy source,
/// at first use and again from time to time, and panics if that source
/// fails. No condition on the arguments can rule this out; it is a
/// failure of the machine, like running out of memory.
#[verifier::external_body]
pub(crate) fn random_in_range(lo: i64, hi: i64) -> (r: i64)
    requires
        lo < hi,
    ensures
        lo <= r < hi,
{
    rand::thread_rng().gen_range(lo..hi)
}

} // verus!
