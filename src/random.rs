//! Random draws, taken from the `rand` crate.
use vstd::prelude::*;

verus! {

/// Relies on `rand::random_range` over `lo..=hi`: the value drawn lies in that
/// range. It panics on an empty range, which `requires` leaves out.
#[verifier::external_body]
pub(crate) fn random_between(lo: i64, hi: i64) -> (r: i64)
    requires
        lo <= hi,
    ensures
        lo <= r <= hi,
{
    rand::random_range(lo..=hi)
}

} // verus!
