//! The random source, behind one trusted wrapper.

use vstd::prelude::*;

use rand::RngExt;

verus! {

/// Relies on `rand::rng()` and `rand::RngExt::random_range` over the
/// half-open range `low..high`: for a non-empty range the sample is a
/// value of the range; an empty range would panic, so it is excluded.
#[verifier::external_body]
pub(crate) fn rand_int_range(low: i32, high: i32) -> (r: i32)
    requires
        low < high,
    ensures
        low <= r < high,
{
    rand::rng().random_range(low..high)
}

} // verus!
