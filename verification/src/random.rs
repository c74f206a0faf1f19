//! Randomness drawn from outside the crate: fresh message identifiers and
//! uniform index choices.  Both results are random, so the callers state
//! only what holds of every outcome.

use vstd::prelude::*;

verus! {

/// Generates a fresh 128-bit message identifier.
///
/// Relies on `uuid::Uuid::new_v4`, which draws a random version-4 UUID
/// from the process entropy source, and on `uuid::Uuid::as_u128`, which
/// packs its sixteen bytes into one integer.  The value is random, so
/// nothing is promised of it.
#[verifier::external_body]
pub fn gen_msg_id() -> u128 {
    uuid::Uuid::new_v4().as_u128()
}

/// Draws a uniformly random index strictly below `n`.
///
/// Relies on `rand::random_range`, which returns a value inside the given
/// half-open range and panics only when the range is empty; `n >= 1`
/// rules the empty range out.
#[verifier::external_body]
pub fn rand_below(n: usize) -> (r: usize)
    requires
        n >= 1,
    ensures
        r < n,
{
    rand::random_range(0..n)
}

} // verus!
