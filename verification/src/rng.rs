use vstd::prelude::*;

verus! {

/// Relies on rand::random_range over `lo..hi`: a uniform draw that lies
/// within the half-open range (it panics only on an empty range, which the
/// precondition rules out).
#[verifier::external_body]
pub(crate) fn random_in_range(lo: u64, hi: u64) -> (r: u64)
    requires
        lo < hi,
    ensures
        lo <= r < hi,
{
    rand::random_range(lo..hi)
}

/// Relies on rand::random: a uniform draw over the whole 64-bit id space.
/// Nothing can be promised of a random value.
#[verifier::external_body]
pub(crate) fn random_id() -> u64 {
    rand::random()
}

} // verus!
