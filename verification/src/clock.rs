//! The monotonic clock.
use std::time::Instant;
use vstd::prelude::*;

verus! {

/// `std::time::Instant`, carried through and never looked into.
#[verifier::external_type_specification]
#[verifier::external_body]
pub struct ExInstant(Instant);

/// `Instant::now`. Which moment it is, nothing says.
pub assume_specification[ Instant::now ]() -> (r: Instant);

/// `Instant::elapsed`, in nanoseconds. The result is the time that has passed,
/// of which nothing can be said ahead.
#[verifier::external_body]
pub(crate) fn nanos_since(origin: &Instant) -> (r: u128) {
    origin.elapsed().as_nanos()
}

} // verus!
