//! Wall-clock reading for the search bailout.

use vstd::prelude::*;

verus! {

#[verifier::external_type_specification]
#[verifier::external_body]
pub struct ExInstant(std::time::Instant);

/// Relies on std::time::Instant::now: the current instant.
#[verifier::external_body]
pub(crate) fn now() -> (r: std::time::Instant) {
    std::time::Instant::now()
}

/// Relies on std::time::Instant::elapsed: nanoseconds since `start`.
#[verifier::external_body]
pub(crate) fn elapsed_nanos(start: &std::time::Instant) -> (r: u128) {
    start.elapsed().as_nanos()
}

/// Whether `elapsed_nanos` nanoseconds exceed `bailout_ms` milliseconds.
pub fn exceeds(elapsed_nanos: u128, bailout_ms: u64) -> (r: bool)
    ensures
        r == (elapsed_nanos > bailout_ms as u128 * 1_000_000),
{
    let limit: u128 = bailout_ms as u128 * 1_000_000u128;
    elapsed_nanos > limit
}

/// Whether more than `bailout_ms` milliseconds have passed since `start`;
/// the answer depends on the clock.
pub fn bailout_passed(start: &std::time::Instant, bailout_ms: u64) -> (r: bool) {
    exceeds(elapsed_nanos(start), bailout_ms)
}

} // verus!
