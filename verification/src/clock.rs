//! Measuring how long an analysis takes.

use vstd::prelude::*;

verus! {

/// std's `Instant`: a moment of the clock, carried through as it is.
#[verifier::external_type_specification]
#[verifier::external_body]
pub struct ExInstant(std::time::Instant);

/// Calls `Instant::now`. Trusted; the instant depends on when it is taken,
/// and nothing is promised of it.
#[verifier::external_body]
pub(crate) fn clock_now() -> (now: std::time::Instant) {
    std::time::Instant::now()
}

/// Calls `Instant::elapsed`. Trusted; the time depends on when it is
/// taken, and nothing is promised of it.
#[verifier::external_body]
pub(crate) fn time_since(start: &std::time::Instant) -> (elapsed: std::time::Duration) {
    start.elapsed()
}

/// Calls `Duration::as_millis`. Trusted; nothing is promised of the
/// number.
#[verifier::external_body]
pub(crate) fn whole_millis(time: &std::time::Duration) -> (millis: u128) {
    time.as_millis()
}

/// A number of milliseconds as a snapshot holds it: the largest number
/// that it can hold where the time is longer.
pub fn bounded_millis(millis: u128) -> (bounded: u64)
    ensures
        millis <= u64::MAX ==> bounded == millis,
        millis > u64::MAX ==> bounded == u64::MAX,
{
    if millis > u64::MAX as u128 {
        u64::MAX
    } else {
        millis as u64
    }
}

/// The milliseconds since `start`, as a snapshot holds them.
pub(crate) fn elapsed_millis(start: &std::time::Instant) -> (millis: u64) {
    let elapsed = time_since(start);
    bounded_millis(whole_millis(&elapsed))
}

} // verus!
