//! The monotonic clock that bounds incremental collector steps and times
//! collector pauses.

use vstd::prelude::*;

use std::time::{Duration, Instant};

verus! {

#[verifier::external_type_specification]
#[verifier::external_body]
pub struct ExInstant(Instant);

/// `Instant::now()`: the current reading of the monotonic clock.
#[verifier::external_body]
pub(crate) fn clock_now() -> Instant {
    Instant::now()
}

/// `Instant`'s `>=`: whether `a` is at or after `b`. An instant is opaque
/// here, so nothing is promised of the answer.
#[verifier::external_body]
fn instant_at_or_after(a: &Instant, b: &Instant) -> bool {
    *a >= *b
}

/// Whether the deadline has passed: the clock reads at or after it.
pub(crate) fn deadline_passed(deadline: &Instant) -> bool {
    let now = clock_now();
    instant_at_or_after(&now, deadline)
}

/// `Instant::elapsed`: the time since `start`. Nothing is promised of it:
/// it depends on the clock.
#[verifier::external_body]
pub(crate) fn elapsed_since(start: &Instant) -> Duration {
    start.elapsed()
}

/// `Duration::as_nanos`: the length of `d` in nanoseconds. A duration is
/// opaque here, so nothing is stated of the number.
#[verifier::external_body]
pub(crate) fn duration_nanos(d: &Duration) -> u128 {
    d.as_nanos()
}

} // verus!
