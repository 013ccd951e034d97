//! The monotonic clock, as the library sees it: points and spans are
//! opaque, and what the clock answers is not stated.

use vstd::prelude::*;
use std::time::{Duration, Instant};

verus! {

/// `std::time::Instant`, a point on the monotonic clock.
#[verifier::external_type_specification]
#[verifier::external_body]
pub struct ExInstant(Instant);

/// `Instant::now`: the current time. Nothing is promised of the value.
#[verifier::external_body]
pub(crate) fn clock_now() -> Instant {
    Instant::now()
}

/// `Instant::checked_add`: the instant `d` after `start`, or `None` when the
/// clock cannot represent it. Nothing else is promised of the value.
#[verifier::external_body]
pub(crate) fn instant_after(start: Instant, d: Duration) -> Option<Instant> {
    start.checked_add(d)
}

/// `Instant >= Instant`. Its answer depends on the clock and is not stated.
#[verifier::external_body]
pub(crate) fn instant_reached(now: Instant, deadline: Instant) -> bool {
    now >= deadline
}

/// `Duration::clone`: `Duration` is `Copy`, so the clone is the same value.
pub assume_specification[ <Duration as Clone>::clone ](d: &Duration) -> (r: Duration)
    ensures
        r == *d,
;

/// `Duration::from_millis`. The value is opaque here.
#[verifier::external_body]
pub(crate) fn duration_from_millis(ms: u64) -> Duration {
    Duration::from_millis(ms)
}

} // verus!
