//! The timing sample of the pass, and the clock that it is taken from.

use std::time::Duration;
use std::time::Instant;
use vstd::prelude::*;

verus! {

/// A point on the monotonic clock of std. Nothing is known of its value.
#[verifier::external_type_specification]
#[verifier::external_body]
pub struct ExInstant(std::time::Instant);

/// `Instant::now` of std reads the monotonic clock. What it returns depends
/// on when it is called, so nothing is claimed of the result.
pub assume_specification[ Instant::now ]() -> (now: Instant)
;

/// `Instant::elapsed` of std gives the time that has passed since the instant
/// was taken. It depends on when it is called, so nothing is claimed of the
/// result.
pub assume_specification[ Instant::elapsed ](instant: &Instant) -> (elapsed: Duration)
;

/// Where the pass leaves its timing sample.
pub struct CollisionDiagnostics {
    /// How long the last pass over the contact registry took. Each pass
    /// overwrites it; nothing is accumulated.
    pub collision_events: Duration,
}

impl CollisionDiagnostics {
    /// Puts `elapsed` in place of the sample of the pass before.
    pub fn record(&mut self, elapsed: Duration)
        ensures
            final(self).collision_events == elapsed,
    {
        self.collision_events = elapsed;
    }
}

} // verus!
