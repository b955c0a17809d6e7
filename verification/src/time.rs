//! Points in time and spans of time, counted in nanoseconds.

use vstd::prelude::*;

verus! {

/// A point on a monotonic clock, in nanoseconds from an origin that the clock's reader chose.
#[derive(Debug, Clone, Copy, PartialEq, Eq, Structural)]
pub struct Instant {
    /// Nanoseconds after the origin; negative before it.
    pub nanos: i128,
}

/// A span of time in nanoseconds.
#[derive(Debug, Clone, Copy, PartialEq, Eq, Structural)]
pub struct Duration {
    /// The length of the span.
    pub nanos: u128,
}

impl Duration {
    /// The empty span.
    #[verifier::allow_in_spec]
    pub fn zero() -> Duration
        returns
            (Duration { nanos: 0 }),
    {
        Duration { nanos: 0 }
    }
}

impl Instant {
    /// The time from `earlier` to `self`.
    pub fn duration_since(self, earlier: Instant) -> (span: Duration)
        requires
            earlier.nanos <= self.nanos,
        ensures
            span.nanos == self.nanos - earlier.nanos,
    {
        let nanos: u128 = if earlier.nanos >= 0 || self.nanos < 0 {
            (self.nanos - earlier.nanos) as u128
        } else {
            // The two lie on either side of the origin: their distance may exceed `i128::MAX`.
            (self.nanos as u128) + ((-(earlier.nanos + 1)) as u128) + 1
        };
        Duration { nanos }
    }
}

} // verus!
