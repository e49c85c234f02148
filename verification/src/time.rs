//! Spans of time and points in time, in whole nanoseconds.
//!
//! Nothing in this crate reads a clock: every operation that depends on the
//! time is handed the current [`Instant`].

use vstd::prelude::*;

verus! {

/// A span of time.
#[derive(Debug, Clone, Copy, PartialEq, Eq, Structural, Hash)]
pub struct Duration {
    pub nanos: u128,
}

impl Duration {
    /// The empty span.
    #[verifier::allow_in_spec]
    pub fn zero() -> Duration
        returns
            (Duration { nanos: 0 }),
    {
        Duration { nanos: 0 }
    }

    /// A span of whole milliseconds.
    pub fn from_millis(millis: u64) -> (r: Duration)
        ensures
            r.nanos == millis * 1_000_000,
    {
        Duration { nanos: millis as u128 * 1_000_000 }
    }

    /// Whether the span is empty.
    pub fn is_zero(&self) -> (r: bool)
        ensures
            r <==> self.nanos == 0,
    {
        self.nanos == 0
    }
}

/// A point in time, counted from an origin that all instants share.
#[derive(Debug, Clone, Copy, PartialEq, Eq, Structural, Hash)]
pub struct Instant {
    pub nanos: u128,
}

impl Instant {
    /// The instant that many nanoseconds after the origin.
    #[verifier::allow_in_spec]
    pub fn from_nanos(nanos: u128) -> Instant
        returns
            (Instant { nanos }),
    {
        Instant { nanos }
    }

    /// The time from `earlier` to this instant, if this instant is not the earlier one.
    pub fn checked_duration_since(&self, earlier: Instant) -> (r: Option<Duration>)
        ensures
            match r {
                Some(elapsed) => elapsed.nanos == self.nanos - earlier.nanos,
                None => self.nanos < earlier.nanos,
            },
    {
        if self.nanos < earlier.nanos {
            None
        } else {
            Some(Duration { nanos: self.nanos - earlier.nanos })
        }
    }

    /// The time from `earlier` to this instant, or nothing if this instant is the earlier one.
    pub fn saturating_duration_since(&self, earlier: Instant) -> (r: Duration)
        ensures
            r.nanos == self.nanos_since(earlier),
    {
        if self.nanos < earlier.nanos {
            Duration { nanos: 0 }
        } else {
            Duration { nanos: self.nanos - earlier.nanos }
        }
    }

    /// The instant a span later.
    pub open spec fn plus(self, span: Duration) -> Instant
        recommends
            self.nanos + span.nanos <= u128::MAX,
    {
        Instant { nanos: (self.nanos + span.nanos) as u128 }
    }

    /// The nanoseconds that have passed since `earlier`: none if it lies ahead.
    pub open spec fn nanos_since(self, earlier: Instant) -> int {
        if self.nanos < earlier.nanos {
            0
        } else {
            self.nanos - earlier.nanos
        }
    }
}

/// The instant a span later, where it can be represented.
impl core::ops::Add<Duration> for Instant {
    type Output = Instant;

    fn add(self, span: Duration) -> (r: Instant) {
        Instant { nanos: self.nanos + span.nanos }
    }
}

impl vstd::std_specs::ops::AddSpecImpl<Duration> for Instant {
    open spec fn obeys_add_spec() -> bool {
        true
    }

    open spec fn add_req(self, span: Duration) -> bool {
        self.nanos + span.nanos <= u128::MAX
    }

    open spec fn add_spec(self, span: Duration) -> Instant {
        self.plus(span)
    }
}

} // verus!
