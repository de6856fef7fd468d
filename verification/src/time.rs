//! Lengths of time, counted in nanoseconds.

use vstd::prelude::*;

verus! {

/// A length of time.
#[derive(Debug, Clone, Copy, PartialEq, Eq, Structural)]
pub struct Duration {
    pub nanos: u128,
}

impl Duration {
    /// No time at all.
    pub fn zero() -> (r: Duration)
        ensures
            r.nanos == 0,
    {
        Duration { nanos: 0 }
    }

    pub fn from_secs(secs: u64) -> (r: Duration)
        ensures
            r.nanos == secs * 1_000_000_000,
    {
        Duration { nanos: secs as u128 * 1_000_000_000 }
    }

    pub fn from_millis(millis: u64) -> (r: Duration)
        ensures
            r.nanos == millis * 1_000_000,
    {
        Duration { nanos: millis as u128 * 1_000_000 }
    }

    /// Whole seconds.
    pub fn as_secs(&self) -> (r: u128)
        ensures
            r == self.nanos / 1_000_000_000,
    {
        self.nanos / 1_000_000_000
    }

    /// Whole milliseconds.
    pub fn as_millis(&self) -> (r: u128)
        ensures
            r == self.nanos / 1_000_000,
    {
        self.nanos / 1_000_000
    }
}

} // verus!
