//! Spans of time.
use vstd::prelude::*;

verus! {

/// A span of time, in whole nanoseconds.
#[derive(Debug, Clone, Copy, PartialEq, Eq, PartialOrd, Ord, Hash)]
pub struct Duration {
    /// How many nanoseconds the span lasts.
    pub nanos: u64,
}

impl Duration {
    /// A span of `micros` microseconds.
    pub fn from_micros(micros: u64) -> (d: Self)
        requires
            micros * 1000 <= u64::MAX,
        ensures
            d.nanos == micros * 1000,
    {
        Duration { nanos: micros * 1000 }
    }

    /// A span of `millis` milliseconds.
    pub fn from_millis(millis: u64) -> (d: Self)
        requires
            millis * 1_000_000 <= u64::MAX,
        ensures
            d.nanos == millis * 1_000_000,
    {
        Duration { nanos: millis * 1_000_000 }
    }

    /// A span of `secs` seconds.
    pub fn from_secs(secs: u64) -> (d: Self)
        requires
            secs * 1_000_000_000 <= u64::MAX,
        ensures
            d.nanos == secs * 1_000_000_000,
    {
        Duration { nanos: secs * 1_000_000_000 }
    }

    /// The whole microseconds in the span.
    pub fn as_micros(&self) -> (micros: u64)
        ensures
            micros == self.nanos / 1000,
    {
        self.nanos / 1000
    }
}

}
