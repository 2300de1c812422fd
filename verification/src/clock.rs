//! Time values as plain integers: a span of time (`Duration`, seconds plus
//! sub-second nanoseconds, like `std::time::Duration`) and an instant on the
//! UTC clock (`Timestamp`, seconds since the Unix epoch plus nanoseconds).
use vstd::prelude::*;

verus! {

/// Nanoseconds per second.
pub const NANOS_PER_SEC: u32 = 1_000_000_000;

/// A non-negative span of time.
#[derive(Debug, Clone, Copy, PartialEq, Eq)]
pub struct Duration {
    pub secs: u64,
    /// Always below one second.
    pub nanos: u32,
}

impl Duration {
    /// The span's length in nanoseconds.
    pub open spec fn total_nanos(self) -> nat {
        (self.secs * 1_000_000_000 + self.nanos) as nat
    }

    /// Sub-second part within range.
    pub open spec fn wf(self) -> bool {
        self.nanos < 1_000_000_000
    }

    /// The empty span.
    pub fn zero() -> (d: Duration)
        ensures
            d.secs == 0 && d.nanos == 0,
    {
        Duration { secs: 0, nanos: 0 }
    }

    /// A span of whole seconds.
    pub fn from_secs(secs: u64) -> (d: Duration)
        ensures
            d.secs == secs && d.nanos == 0,
    {
        Duration { secs, nanos: 0 }
    }

    /// A span of whole milliseconds.
    pub fn from_millis(millis: u64) -> (d: Duration)
        ensures
            d.wf(),
            d.total_nanos() == millis * 1_000_000,
    {
        let d = Duration { secs: millis / 1000, nanos: ((millis % 1000) * 1_000_000) as u32 };
        assert(d.total_nanos() == millis * 1_000_000) by (nonlinear_arith)
            requires
                d.secs == millis / 1000,
                d.nanos == (millis % 1000) * 1_000_000,
        ;
        d
    }

    /// Whole seconds of the span.
    pub fn as_secs(&self) -> (s: u64)
        ensures
            s == self.secs,
    {
        self.secs
    }

    /// Sub-second nanoseconds of the span.
    pub fn subsec_nanos(&self) -> (n: u32)
        ensures
            n == self.nanos,
    {
        self.nanos
    }
}

/// An instant of UTC time.
#[derive(Debug, Clone, Copy, PartialEq, Eq)]
pub struct Timestamp {
    /// Seconds since 1970-01-01T00:00:00Z (negative before it).
    pub secs: i64,
    /// Always below one second.
    pub nanos: u32,
}

impl Timestamp {
    /// Nanoseconds since the epoch.
    pub open spec fn total_nanos(self) -> int {
        self.secs * 1_000_000_000 + self.nanos
    }

    /// Sub-second part within range.
    pub open spec fn wf(self) -> bool {
        self.nanos < 1_000_000_000
    }
}

/// Euclidean split of a signed nanosecond count into seconds and nanoseconds.
pub open spec fn secs_of_nanos(n: int) -> int {
    n / 1_000_000_000
}

} // verus!
