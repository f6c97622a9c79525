//! Points in time, counted in nanoseconds from the Unix epoch.

use vstd::prelude::*;

verus! {

/// Nanoseconds in one second.
pub const NANOS_PER_SEC: i128 = 1_000_000_000;

/// Nanoseconds in one microsecond.
pub const NANOS_PER_MICRO: i128 = 1_000;

/// Largest distance from the epoch, in nanoseconds, that a [`Timestamp`] holds.
pub const TIMESTAMP_BOUND: i128 = 0x1_0000_0000_0000_0000_0000_0000;

/// A point in time. Its view is the signed number of nanoseconds since the
/// Unix epoch.
#[derive(Debug, Clone, Copy, PartialEq, Eq, Structural, PartialOrd, Ord, Hash)]
pub struct Timestamp {
    nanos: i128,
}

impl View for Timestamp {
    type V = int;

    closed spec fn view(&self) -> int {
        self.nanos as int
    }
}

impl Timestamp {
    #[verifier::type_invariant]
    spec fn in_bounds(self) -> bool {
        -TIMESTAMP_BOUND <= self.nanos <= TIMESTAMP_BOUND
    }

    /// The point `secs` seconds and `subsec_nanos` nanoseconds after the epoch.
    pub fn from_unix(secs: i64, subsec_nanos: u32) -> (t: Timestamp)
        ensures
            t@ == secs * 1_000_000_000 + subsec_nanos,
    {
        let whole: i128 = secs as i128 * NANOS_PER_SEC;
        Timestamp { nanos: whole + subsec_nanos as i128 }
    }

    /// The point `micros` microseconds after the epoch.
    pub fn from_micros(micros: u64) -> (t: Timestamp)
        ensures
            t@ == micros * 1_000,
    {
        Timestamp { nanos: micros as i128 * NANOS_PER_MICRO }
    }

    /// Whole seconds from the epoch to this point, rounded towards the past.
    pub fn unix_secs(&self) -> (secs: i128)
        ensures
            secs * 1_000_000_000 <= self@ < (secs + 1) * 1_000_000_000,
    {
        proof {
            use_type_invariant(self);
        }
        let q: i128 = self.nanos / NANOS_PER_SEC;
        let r: i128 = self.nanos % NANOS_PER_SEC;
        if r < 0 {
            q - 1
        } else {
            q
        }
    }

    /// The later of two points.
    pub fn max(self, other: Timestamp) -> (m: Timestamp)
        ensures
            m@ == if self@ >= other@ { self@ } else { other@ },
            m == self || m == other,
    {
        if self.nanos >= other.nanos {
            self
        } else {
            other
        }
    }

    /// Whether this point lies strictly before `other`.
    pub fn is_before(&self, other: &Timestamp) -> (b: bool)
        ensures
            b == (self@ < other@),
    {
        self.nanos < other.nanos
    }

    /// Whether this point and `other` are the same.
    pub fn is_same(&self, other: &Timestamp) -> (b: bool)
        ensures
            b == (self@ == other@),
    {
        self.nanos == other.nanos
    }

    /// Whether at `now` at least `seconds` whole seconds have passed since this
    /// point. A point that lies after `now` has no age.
    pub fn aged(&self, now: &Timestamp, seconds: u64) -> (b: bool)
        ensures
            b == spec_aged(self@, now@, seconds),
    {
        proof {
            use_type_invariant(self);
            use_type_invariant(now);
        }
        let needed: i128 = seconds as i128 * NANOS_PER_SEC;
        now.nanos - self.nanos >= needed
    }
}

/// At `now` at least `seconds` whole seconds have passed since `then`; all
/// points in nanoseconds.
pub open spec fn spec_aged(then: int, now: int, seconds: u64) -> bool {
    now - then >= seconds * 1_000_000_000
}

} // verus!
