//! Points in time and spans of time.

use vstd::prelude::*;

verus! {

/// The nanoseconds of a second.
pub const NANOS_PER_SEC: i128 = 1_000_000_000;

/// The first second that a timestamp can denote, counted from the Unix epoch:
/// the start of the year -262143.
pub const MIN_SECS: i64 = -8_334_601_228_800;

/// The last second that a timestamp can denote, counted from the Unix epoch:
/// the end of the year 262142.
pub const MAX_SECS: i64 = 8_210_266_876_799;

/// The greatest number of whole seconds of a [`Duration`].
pub const MAX_DURATION_SECS: i64 = 9_223_372_036_854_775;

/// A point in time, in UTC.
#[derive(Debug, Clone, Copy, PartialEq, Eq, PartialOrd, Ord, Structural)]
pub struct Timestamp {
    secs: i64,
    nanos: u32,
}

impl View for Timestamp {
    type V = int;

    /// The nanoseconds since the Unix epoch.
    closed spec fn view(&self) -> int {
        self.secs * NANOS_PER_SEC + self.nanos
    }
}

/// Whether a timestamp can have these parts.
pub open spec fn valid_parts(secs: i64, nanos: u32) -> bool {
    MIN_SECS <= secs <= MAX_SECS && nanos < NANOS_PER_SEC
}

/// The clock, as whole seconds since the Unix epoch and nanoseconds of the
/// second.
///
/// Calls `chrono::Utc::now`, and `timestamp` and `timestamp_subsec_nanos` on
/// what it returns. The current time is whatever the machine says; what is
/// claimed of it is that it is not before the epoch, that it is in the range
/// of `chrono`, and that the nanoseconds are less than a second.
#[verifier::external_body]
fn utc_now() -> (parts: (i64, u32))
    ensures
        0 <= parts.0,
        valid_parts(parts.0, parts.1),
{
    let now = chrono::Utc::now();
    (now.timestamp(), now.timestamp_subsec_nanos())
}

impl Timestamp {
    #[verifier::type_invariant]
    spec fn in_range(self) -> bool {
        valid_parts(self.secs, self.nanos)
    }

    /// 1970-01-01 00:00:00 UTC.
    pub fn unix_epoch() -> (t: Timestamp)
        ensures
            t@ == 0,
    {
        Timestamp { secs: 0, nanos: 0 }
    }

    /// The current time.
    pub fn now() -> (t: Timestamp)
        ensures
            0 <= t@,
    {
        let (secs, nanos) = utc_now();
        Timestamp { secs, nanos }
    }

    /// The point in time at a number of seconds since the Unix epoch and
    /// nanoseconds of that second.
    pub fn from_parts(secs: i64, nanos: u32) -> (t: Option<Timestamp>)
        ensures
            t is Some <==> valid_parts(secs, nanos),
            t matches Some(x) ==> x@ == secs * NANOS_PER_SEC + nanos,
    {
        if MIN_SECS <= secs && secs <= MAX_SECS && (nanos as i128) < NANOS_PER_SEC {
            Some(Timestamp { secs, nanos })
        } else {
            None
        }
    }

    /// The whole seconds since the Unix epoch and the nanoseconds of the
    /// second.
    pub fn parts(&self) -> (parts: (i64, u32))
        ensures
            valid_parts(parts.0, parts.1),
            self@ == parts.0 * NANOS_PER_SEC + parts.1,
    {
        proof {
            use_type_invariant(self);
        }
        (self.secs, self.nanos)
    }

    /// The nanoseconds since the Unix epoch.
    pub fn as_nanos(&self) -> (nanos: i128)
        ensures
            nanos == self@,
            MIN_SECS * NANOS_PER_SEC <= nanos < (MAX_SECS + 1) * NANOS_PER_SEC,
    {
        proof {
            use_type_invariant(self);
        }
        self.secs as i128 * NANOS_PER_SEC + self.nanos as i128
    }

    /// The nanoseconds from `earlier` to this point, negative if `earlier` is
    /// later.
    pub fn nanos_since(&self, earlier: &Timestamp) -> (nanos: i128)
        ensures
            nanos == self@ - earlier@,
            -(MAX_SECS + 1 - MIN_SECS) * NANOS_PER_SEC < nanos < (MAX_SECS + 1 - MIN_SECS)
                * NANOS_PER_SEC,
    {
        self.as_nanos() - earlier.as_nanos()
    }
}

/// The whole seconds in a number of nanoseconds, rounded toward zero.
pub open spec fn whole_seconds(nanos: int) -> int {
    if nanos >= 0 {
        nanos / (NANOS_PER_SEC as int)
    } else {
        -((-nanos) / (NANOS_PER_SEC as int))
    }
}

/// The whole seconds in a number of nanoseconds, rounded toward zero.
pub fn num_seconds(nanos: i128) -> (secs: i128)
    requires
        nanos > i128::MIN,
    ensures
        secs == whole_seconds(nanos as int),
{
    if nanos >= 0 {
        nanos / NANOS_PER_SEC
    } else {
        -((-nanos) / NANOS_PER_SEC)
    }
}

/// A span of time.
#[derive(Debug, Clone, Copy, PartialEq, Eq, PartialOrd, Ord, Structural)]
pub struct Duration {
    nanos: i128,
}

impl View for Duration {
    type V = int;

    /// The nanoseconds.
    closed spec fn view(&self) -> int {
        self.nanos as int
    }
}

/// Whether so many seconds are a span of time that can be held.
pub open spec fn seconds_in_range(secs: int) -> bool {
    -MAX_DURATION_SECS <= secs <= MAX_DURATION_SECS
}

impl Duration {
    #[verifier::type_invariant]
    spec fn in_range(self) -> bool {
        -MAX_DURATION_SECS * NANOS_PER_SEC <= self.nanos <= MAX_DURATION_SECS * NANOS_PER_SEC
    }

    /// No time.
    pub fn zero() -> (d: Duration)
        ensures
            d@ == 0,
    {
        Duration { nanos: 0 }
    }

    /// A number of seconds.
    pub fn seconds(secs: i64) -> (d: Duration)
        requires
            seconds_in_range(secs as int),
        ensures
            d@ == secs * NANOS_PER_SEC,
    {
        Duration { nanos: secs as i128 * NANOS_PER_SEC }
    }

    /// A number of hours.
    pub fn hours(hours: i64) -> (d: Duration)
        requires
            seconds_in_range(hours * 3600),
        ensures
            d@ == hours * 3600 * NANOS_PER_SEC,
    {
        Duration::seconds(hours * 3600)
    }

    /// The nanoseconds.
    pub fn as_nanos(&self) -> (nanos: i128)
        ensures
            nanos == self@,
            -MAX_DURATION_SECS * NANOS_PER_SEC <= nanos <= MAX_DURATION_SECS * NANOS_PER_SEC,
    {
        proof {
            use_type_invariant(self);
        }
        self.nanos
    }
}

/// Whole seconds are those that are full, counted toward zero.
pub proof fn law_whole_seconds(nanos: int)
    ensures
        nanos >= 0 ==> whole_seconds(nanos) * 1_000_000_000 <= nanos < (whole_seconds(nanos) + 1)
            * 1_000_000_000,
        whole_seconds(-nanos) == -whole_seconds(nanos),
{
}

/// The spans and points of time that can be held: spans of up to
/// 9223372036854775 seconds either way, and points from the year -262143 to the
/// year 262142, to the nanosecond.
pub proof fn law_ranges_of_time(secs: int, whole: i64, nanos: u32)
    ensures
        seconds_in_range(secs) <==> -9_223_372_036_854_775 <= secs <= 9_223_372_036_854_775,
        valid_parts(whole, nanos) <==> -8_334_601_228_800 <= whole <= 8_210_266_876_799 && nanos
            <= 999_999_999,
{
}

} // verus!
