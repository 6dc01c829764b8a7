//! Wall-clock timestamps with millisecond resolution.

use vstd::prelude::*;

verus! {

/// A point in time, counted in milliseconds since the Unix epoch (UTC).
#[derive(Debug, Clone, Copy, PartialEq, Eq, Structural, Hash)]
pub struct Timestamp {
    pub millis: i64,
}

/// Number of milliseconds in one second.
pub const MILLIS_PER_SECOND: u64 = 1000;

/// Number of milliseconds in one hour.
pub const MILLIS_PER_HOUR: u64 = 3_600_000;

impl Timestamp {
    /// Milliseconds from `earlier` to `self`; zero when `self` is not later.
    pub open spec fn spec_millis_since(self, earlier: Timestamp) -> int {
        if self.millis > earlier.millis {
            self.millis - earlier.millis
        } else {
            0
        }
    }

    /// Whole seconds from `earlier` to `self`; zero when `self` is not later.
    pub open spec fn spec_seconds_since(self, earlier: Timestamp) -> int {
        self.spec_millis_since(earlier) / 1000
    }

    /// Whether `self` lies more than `seconds` seconds before `now`.
    pub open spec fn spec_older_than_seconds(self, now: Timestamp, seconds: u64) -> bool {
        self.millis + seconds * 1000 < now.millis
    }

    /// Whether `self` lies more than `hours` hours before `now`.
    pub open spec fn spec_older_than_hours(self, now: Timestamp, hours: u32) -> bool {
        self.millis + hours * 3_600_000 < now.millis
    }

    pub fn from_millis(millis: i64) -> (t: Timestamp)
        ensures
            t.millis == millis,
    {
        Timestamp { millis }
    }

    pub fn millis_since(self, earlier: Timestamp) -> (r: u64)
        ensures
            r == self.spec_millis_since(earlier),
    {
        let d: i128 = self.millis as i128 - earlier.millis as i128;
        if d > 0 {
            d as u64
        } else {
            0
        }
    }

    pub fn seconds_since(self, earlier: Timestamp) -> (r: u64)
        ensures
            r == self.spec_seconds_since(earlier),
    {
        self.millis_since(earlier) / MILLIS_PER_SECOND
    }

    #[verifier::when_used_as_spec(spec_older_than_seconds)]
    pub fn older_than_seconds(self, now: Timestamp, seconds: u64) -> (r: bool)
        ensures
            r == self.spec_older_than_seconds(now, seconds),
    {
        let limit: i128 = self.millis as i128 + (seconds as i128) * 1000;
        limit < now.millis as i128
    }

    #[verifier::when_used_as_spec(spec_older_than_hours)]
    pub fn older_than_hours(self, now: Timestamp, hours: u32) -> (r: bool)
        ensures
            r == self.spec_older_than_hours(now, hours),
    {
        let limit: i128 = self.millis as i128 + (hours as i128) * 3_600_000;
        limit < now.millis as i128
    }
}

/// Reads the system clock through `chrono::Utc::now` and converts the reading
/// with `DateTime::timestamp_millis`. Nothing is promised about the value:
/// two readings may be equal or may even go backwards when the clock is
/// adjusted. `Utc::now` panics if the system clock is set before 1970.
#[verifier::external_body]
pub(crate) fn current_time() -> (now: Timestamp) {
    Timestamp { millis: chrono::Utc::now().timestamp_millis() }
}

} // verus!
