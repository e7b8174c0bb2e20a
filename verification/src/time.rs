//! Points in time and durations, both counted in milliseconds.

use vstd::prelude::*;

verus! {

/// A point in time: milliseconds since the Unix epoch.
#[derive(Debug, Clone, Copy, PartialEq, Eq, Structural, PartialOrd, Ord, Hash)]
pub struct DateTime {
    /// Milliseconds since the Unix epoch.
    pub millis: u64,
}

impl DateTime {
    /// The current system time.
    ///
    /// Relies on `std::time::SystemTime::now`; nothing is promised of the
    /// result, since the clock is outside the program.
    #[verifier::external_body]
    pub fn now() -> DateTime {
        let millis = std::time::SystemTime::now()
            .duration_since(std::time::UNIX_EPOCH)
            .map(|d| d.as_millis())
            .unwrap_or(0);
        DateTime { millis: millis.try_into().unwrap_or(u64::MAX) }
    }

    /// The point `millis` milliseconds after the epoch.
    pub fn from_millis(millis: u64) -> (r: Self)
        ensures
            r.millis == millis,
    {
        DateTime { millis }
    }

    /// Milliseconds since the epoch.
    pub fn as_millis(&self) -> (r: u64)
        ensures
            r == self.millis,
    {
        self.millis
    }
}

/// A span of time in milliseconds.
#[derive(Debug, Clone, Copy, PartialEq, Eq, Structural, PartialOrd, Ord, Hash)]
pub struct Duration {
    /// The span's length in milliseconds.
    pub millis: u64,
}

impl Duration {
    /// The span of `millis` milliseconds.
    pub fn from_millis(millis: u64) -> (r: Self)
        ensures
            r.millis == millis,
    {
        Duration { millis }
    }

    /// The span of `secs` seconds.
    pub fn from_secs(secs: u64) -> (r: Self)
        requires
            secs * 1000 <= u64::MAX,
        ensures
            r.millis == secs * 1000,
    {
        Duration { millis: secs * 1000 }
    }

    /// The span of `hours` hours.
    pub fn from_hours(hours: u64) -> (r: Self)
        requires
            hours * 3600000 <= u64::MAX,
        ensures
            r.millis == hours * 3600000,
    {
        Duration { millis: hours * 3600000 }
    }

    /// The span's length in milliseconds.
    pub fn as_millis(&self) -> (r: u64)
        ensures
            r == self.millis,
    {
        self.millis
    }
}

} // verus!
