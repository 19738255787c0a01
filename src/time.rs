//! Instants on the UTC time line and the calendar hour they fall in.

use vstd::prelude::*;

verus! {

/// The length of one hour, in seconds.
pub const SECONDS_PER_HOUR: i64 = 3600;

/// An instant in UTC, as whole seconds since the Unix epoch.
#[derive(Clone, Copy, Debug, PartialEq, Eq, Structural)]
pub struct Timestamp {
    pub seconds: i64,
}

/// The number of the calendar hour (UTC) that holds the instant: two instants
/// share the calendar date and the hour of day exactly when these agree.
pub open spec fn hour_number(t: Timestamp) -> int {
    (t.seconds as int) / (SECONDS_PER_HOUR as int)
}

pub open spec fn same_hour(a: Timestamp, b: Timestamp) -> bool {
    hour_number(a) == hour_number(b)
}

impl Timestamp {
    /// The instant `seconds` after the epoch.
    pub fn from_seconds(seconds: i64) -> (r: Timestamp)
        ensures
            r.seconds == seconds,
    {
        Timestamp { seconds }
    }

    /// The epoch itself, which marks a name that has never been scored.
    pub fn epoch() -> (r: Timestamp)
        ensures
            r.seconds == 0,
    {
        Timestamp { seconds: 0 }
    }

    /// The calendar hour that holds this instant, counted from the epoch's hour.
    pub fn hour(&self) -> (r: i64)
        ensures
            r == hour_number(*self),
    {
        if self.seconds >= 0 {
            self.seconds / SECONDS_PER_HOUR
        } else {
            let before: i64 = -(self.seconds + 1);
            let q: i64 = before / SECONDS_PER_HOUR;
            let r: i64 = -q - 1;
            proof {
                let s = self.seconds as int;
                assert(r as int == s / 3600) by (nonlinear_arith)
                    requires s < 0, q as int == (-s - 1) / 3600, r == -q - 1;
            }
            r
        }
    }

    /// Whether the two instants fall on the same calendar date and hour of day.
    pub fn same_hour_as(&self, other: &Timestamp) -> (r: bool)
        ensures
            r == same_hour(*self, *other),
    {
        self.hour() == other.hour()
    }
}

} // verus!
