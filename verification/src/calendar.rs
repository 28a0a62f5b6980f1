use chrono::TimeZone;
use vstd::prelude::*;

verus! {

/// A point in time: whole seconds since the start of 1970 in UTC, and the nanoseconds
/// past that second. Within a leap second the nanoseconds run on past a full second.
#[derive(Clone, Copy, Debug, PartialEq, Eq, Structural)]
pub struct Timestamp {
    pub secs: i64,
    pub nanos: u32,
}

impl Timestamp {
    /// Whether `self` lies strictly later than `other`.
    pub open spec fn is_after(self, other: Timestamp) -> bool {
        self.secs > other.secs || (self.secs == other.secs && self.nanos > other.nanos)
    }

    /// Tells whether `self` lies strictly later than `other`.
    pub fn after(&self, other: &Timestamp) -> (later: bool)
        ensures
            later == self.is_after(*other),
    {
        self.secs > other.secs || (self.secs == other.secs && self.nanos > other.nanos)
    }
}

/// Whether `year` is a leap year of the Gregorian calendar.
pub open spec fn is_leap_year(year: int) -> bool {
    year % 4 == 0 && (year % 100 != 0 || year % 400 == 0)
}

/// The number of days of a month, for `1 <= month <= 12`.
pub open spec fn days_in_month(year: int, month: int) -> int {
    if month == 2 {
        if is_leap_year(year) {
            29
        } else {
            28
        }
    } else if month == 4 || month == 6 || month == 9 || month == 11 {
        30
    } else {
        31
    }
}

/// Whether the six numbers name a second of a day that exists in the years 1 to 9999.
pub open spec fn is_civil(year: i32, month: u32, day: u32, hour: u32, minute: u32, second: u32) -> bool {
    &&& 1 <= year <= 9999
    &&& 1 <= month <= 12
    &&& 1 <= day <= days_in_month(year as int, month as int)
    &&& hour < 24
    &&& minute < 60
    &&& second < 60
}

/// The seconds from the start of 1970 to the given second of the given day in UTC, as
/// the calendar counts them; `None` where the calendar knows no such day or second.
pub uninterp spec fn utc_seconds(
    year: i32,
    month: u32,
    day: u32,
    hour: u32,
    minute: u32,
    second: u32,
) -> Option<i64>;

/// Calls chrono's `Utc.with_ymd_and_hms`, takes the single time it maps to and
/// that time's `timestamp()`. Trusted: the result is a function of the six numbers,
/// and a day and second that exist in the years 1 to 9999 always have one.
#[verifier::external_body]
pub(crate) fn utc_timestamp(
    year: i32,
    month: u32,
    day: u32,
    hour: u32,
    minute: u32,
    second: u32,
) -> (seconds: Option<i64>)
    ensures
        seconds == utc_seconds(year, month, day, hour, minute, second),
        is_civil(year, month, day, hour, minute, second) ==> seconds is Some,
{
    match chrono::Utc.with_ymd_and_hms(year, month, day, hour, minute, second).single() {
        Some(time) => Some(time.timestamp()),
        None => None,
    }
}

/// The first instant of a day in UTC, where the calendar knows the day.
pub fn start_of_day(year: i32, month: u32, day: u32) -> (start: Option<Timestamp>)
    ensures
        start == match utc_seconds(year, month, day, 0, 0, 0) {
            Some(secs) => Some(Timestamp { secs, nanos: 0 }),
            None => None,
        },
        is_civil(year, month, day, 0, 0, 0) ==> start is Some,
{
    match utc_timestamp(year, month, day, 0, 0, 0) {
        Some(secs) => Some(Timestamp { secs, nanos: 0 }),
        None => None,
    }
}

} // verus!
