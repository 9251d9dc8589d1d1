//! Civil dates and instants for the activity log: a calendar date as
//! plain year, month and day, the day-number correspondence used to
//! compare and bucket dates, and the one clock call — the local calendar
//! date now.

use vstd::prelude::*;
use chrono::Datelike;

verus! {

/// A civil (Gregorian) calendar date.
#[derive(Debug, Clone, Copy, PartialEq, Eq, Structural)]
pub struct Date {
    pub year: i64,
    pub month: u8,
    pub day: u8,
}

/// Gregorian leap years: divisible by four, except centuries off the
/// four-hundred cycle.
pub open spec fn is_leap(y: int) -> bool {
    y % 4 == 0 && (y % 100 != 0 || y % 400 == 0)
}

/// The days a month has.
pub open spec fn days_in_month(y: int, m: int) -> int {
    if m == 2 {
        if is_leap(y) {
            29
        } else {
            28
        }
    } else if m == 4 || m == 6 || m == 9 || m == 11 {
        30
    } else {
        31
    }
}

/// A real calendar date, in the year range a clock source can produce.
pub open spec fn date_valid(d: Date) -> bool {
    &&& 1 <= d.month <= 12
    &&& 1 <= d.day <= days_in_month(d.year as int, d.month as int)
    &&& -2147483648 <= d.year <= 2147483647
}

/// The number of days from 1970-01-01 to the given civil date, negative
/// for earlier dates: the standard civil-from-days correspondence of the
/// proleptic Gregorian calendar, computed over a year shift that keeps
/// every intermediate value nonnegative.
pub open spec fn spec_day_number(y: int, m: int, d: int) -> int {
    let yp = y + 2400000000 - if m <= 2 {
        1int
    } else {
        0int
    };
    let era = yp / 400;
    let yoe = yp % 400;
    let mp = if m > 2 {
        m - 3
    } else {
        m + 9
    };
    let doy = (153 * mp + 2) / 5 + d - 1;
    let doe = yoe * 365 + yoe / 4 - yoe / 100 + doy;
    era * 146097 + doe - 719468 - 876582000000
}

/// The day number of a date.
pub fn day_number(date: &Date) -> (r: i64)
    requires
        date_valid(*date),
    ensures
        r as int == spec_day_number(date.year as int, date.month as int, date.day as int),
        -900000000000 <= r <= 1800000000000,
{
    let y = date.year;
    let m = date.month as i64;
    let d = date.day as i64;
    let yp: u64 = (y + 2400000000 - if m <= 2 {
        1
    } else {
        0
    }) as u64;
    let era: u64 = yp / 400;
    let yoe: u64 = yp % 400;
    let mp: u64 = (if m > 2 {
        m - 3
    } else {
        m + 9
    }) as u64;
    let doy: u64 = (153 * mp + 2) / 5 + (d as u64) - 1;
    let doe: u64 = yoe * 365 + yoe / 4 - yoe / 100 + doy;
    let total: u64 = era * 146097 + doe;
    (total as i64) - 719468 - 876582000000
}

/// An instant of the activity log: a civil date, a time of day, and the
/// clock's offset from universal time in minutes.
#[derive(Debug, Clone, Copy, PartialEq, Eq, Structural)]
pub struct LogStamp {
    pub date: Date,
    pub hour: u8,
    pub minute: u8,
    pub second: u8,
    pub offset_min: i32,
}

/// A real timestamp: a valid date, a time of day within bounds, and an
/// offset of less than a day.
pub open spec fn stamp_valid(s: LogStamp) -> bool {
    &&& date_valid(s.date)
    &&& s.hour <= 23
    &&& s.minute <= 59
    &&& s.second <= 59
    &&& -1439 <= s.offset_min <= 1439
}

/// The instant a timestamp denotes, as seconds from the epoch: the local
/// clock reading shifted back by its offset.
pub open spec fn spec_instant(s: LogStamp) -> int {
    spec_day_number(s.date.year as int, s.date.month as int, s.date.day as int) * 86400 + s.hour
        * 3600 + s.minute * 60 + s.second - s.offset_min * 60
}

/// The instant a timestamp denotes, for ordering log records.
pub fn instant_seconds(s: &LogStamp) -> (r: i64)
    requires
        stamp_valid(*s),
    ensures
        r as int == spec_instant(*s),
{
    let dn = day_number(&s.date);
    dn * 86400 + (s.hour as i64) * 3600 + (s.minute as i64) * 60 + (s.second as i64) - (
    s.offset_min as i64) * 60
}

/// Relies on chrono's `Local::now` and `NaiveDate`: the local calendar
/// date at the moment of the call. A `NaiveDate` always holds a real
/// calendar date, so the result is valid; nothing more can be promised of
/// a clock reading.
#[verifier::external_body]
pub fn local_today() -> (r: Date)
    ensures
        date_valid(r),
{
    let now = chrono::Local::now().date_naive();
    Date { year: now.year() as i64, month: now.month() as u8, day: now.day() as u8 }
}

} // verus!
