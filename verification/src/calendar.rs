//! Gregorian calendar dates, UTC instants, and the Julian Day Number.
//!
//! Dates are civil UTC, Gregorian rule unconditionally. An instant may
//! read 24:00:00, the inclusive end of the sampling day.

use vstd::prelude::*;

verus! {

/// A Gregorian calendar date, civil UTC.
#[derive(Clone, Copy, PartialEq, Eq, Structural, Debug)]
pub struct CalendarDate {
    pub year: i32,
    pub month: u8,
    pub day: u8,
}

/// A UTC instant on a calendar date; 24:00:00 stands for the end of the day.
#[derive(Clone, Copy, PartialEq, Eq, Structural, Debug)]
pub struct UtcInstant {
    pub date: CalendarDate,
    pub hour: u8,
    pub minute: u8,
    pub second: u8,
}

pub open spec fn spec_is_leap_year(y: int) -> bool {
    y % 4 == 0 && (y % 100 != 0 || y % 400 == 0)
}

pub open spec fn spec_days_in_month(y: int, m: int) -> int {
    if m == 2 {
        if spec_is_leap_year(y) {
            29
        } else {
            28
        }
    } else if m == 4 || m == 6 || m == 9 || m == 11 {
        30
    } else {
        31
    }
}

impl CalendarDate {
    /// Dates this engine works on: proleptic bounds of the civil
    /// Gregorian calendar, with the day checked against its month.
    pub open spec fn valid(self) -> bool {
        1583 <= self.year <= 9999 && 1 <= self.month <= 12 && 1 <= self.day
            && self.day <= spec_days_in_month(self.year as int, self.month as int)
    }
}

impl UtcInstant {
    pub open spec fn valid(self) -> bool {
        self.date.valid() && ((self.hour < 24 && self.minute < 60 && self.second < 60) || (
        self.hour == 24 && self.minute == 0 && self.second == 0))
    }
}

pub fn is_leap_year(y: i32) -> (r: bool)
    requires
        0 <= y,
    ensures
        r == spec_is_leap_year(y as int),
{
    y % 4 == 0 && (y % 100 != 0 || y % 400 == 0)
}

pub fn days_in_month(y: i32, m: u8) -> (r: u8)
    requires
        0 <= y,
        1 <= m <= 12,
    ensures
        r == spec_days_in_month(y as int, m as int),
        28 <= r <= 31,
{
    if m == 2 {
        if is_leap_year(y) {
            29
        } else {
            28
        }
    } else if m == 4 || m == 6 || m == 9 || m == 11 {
        30
    } else {
        31
    }
}

/// The Julian Day Number of the date's noon, by the Gregorian rule
/// (the two integer quotients realize floor(365.25 y) and floor(30.6 m)).
pub open spec fn spec_jdn(y: int, m: int, d: int) -> int {
    let yy = if m <= 2 {
        y - 1
    } else {
        y
    };
    let mm = if m <= 2 {
        m + 12
    } else {
        m
    };
    let aa = yy / 100;
    let bb = 2 - aa + aa / 4;
    (1461 * (yy + 4716)) / 4 + (153 * (mm + 1)) / 5 + d + bb - 1524
}

pub fn julian_day_number(date: &CalendarDate) -> (r: i64)
    requires
        date.valid(),
    ensures
        r == spec_jdn(date.year as int, date.month as int, date.day as int),
        2_298_000 <= r <= 5_374_000,
{
    let y: i64 = date.year as i64;
    let m: i64 = date.month as i64;
    let d: i64 = date.day as i64;
    let yy: i64 = if m <= 2 {
        y - 1
    } else {
        y
    };
    let mm: i64 = if m <= 2 {
        m + 12
    } else {
        m
    };
    let aa = yy / 100;
    let bb = 2 - aa + aa / 4;
    (1461 * (yy + 4716)) / 4 + (153 * (mm + 1)) / 5 + d + bb - 1524
}

pub open spec fn spec_seconds_of_day(h: int, m: int, s: int) -> int {
    h * 3600 + m * 60 + s
}

pub fn seconds_of_day(t: &UtcInstant) -> (r: u32)
    requires
        t.valid(),
    ensures
        r == spec_seconds_of_day(t.hour as int, t.minute as int, t.second as int),
        r <= 86400,
{
    (t.hour as u32) * 3600 + (t.minute as u32) * 60 + (t.second as u32)
}

} // verus!
