//! Calendar dates and the clock.
//!
//! A date is a year, a month and a day of the proleptic Gregorian calendar.
//! This module says which triples are dates and how many seconds lie between
//! the start of 1970 and the start of a given date, and hands both questions
//! to `chrono`.
use chrono::Datelike;
use vstd::prelude::*;

verus! {

/// The first year that `chrono::NaiveDate` can hold.
pub const MIN_YEAR: i32 = -262143;

/// The last year that `chrono::NaiveDate` can hold.
pub const MAX_YEAR: i32 = 262142;

/// The seconds of one day.
pub const SECONDS_PER_DAY: i64 = 86400;

/// Leap years are the years divisible by 4, but of those divisible by 100
/// only the ones divisible by 400.
pub open spec fn is_leap_year(year: int) -> bool {
    year % 4 == 0 && (year % 100 != 0 || year % 400 == 0)
}

/// The number of days of month `month` (1 to 12) in `year`.
pub open spec fn days_in_month(year: int, month: int) -> int {
    if month == 2 {
        if is_leap_year(year) {
            29
        } else {
            28
        }
    } else if month == 4 || month == 6 || month == 9 || month == 11 {
        30
    } else {
        31
    }
}

/// `day` of `month` of `year` exists, in a year that `chrono` can hold.
pub open spec fn is_calendar_date(year: int, month: int, day: int) -> bool {
    MIN_YEAR <= year <= MAX_YEAR && 1 <= month <= 12 && 1 <= day <= days_in_month(year, month)
}

/// The number of leap years among the years 1 to `year`; for other years the
/// same expression continues the count backwards.
pub open spec fn leap_years_through(year: int) -> int {
    year / 4 - year / 100 + year / 400
}

/// The days from the first day of 1970 to the first day of `year`; negative
/// before 1970.
pub open spec fn days_before_year(year: int) -> int {
    365 * (year - 1970) + leap_years_through(year - 1) - leap_years_through(1969)
}

/// The days of `year` that lie before the first day of `month`.
pub open spec fn days_before_month(year: int, month: int) -> int
    decreases month,
{
    if month <= 1 {
        0
    } else {
        days_before_month(year, month - 1) + days_in_month(year, month - 1)
    }
}

/// The days from the first day of 1970 to the given date.
pub open spec fn days_since_epoch(year: int, month: int, day: int) -> int {
    days_before_year(year) + days_before_month(year, month) + day - 1
}

/// The seconds from the start of 1970 to the start of the given day, where
/// that day exists.
pub open spec fn midnight_of(year: int, month: int, day: int) -> Option<int> {
    if is_calendar_date(year, month, day) {
        Some(SECONDS_PER_DAY * days_since_epoch(year, month, day))
    } else {
        None
    }
}

/// A timestamp or its absence, as a mathematical integer.
pub open spec fn stamp(t: Option<i64>) -> Option<int> {
    match t {
        Some(s) => Some(s as int),
        None => None,
    }
}

/// `chrono::NaiveDate::from_ymd_opt`, then `and_hms_opt(0, 0, 0)`, `and_utc`
/// and `timestamp`. The contract claims what chrono documents: no date comes
/// back where the day does not exist in the proleptic Gregorian calendar or
/// the year is outside chrono's range, and otherwise the count of seconds,
/// without leap seconds, from 1970-01-01 00:00:00 UTC to the start of that
/// day.
#[verifier::external_body]
pub(crate) fn chrono_midnight(year: i32, month: u32, day: u32) -> (r: Option<i64>)
    ensures
        stamp(r) == midnight_of(year as int, month as int, day as int),
{
    let date = chrono::NaiveDate::from_ymd_opt(year, month, day)?;
    Some(date.and_hms_opt(0, 0, 0)?.and_utc().timestamp())
}

/// `chrono::Local::now` and `Datelike::year`: the calendar year at the moment
/// of the call, in the time zone of the machine. Nothing is claimed of it.
#[verifier::external_body]
pub(crate) fn chrono_current_year() -> i32 {
    chrono::Local::now().year()
}

/// The timestamp of the start of the given day in UTC, or nothing where there
/// is no such day.
pub fn midnight_timestamp(year: i32, month: u32, day: u32) -> (r: Option<i64>)
    ensures
        stamp(r) == midnight_of(year as int, month as int, day as int),
{
    chrono_midnight(year, month, day)
}

/// The last two digits of `year`, with the sign of `year`: what `year % 100`
/// is in Rust.
pub open spec fn last_two_digits(year: int) -> int {
    if year >= 0 {
        year % 100
    } else {
        -((-year) % 100)
    }
}

/// The year that a two-digit year stands for when it is read in
/// `current_year`: a year of the 2000s where it is not above the last two
/// digits of `current_year`, else a year of the 1900s.
///
/// The rule takes no document to be older than about a hundred years or
/// dated later than the current year; a two-digit year that was meant the
/// other way round a century is read wrongly, and nothing corrects it.
pub open spec fn resolved_year(two_digits: int, current_year: int) -> int {
    if two_digits <= last_two_digits(current_year) {
        2000 + two_digits
    } else {
        1900 + two_digits
    }
}

/// Resolves a two-digit year read in `current_year`.
pub fn resolve_year(two_digits: u8, current_year: i32) -> (year: i32)
    ensures
        year == resolved_year(two_digits as int, current_year as int),
{
    let last: i32 = current_year % 100;
    let short: i32 = two_digits as i32;
    if short <= last {
        2000 + short
    } else {
        1900 + short
    }
}

} // verus!
