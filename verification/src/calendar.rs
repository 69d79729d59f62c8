//! Instants and calendar dates.
//!
//! An instant is a count of microseconds since 1970-01-01T00:00:00 UTC, held
//! in an `i64`.  Days have 86 400 seconds; a day number counts days since
//! 1970-01-01.  The dates of the proleptic Gregorian calendar come from
//! `chrono`.

use chrono::Datelike;
use vstd::prelude::*;

verus! {

pub const MICROS_PER_SECOND: i64 = 1_000_000;

pub const MICROS_PER_MINUTE: i64 = 60_000_000;

pub const MICROS_PER_HOUR: i64 = 3_600_000_000;

pub const MICROS_PER_DAY: i64 = 86_400_000_000;

/// Day numbers further from zero than this are not converted to dates.
pub const MAX_DAY_NUMBER: i64 = 95_000_000;

/// A date of the proleptic Gregorian calendar.
#[derive(Debug, Clone, Copy, PartialEq, Eq, Structural)]
pub struct CivilDate {
    pub year: i32,
    /// 1 to 12.
    pub month: u32,
    /// Day of the month, 1 to 31.
    pub day: u32,
    /// Day of the year, 1 to 366.
    pub ordinal: u32,
}

/// The number of the day that holds instant `t`.
pub open spec fn spec_day_of(t: int) -> int {
    t / 86_400_000_000
}

/// Microseconds elapsed since the start of the day that holds instant `t`.
pub open spec fn spec_micros_of_day(t: int) -> int {
    t % 86_400_000_000
}

/// Hour of the day, 0 to 23.
pub open spec fn spec_hour_of(t: int) -> int {
    spec_micros_of_day(t) / 3_600_000_000
}

/// Minute of the hour, 0 to 59.
pub open spec fn spec_minute_of(t: int) -> int {
    (spec_micros_of_day(t) / 60_000_000) % 60
}

/// Minute of the day, 0 to 1439.
pub open spec fn spec_minute_of_day(t: int) -> int {
    spec_micros_of_day(t) / 60_000_000
}

/// The first instant of day `day`.
pub open spec fn spec_day_start(day: int) -> int {
    day * 86_400_000_000
}

pub open spec fn day_in_calendar(day: int) -> bool {
    -95_000_000 <= day <= 95_000_000
}

/// An instant whose day the calendar covers.
pub open spec fn instant_in_calendar(t: int) -> bool {
    day_in_calendar(spec_day_of(t))
}

pub fn day_of(t: i64) -> (day: i64)
    ensures
        day == spec_day_of(t as int),
{
    match t.checked_div_euclid(MICROS_PER_DAY) {
        Some(d) => d,
        None => 0,
    }
}

pub fn micros_of_day(t: i64) -> (m: i64)
    ensures
        m == spec_micros_of_day(t as int),
        0 <= m < MICROS_PER_DAY,
{
    match t.checked_rem_euclid(MICROS_PER_DAY) {
        Some(m) => m,
        None => 0,
    }
}

pub fn hour_of(t: i64) -> (h: u32)
    ensures
        h == spec_hour_of(t as int),
        h < 24,
{
    (micros_of_day(t) / MICROS_PER_HOUR) as u32
}

pub fn minute_of(t: i64) -> (m: u32)
    ensures
        m == spec_minute_of(t as int),
        m < 60,
{
    ((micros_of_day(t) / MICROS_PER_MINUTE) % 60) as u32
}

pub fn minute_of_day(t: i64) -> (m: u32)
    ensures
        m == spec_minute_of_day(t as int),
        m < 1440,
{
    (micros_of_day(t) / MICROS_PER_MINUTE) as u32
}

/// The first instant of day `day`, for the days the calendar covers.
pub fn day_start(day: i64) -> (t: Option<i64>)
    ensures
        t.is_some() <==> day_in_calendar(day as int),
        t matches Some(v) ==> v == spec_day_start(day as int) && spec_day_of(v as int) == day,
{
    if -MAX_DAY_NUMBER <= day && day <= MAX_DAY_NUMBER {
        Some(day * MICROS_PER_DAY)
    } else {
        None
    }
}

/// Year of day number `day`, as `chrono::Datelike::year` reports it.
pub uninterp spec fn civil_year(day: int) -> int;

/// Month of day number `day`, as `chrono::Datelike::month` reports it.
pub uninterp spec fn civil_month(day: int) -> int;

/// Day of the month of day number `day`, as `chrono::Datelike::day` reports it.
pub uninterp spec fn civil_day(day: int) -> int;

/// Day of the year of day number `day`, as `chrono::Datelike::ordinal` reports it.
pub uninterp spec fn civil_ordinal(day: int) -> int;

/// The Julian day number of a date of the Gregorian calendar.
pub open spec fn spec_julian_day(year: int, month: int, day: int) -> int {
    let a = (14 - month) / 12;
    let y = year + 4800 - a;
    let m = month + 12 * a - 3;
    day + (153 * m + 2) / 5 + 365 * y + y / 4 - y / 100 + y / 400 - 32045
}

/// Every fourth year is a leap year, but of the years that end a century
/// only every fourth.
pub open spec fn is_leap_year(year: int) -> bool {
    year % 4 == 0 && (year % 100 != 0 || year % 400 == 0)
}

/// Number of days of a month, 1 to 12, of a year.
pub open spec fn days_in_month(year: int, month: int) -> int {
    if month == 2 {
        if is_leap_year(year) {
            29
        } else {
            28
        }
    } else if month == 4 || month == 6 || month == 9 || month == 11 {
        30
    } else {
        31
    }
}

/// The calendar has this date: a day of a month of a year from -262143 to 262142.
pub open spec fn date_exists(year: int, month: int, day: int) -> bool {
    &&& -262_143 <= year <= 262_142
    &&& 1 <= month <= 12
    &&& 1 <= day <= days_in_month(year, month)
}

/// The day number of a calendar date: its Julian day number less that of
/// 1970-01-01; `None` where the calendar has no such date.
pub open spec fn epoch_day_of(year: int, month: int, day: int) -> Option<int> {
    if date_exists(year, month, day) {
        Some(spec_julian_day(year, month, day) - 2_440_588)
    } else {
        None
    }
}

/// `d` carries the fields that the calendar assigns to day number `day`:
/// those of the date whose day number is `day`, with the day of the year
/// counted from the first of January.
pub open spec fn is_civil_date_of(d: CivilDate, day: int) -> bool {
    &&& d.year == civil_year(day)
    &&& d.month == civil_month(day)
    &&& d.day == civil_day(day)
    &&& d.ordinal == civil_ordinal(day)
    &&& 1 <= d.month <= 12
    &&& 1 <= d.day <= 31
    &&& 1 <= d.ordinal <= 366
    &&& epoch_day_of(d.year as int, d.month as int, d.day as int) == Some(day)
    &&& epoch_day_of(d.year as int, 1, 1) == Some(day - d.ordinal + 1)
}

/// Wraps `chrono::NaiveDate::from_epoch_days` and the `Datelike` getters
/// `year`, `month`, `day` and `ordinal`.  Claimed: a date comes back for every
/// day number within `MAX_DAY_NUMBER` of zero (chrono covers the years -262143
/// to 262142); its fields are the calendar's; it is a date whose day number
/// is `day`; its ordinal counts the days from the first of January; and
/// month, day and ordinal lie in the ranges that `Datelike` documents.
#[verifier::external_body]
pub(crate) fn civil_from_days(day: i32) -> (out: Option<CivilDate>)
    ensures
        day_in_calendar(day as int) ==> out.is_some(),
        out matches Some(d) ==> {
            &&& d.year == civil_year(day as int)
            &&& d.month == civil_month(day as int)
            &&& d.day == civil_day(day as int)
            &&& d.ordinal == civil_ordinal(day as int)
            &&& 1 <= d.month <= 12
            &&& 1 <= d.day <= 31
            &&& 1 <= d.ordinal <= 366
            &&& epoch_day_of(d.year as int, d.month as int, d.day as int) == Some(day as int)
            &&& epoch_day_of(d.year as int, 1, 1) == Some(day - d.ordinal + 1)
        },
{
    match chrono::NaiveDate::from_epoch_days(day) {
        Some(d) => Some(
            CivilDate { year: d.year(), month: d.month(), day: d.day(), ordinal: d.ordinal() },
        ),
        None => None,
    }
}

/// Wraps `chrono::NaiveDate::from_ymd_opt` and `to_epoch_days`.  Claimed: a
/// day number comes back exactly for the dates of the proleptic Gregorian
/// calendar in the years that chrono covers, and it is the Julian day number
/// of the date less that of 1970-01-01.
#[verifier::external_body]
pub(crate) fn days_from_civil(year: i32, month: u32, day: u32) -> (out: Option<i32>)
    ensures
        out.is_some() == date_exists(year as int, month as int, day as int),
        out matches Some(n) ==> n == spec_julian_day(year as int, month as int, day as int)
            - 2_440_588,
{
    match chrono::NaiveDate::from_ymd_opt(year, month, day) {
        Some(d) => Some(d.to_epoch_days()),
        None => None,
    }
}

/// The calendar date of day number `day`; `None` beyond `MAX_DAY_NUMBER`.
pub fn civil_date_of_day(day: i64) -> (out: Option<CivilDate>)
    ensures
        out.is_some() <==> day_in_calendar(day as int),
        out matches Some(d) ==> is_civil_date_of(d, day as int),
{
    if -MAX_DAY_NUMBER <= day && day <= MAX_DAY_NUMBER {
        civil_from_days(day as i32)
    } else {
        None
    }
}

/// The calendar date on which instant `t` falls.
pub fn civil_date_of(t: i64) -> (out: Option<CivilDate>)
    ensures
        out.is_some() <==> instant_in_calendar(t as int),
        out matches Some(d) ==> is_civil_date_of(d, spec_day_of(t as int)),
{
    civil_date_of_day(day_of(t))
}

/// The instant `hour:minute:second` on the given calendar date, when the date
/// exists, lies within the calendar's day range and the time of day is valid.
pub open spec fn spec_instant_from_civil(
    year: int,
    month: int,
    day: int,
    hour: int,
    minute: int,
    second: int,
) -> Option<int> {
    match epoch_day_of(year, month, day) {
        Some(n) => if day_in_calendar(n) && hour < 24 && minute < 60 && second < 60 {
            Some(
                spec_day_start(n) + hour * 3_600_000_000 + minute * 60_000_000 + second
                    * 1_000_000,
            )
        } else {
            None
        },
        None => None,
    }
}

pub fn instant_from_civil(year: i32, month: u32, day: u32, hour: u32, minute: u32, second: u32) -> (out:
    Option<i64>)
    ensures
        out.is_some() == spec_instant_from_civil(
            year as int,
            month as int,
            day as int,
            hour as int,
            minute as int,
            second as int,
        ).is_some(),
        out matches Some(t) ==> spec_instant_from_civil(
            year as int,
            month as int,
            day as int,
            hour as int,
            minute as int,
            second as int,
        ) == Some(t as int),
{
    match days_from_civil(year, month, day) {
        Some(n) => {
            if hour < 24 && minute < 60 && second < 60 {
                match day_start(n as i64) {
                    Some(start) => Some(
                        start + (hour as i64) * MICROS_PER_HOUR + (minute as i64)
                            * MICROS_PER_MINUTE + (second as i64) * MICROS_PER_SECOND,
                    ),
                    None => None,
                }
            } else {
                None
            }
        },
        None => None,
    }
}

} // verus!
