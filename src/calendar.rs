//! Calendar dates and times of day as milliseconds since 1970-01-01 00:00 UTC.
use vstd::prelude::*;

verus! {

/// Earliest year that a date may have.
pub const MIN_YEAR: i32 = -262143;

/// Latest year that a date may have.
pub const MAX_YEAR: i32 = 262142;

pub open spec fn is_leap_year(y: int) -> bool {
    (y % 4 == 0 && y % 100 != 0) || y % 400 == 0
}

pub open spec fn days_in_month(y: int, m: int) -> int {
    if m == 2 {
        if is_leap_year(y) {
            29
        } else {
            28
        }
    } else if m == 4 || m == 6 || m == 9 || m == 11 {
        30
    } else {
        31
    }
}

pub open spec fn valid_date(y: int, m: int, d: int) -> bool {
    MIN_YEAR <= y <= MAX_YEAR && 1 <= m <= 12 && 1 <= d <= days_in_month(y, m)
}

pub open spec fn valid_time(h: int, mi: int, s: int) -> bool {
    0 <= h < 24 && 0 <= mi < 60 && 0 <= s < 60
}

/// Days from 0001-01-01 to the first of January of year `y`, in the proleptic Gregorian calendar.
pub open spec fn days_before_year(y: int) -> int {
    let p = y - 1;
    365 * p + p / 4 - p / 100 + p / 400
}

/// Days from the first of January to the first of month `m` of year `y`.
pub open spec fn days_before_month(y: int, m: int) -> int {
    let common: int = if m <= 1 {
        0
    } else if m == 2 {
        31
    } else if m == 3 {
        59
    } else if m == 4 {
        90
    } else if m == 5 {
        120
    } else if m == 6 {
        151
    } else if m == 7 {
        181
    } else if m == 8 {
        212
    } else if m == 9 {
        243
    } else if m == 10 {
        273
    } else if m == 11 {
        304
    } else {
        334
    };
    if m > 2 && is_leap_year(y) {
        common + 1
    } else {
        common
    }
}

/// Days from 1970-01-01 to the given date (negative before it).
pub open spec fn epoch_day(y: int, m: int, d: int) -> int {
    days_before_year(y) + days_before_month(y, m) + d - 1 - days_before_year(1970)
}

/// Milliseconds from 1970-01-01 00:00:00 UTC to the given date and time of day.
pub open spec fn utc_millis(y: int, m: int, d: int, h: int, mi: int, s: int) -> int {
    (epoch_day(y, m, d) * 86400 + h * 3600 + mi * 60 + s) * 1000
}

/// Relies on chrono: `NaiveDate::from_ymd_opt` accepts exactly the valid dates of the
/// years `MIN_YEAR..=MAX_YEAR`; `NaiveDate::and_hms_opt` accepts exactly the times of
/// day before 24:00:00, with no fraction of a second; `NaiveDateTime::and_utc` reads
/// the result as UTC, and `DateTime::timestamp_millis` counts its milliseconds since
/// 1970-01-01 00:00:00 UTC in the proleptic Gregorian calendar.
#[verifier::external_body]
pub(crate) fn chrono_utc_millis(y: i32, m: u32, d: u32, h: u32, mi: u32, s: u32) -> (r: Option<i64>)
    ensures
        r.is_some() == (valid_date(y as int, m as int, d as int) && valid_time(
            h as int,
            mi as int,
            s as int,
        )),
        r matches Some(t) ==> t == utc_millis(y as int, m as int, d as int, h as int, mi as int, s as int),
{
    match chrono::NaiveDate::from_ymd_opt(y, m, d) {
        Some(date) => match date.and_hms_opt(h, mi, s) {
            Some(t) => Some(t.and_utc().timestamp_millis()),
            None => None,
        },
        None => None,
    }
}

} // verus!
