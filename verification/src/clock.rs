//! Calendar readings delegated to `chrono`.
use vstd::prelude::*;
use chrono::{Datelike, Timelike};
use crate::num::zero_pad;

verus! {

/// What `chrono::NaiveDateTime::parse_from_str(s, "%Y-%m-%d %H:%M:%S")` reads from `s`,
/// as `(year, month, day, hour, minute, second)`; `None` where it fails.
pub uninterp spec fn chrono_parse_datetime(s: Seq<char>) -> Option<(i32, u32, u32, u32, u32, u32)>;

/// Reads `s` as `%Y-%m-%d %H:%M:%S` with `chrono::NaiveDateTime::parse_from_str` and
/// returns its calendar fields. The contract claims that the result is a function of
/// the text alone, and chrono's documented field ranges (month 1-12, day 1-31, hour
/// 0-23, minute and second 0-59).
#[verifier::external_body]
pub(crate) fn parse_datetime(s: &str) -> (r: Option<(i32, u32, u32, u32, u32, u32)>)
    ensures
        r == chrono_parse_datetime(s@),
        r matches Some(t) ==> 1 <= t.1 <= 12 && 1 <= t.2 <= 31 && t.3 < 24 && t.4 < 60 && t.5 < 60,
{
    match chrono::NaiveDateTime::parse_from_str(s, "%Y-%m-%d %H:%M:%S") {
        Ok(dt) => Some((dt.year(), dt.month(), dt.day(), dt.hour(), dt.minute(), dt.second())),
        Err(_) => None,
    }
}

/// A year chrono's dates cover (`MIN_YEAR` to `MAX_YEAR` in `naive/date/mod.rs`).
pub open spec fn chrono_year(y: int) -> bool {
    -262143 <= y <= 262142
}

/// A Gregorian leap year.
pub open spec fn leap_year(y: int) -> bool {
    (y % 4 == 0 && y % 100 != 0) || y % 400 == 0
}

/// The days of month `m` (1-12) of year `y`.
pub open spec fn days_of_month(y: int, m: int) -> int {
    if m == 2 {
        if leap_year(y) {
            29
        } else {
            28
        }
    } else if m == 4 || m == 6 || m == 9 || m == 11 {
        30
    } else {
        31
    }
}

/// A date that `NaiveDate::from_ymd_opt` accepts: a year in chrono's range, a month
/// 1-12 and a day of that month.
pub open spec fn valid_date(d: (i32, u32, u32)) -> bool {
    chrono_year(d.0 as int) && 1 <= d.1 <= 12 && 1 <= d.2 <= days_of_month(d.0 as int, d.1 as int)
}

/// A moment that `from_ymd_opt(..).and_hms_opt(..)` accepts: a valid date, an hour
/// below 24, a minute and a second below 60.
pub open spec fn valid_moment(t: (i32, u32, u32, u32, u32, u32)) -> bool {
    valid_date((t.0, t.1, t.2)) && t.3 < 24 && t.4 < 60 && t.5 < 60
}

/// The proleptic Gregorian day number of a date (days since 1970-01-01).
pub open spec fn day_number(y: int, m: int, d: int) -> int {
    let yy = if m <= 2 { y - 1 } else { y };
    let era = yy / 400;
    let yoe = yy - era * 400;
    let mp = if m > 2 { m - 3 } else { m + 9 };
    let doy = (153 * mp + 2) / 5 + d - 1;
    let doe = yoe * 365 + yoe / 4 - yoe / 100 + doy;
    era * 146097 + doe - 719468
}

/// The seconds of a moment since 1970-01-01 00:00:00.
pub open spec fn moment_seconds(t: (i32, u32, u32, u32, u32, u32)) -> int {
    day_number(t.0 as int, t.1 as int, t.2 as int) * 86400 + t.3 * 3600 + t.4 * 60 + t.5
}

/// What `chrono` gives for `later.signed_duration_since(earlier).num_seconds()`, the
/// two moments given by their calendar fields: the difference of their seconds on the
/// proleptic Gregorian calendar where both are valid moments, else `None`.
pub open spec fn chrono_seconds_between(
    later: (i32, u32, u32, u32, u32, u32),
    earlier: (i32, u32, u32, u32, u32, u32),
) -> Option<i64> {
    if valid_moment(later) && valid_moment(earlier) {
        Some((moment_seconds(later) - moment_seconds(earlier)) as i64)
    } else {
        None
    }
}

/// Whole seconds from `earlier` to `later` (negative when `later` is before), by
/// `chrono::NaiveDateTime::signed_duration_since` on the dates that
/// `NaiveDate::from_ymd_opt(..).and_hms_opt(..)` builds (see `chrono_seconds_between`).
#[verifier::external_body]
pub(crate) fn seconds_between(
    later: (i32, u32, u32, u32, u32, u32),
    earlier: (i32, u32, u32, u32, u32, u32),
) -> (r: Option<i64>)
    ensures
        r == chrono_seconds_between(later, earlier),
{
    let a = chrono::NaiveDate::from_ymd_opt(later.0, later.1, later.2).and_then(|d| d.and_hms_opt(later.3, later.4, later.5));
    let b = chrono::NaiveDate::from_ymd_opt(earlier.0, earlier.1, earlier.2).and_then(|d| d.and_hms_opt(earlier.3, earlier.4, earlier.5));
    match (a, b) {
        (Some(x), Some(y)) => Some(x.signed_duration_since(y).num_seconds()),
        _ => None,
    }
}

/// What chrono gives for the day after a date (`NaiveDate + Days::new(1)`): the next
/// day of the month, else the first of the next month, else the first of January of
/// the next year while that year is in chrono's range; `None` where the fields are not
/// a valid date or the next day is out of range.
pub open spec fn chrono_next_day(date: (i32, u32, u32)) -> Option<(i32, u32, u32)> {
    if !valid_date(date) {
        None
    } else if date.2 < days_of_month(date.0 as int, date.1 as int) {
        Some((date.0, date.1, (date.2 + 1) as u32))
    } else if date.1 < 12 {
        Some((date.0, (date.1 + 1) as u32, 1u32))
    } else if chrono_year(date.0 + 1) {
        Some(((date.0 + 1) as i32, 1u32, 1u32))
    } else {
        None
    }
}

/// The day after a date, by chrono (see `chrono_next_day`).
#[verifier::external_body]
pub(crate) fn next_day(date: (i32, u32, u32)) -> (r: Option<(i32, u32, u32)>)
    ensures
        r == chrono_next_day(date),
{
    chrono::NaiveDate::from_ymd_opt(date.0, date.1, date.2)
        .and_then(|d| d.checked_add_days(chrono::Days::new(1)))
        .map(|d| (d.year(), d.month(), d.day()))
}

/// How chrono's `%Y` prints a year: four digits, zero-padded, for years 0 to 9999;
/// otherwise with its sign and at least four digits (`write_year` in
/// `format/formatting.rs`).
pub open spec fn chrono_year_text(y: int) -> Seq<char> {
    if 0 <= y <= 9999 {
        zero_pad(y, 4)
    } else if y < 0 {
        zero_pad(y, 5)
    } else {
        seq!['+'] + zero_pad(y, 4)
    }
}

/// What chrono's `format("%Y-%m-%d %H:%M:%S")` prints for a date and time: the year
/// (see `chrono_year_text`) and the other fields as two zero-padded digits; `None`
/// where the fields are not a valid moment.
pub open spec fn chrono_format_datetime(t: (i32, u32, u32, u32, u32, u32)) -> Option<Seq<char>> {
    if valid_moment(t) {
        Some(chrono_year_text(t.0 as int) + seq!['-'] + zero_pad(t.1 as int, 2) + seq!['-'] + zero_pad(t.2 as int, 2)
            + seq![' '] + zero_pad(t.3 as int, 2) + seq![':'] + zero_pad(t.4 as int, 2) + seq![':'] + zero_pad(
            t.5 as int,
            2,
        ))
    } else {
        None
    }
}

/// Prints a moment as `%Y-%m-%d %H:%M:%S` with chrono, on the date and time that
/// `NaiveDate::from_ymd_opt(..).and_hms_opt(..)` builds (see `chrono_format_datetime`).
#[verifier::external_body]
pub(crate) fn format_datetime(t: (i32, u32, u32, u32, u32, u32)) -> (r: Option<String>)
    ensures
        r matches Some(s) ==> chrono_format_datetime(t) == Some(s@),
        r is None ==> chrono_format_datetime(t) is None,
{
    chrono::NaiveDate::from_ymd_opt(t.0, t.1, t.2)
        .and_then(|d| d.and_hms_opt(t.3, t.4, t.5))
        .map(|dt| dt.format("%Y-%m-%d %H:%M:%S").to_string())
}

/// The local wall-clock time as `%Y-%m-%d %H:%M:%S%.3f`, from `chrono::Local::now()`
/// formatted by chrono. Nothing is claimed of the text: it depends on the moment and
/// the machine's time zone.
#[verifier::external_body]
pub(crate) fn local_now_millis_text() -> String {
    chrono::Local::now().format("%Y-%m-%d %H:%M:%S%.3f").to_string()
}

/// The local calendar time now, from `chrono::Local::now()`, as (year, month, day,
/// hour, minute, second). The contract claims chrono's documented field ranges only.
#[verifier::external_body]
pub(crate) fn local_now_fields() -> (r: (i32, u32, u32, u32, u32, u32))
    ensures
        1 <= r.1 <= 12 && 1 <= r.2 <= 31 && r.3 < 24 && r.4 < 60 && r.5 < 60,
{
    let now = chrono::Local::now();
    (now.year(), now.month(), now.day(), now.hour(), now.minute(), now.second())
}

/// What `chrono::NaiveDateTime::parse_from_str(s, "%Y-%m-%d %H:%M")` reads from `s`,
/// as `(year, month, day, hour, minute)`; `None` where it fails.
pub uninterp spec fn chrono_parse_minute(s: Seq<char>) -> Option<(i32, u32, u32, u32, u32)>;

/// Reads `s` as `%Y-%m-%d %H:%M` with chrono. The contract claims that the result is
/// a function of the text alone, and chrono's documented field ranges.
#[verifier::external_body]
pub(crate) fn parse_minute_text(s: &str) -> (r: Option<(i32, u32, u32, u32, u32)>)
    ensures
        r == chrono_parse_minute(s@),
        r matches Some(t) ==> 1 <= t.1 <= 12 && 1 <= t.2 <= 31 && t.3 < 24 && t.4 < 60,
{
    match chrono::NaiveDateTime::parse_from_str(s, "%Y-%m-%d %H:%M") {
        Ok(dt) => Some((dt.year(), dt.month(), dt.day(), dt.hour(), dt.minute())),
        Err(_) => None,
    }
}

} // verus!
