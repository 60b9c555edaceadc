//! Trusted bridge to the calendar library.
//!
//! Everything here either anchors a civil time in the server's local
//! timezone (machine-dependent, so nothing is assumed of the values) or
//! evaluates a UTC calendar function of an epoch second. The UTC results
//! are functions of the arguments alone and are given names
//! (`utc_year_of`, ...) that the statistics contracts are stated over.
use vstd::prelude::*;

use chrono::{Datelike, TimeZone, Timelike};

use crate::timeparse::{parse_civil, parse_civil_spec, format_civil, civil_fields_valid, Civil, CivilV};

verus! {

/// Epoch seconds of the years 1 through 9999: a conservative range on
/// which every UTC calendar lookup below is known to succeed.
pub open spec fn ts_in_civil_range(ts: int) -> bool {
    -62135596800 <= ts <= 253402300799
}

/// The UTC calendar year of an epoch second.
pub uninterp spec fn utc_year_of(ts: int) -> int;

/// The UTC calendar month (1..=12) of an epoch second.
pub uninterp spec fn utc_month_of(ts: int) -> int;

/// The UTC day of month (1..=31) of an epoch second.
pub uninterp spec fn utc_mday_of(ts: int) -> int;

/// The ISO weekday (Monday = 1 .. Sunday = 7) of an epoch second, in UTC.
pub uninterp spec fn utc_weekday_of(ts: int) -> int;

/// The epoch second of `year-month-01 00:00:00` UTC.
pub uninterp spec fn utc_month_start(year: int, month: int) -> int;

/// Whether `(year, month)` is a calendar month the library's calendar
/// can place: the month is 1..=12 and the year in chrono's range.
pub uninterp spec fn ym_valid(year: int, month: int) -> bool;

/// Whether `(year, week)` is a valid ISO week-date.
pub uninterp spec fn iso_week_valid(year: int, week: int) -> bool;

/// The epoch second of the Monday of ISO week `(year, week)`, UTC midnight.
pub uninterp spec fn iso_week_start(year: int, week: int) -> int;

/// Relies on chrono `DateTime::from_timestamp` and `Datelike::year`: the
/// UTC year of an epoch second, `None` only outside chrono's range, which
/// holds all of years 1 through 9999.
#[verifier::external_body]
pub fn year_of_timestamp(ts: i64) -> (r: Option<i32>)
    ensures
        r matches Some(y) ==> y as int == utc_year_of(ts as int),
        ts_in_civil_range(ts as int) ==> r is Some,
{
    chrono::DateTime::from_timestamp(ts, 0).map(|d| d.year())
}

/// Relies on chrono `DateTime::from_timestamp` and `Datelike::month`,
/// documented to return a month number 1 through 12.
#[verifier::external_body]
pub fn month_of_timestamp(ts: i64) -> (r: Option<u32>)
    ensures
        r matches Some(m) ==> m as int == utc_month_of(ts as int) && 1 <= m <= 12,
        ts_in_civil_range(ts as int) ==> r is Some,
{
    chrono::DateTime::from_timestamp(ts, 0).map(|d| d.month())
}

/// Relies on chrono `DateTime::from_timestamp` and `Datelike::day`,
/// documented to return a day-of-month number 1 through 31.
#[verifier::external_body]
pub fn mday_of_timestamp(ts: i64) -> (r: Option<u32>)
    ensures
        r matches Some(d) ==> d as int == utc_mday_of(ts as int) && 1 <= d <= 31,
        ts_in_civil_range(ts as int) ==> r is Some,
{
    chrono::DateTime::from_timestamp(ts, 0).map(|d| d.day())
}

/// Relies on chrono `DateTime::from_timestamp`, `Datelike::weekday` and
/// `Weekday::num_days_from_monday` (0 for Monday through 6 for Sunday);
/// shifted here so that Monday is 1 and Sunday is 7.
#[verifier::external_body]
pub fn weekday_of_timestamp(ts: i64) -> (r: Option<u32>)
    ensures
        r matches Some(w) ==> w as int == utc_weekday_of(ts as int) && 1 <= w <= 7,
        ts_in_civil_range(ts as int) ==> r is Some,
{
    chrono::DateTime::from_timestamp(ts, 0)
        .map(|d| d.weekday().num_days_from_monday() + 1)
}

/// Relies on chrono `Utc.with_ymd_and_hms(year, month, 1, 0, 0, 0)`:
/// the epoch second of the first instant of the month, `None` only for
/// invalid months or years outside chrono's range, which spans all years
/// 0 through 9999 and stays within +/- 300000; every timestamp of that
/// range lies well within 2^53 seconds of the epoch.
#[verifier::external_body]
pub fn month_start_timestamp(year: i32, month: u32) -> (r: Option<i64>)
    ensures
        r matches Some(t) ==> t as int == utc_month_start(year as int, month as int),
        r matches Some(t) ==> -9007199254740992 <= t <= 9007199254740992,
        r is Some <==> ym_valid(year as int, month as int),
        r is Some ==> -300000 <= year <= 300000,
        0 <= year <= 9999 && 1 <= month <= 12 ==> r is Some,
{
    chrono::Utc.with_ymd_and_hms(year, month, 1, 0, 0, 0).single().map(|d| d.timestamp())
}

/// Relies on chrono `NaiveDate::from_isoywd_opt(year, week, Monday)`:
/// the epoch second of UTC midnight of that Monday, `None` exactly when
/// `(year, week)` is not a valid ISO week-date for chrono; the timestamp
/// of any chrono date lies well within 2^53 seconds of the epoch.
#[verifier::external_body]
pub fn iso_week_start_timestamp(year: i32, week: u32) -> (r: Option<i64>)
    ensures
        r matches Some(t) ==> t as int == iso_week_start(year as int, week as int),
        r matches Some(t) ==> -9007199254740992 <= t <= 9007199254740992,
        r is Some <==> iso_week_valid(year as int, week as int),
{
    let date = chrono::NaiveDate::from_isoywd_opt(year, week, chrono::Weekday::Mon)?;
    let ndt = date.and_hms_opt(0, 0, 0)?;
    Some(chrono::Utc.from_utc_datetime(&ndt).timestamp())
}

/// Relies on chrono `NaiveDate::from_ymd_opt`, `NaiveDate::and_hms_opt`
/// and `Local.from_local_datetime(..).earliest()`: the earliest instant
/// whose local civil time equals `c`, `None` when the local timezone has
/// none (a DST gap) or the date is out of range. The value depends on the
/// machine's timezone, so nothing is assumed of it.
#[verifier::external_body]
fn civil_to_local_epoch(c: &Civil) -> (r: Option<i64>)
{
    let date = chrono::NaiveDate::from_ymd_opt(c.year, c.month, c.day)?;
    let ndt = date.and_hms_opt(c.hour, c.minute, c.second)?;
    chrono::Local.from_local_datetime(&ndt).earliest().map(|d| d.timestamp())
}

/// Relies on chrono `Local.timestamp_opt(..).single()` and the `Datelike`
/// / `Timelike` accessors of the naive local view: the local civil time
/// of an instant. The value depends on the machine's timezone, so nothing
/// is assumed of it.
#[verifier::external_body]
fn local_civil_of_epoch(ts: i64) -> (r: Option<Civil>)
{
    let n = chrono::Local.timestamp_opt(ts, 0).single()?.naive_local();
    Some(Civil {
        year: n.year(),
        month: n.month(),
        day: n.day(),
        hour: n.hour(),
        minute: n.minute(),
        second: n.second(),
    })
}

/// Resolves a timestamp string to epoch seconds: the civil time it spells
/// in one of the four accepted shapes, anchored in the server's local
/// timezone by the earliest-valid-local-time rule. Fails exactly when no
/// shape matches, a field is out of range, or the local timezone has no
/// such instant.
pub fn parse_timestamp(s: &str) -> (r: Result<i64, String>)
    ensures
        parse_civil_spec(s@) is None ==> r is Err,
        r is Ok ==> parse_civil_spec(s@) is Some,
        r matches Err(m) ==> m@ == "bad timestamp"@,
{
    match parse_civil(s) {
        Some(c) => match civil_to_local_epoch(&c) {
            Some(t) => Ok(t),
            None => Err("bad timestamp".to_owned()),
        },
        None => Err("bad timestamp".to_owned()),
    }
}

fn civil_valid_exec(c: &Civil) -> (r: bool)
    ensures
        r == civil_fields_valid(c@),
{
    0 <= c.year && c.year <= 9999 && 1 <= c.month && c.month <= 12 && 1 <= c.day
        && c.day <= crate::timeparse::days_in_month_exec(c.year, c.month) && c.hour <= 23
        && c.minute <= 59 && c.second <= 59
}

/// Renders an epoch second as the full-precision local civil time
/// `YYYY-MM-DD HH:MM:SS`, when the instant has a local view within years
/// 0 through 9999.
pub fn format_timestamp(ts: i64) -> (r: Option<String>)
    ensures
        r matches Some(v) ==> exists|c: CivilV|
            civil_fields_valid(c) && v@ == crate::timeparse::format_civil_spec(c),
{
    match local_civil_of_epoch(ts) {
        Some(c) => {
            if civil_valid_exec(&c) {
                let out = format_civil(&c);
                proof {
                    assert(civil_fields_valid(c@)
                        && out@ == crate::timeparse::format_civil_spec(c@));
                }
                Some(out)
            } else {
                None
            }
        },
        None => None,
    }
}

} // verus!
