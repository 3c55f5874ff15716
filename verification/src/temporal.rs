//! The calendar helpers of expressions: adding days or seconds to dates,
//! date-times and times of day, their differences, and formatting them.
//! The values are read with the library's parsers and computed by chrono.
use vstd::prelude::*;

use chrono::{Datelike, NaiveDate, NaiveTime, TimeDelta, Timelike};
use std::fmt::Write;

use crate::data::{
    date_formats, datetime_formats, first_date, first_datetime, first_time, parse_naive_date,
    parse_naive_datetime, parse_naive_time, time_formats, CivilDate, CivilDateTime, CivilTime,
};

verus! {

// ---------------------------------------------------------------------------
// Reading the arguments
// ---------------------------------------------------------------------------

/// A date argument as the library reads it, or the message refusing it.
pub open spec fn date_reading(v: Seq<char>) -> Result<CivilDate, Seq<char>> {
    match first_date(v, date_formats()) {
        Some(d) => Ok(d),
        None => Err("Failed to parse '"@ + v + "' as date"@),
    }
}

/// A date-time argument as the library reads it, or the message refusing it.
pub open spec fn datetime_reading(v: Seq<char>) -> Result<CivilDateTime, Seq<char>> {
    match first_datetime(v, datetime_formats()) {
        Some(d) => Ok(d),
        None => Err("Failed to parse '"@ + v + "' as datetime"@),
    }
}

/// A time argument as the library reads it, or the message refusing it.
pub open spec fn time_reading(v: Seq<char>) -> Result<CivilTime, Seq<char>> {
    match first_time(v, time_formats()) {
        Some(d) => Ok(d),
        None => Err("Failed to parse '"@ + v + "' as time"@),
    }
}

/// A number of seconds that `chrono::TimeDelta::seconds` accepts (it panics
/// beyond `i64::MAX / 1000` either way).
pub open spec fn delta_seconds_ok(s: int) -> bool {
    -(i64::MAX / 1000) <= s <= i64::MAX / 1000
}

/// A number of days that `chrono::TimeDelta::days` accepts.
pub open spec fn delta_days_ok(d: int) -> bool {
    delta_seconds_ok(d * 86400)
}

pub fn seconds_delta_ok(s: i64) -> (r: bool)
    ensures
        r == delta_seconds_ok(s as int),
{
    -(i64::MAX / 1000) <= s && s <= i64::MAX / 1000
}

pub fn days_delta_ok(d: i64) -> (r: bool)
    ensures
        r == delta_days_ok(d as int),
{
    match d.checked_mul(86400) {
        Some(s) => seconds_delta_ok(s),
        None => false,
    }
}

// ---------------------------------------------------------------------------
// What chrono computes
// ---------------------------------------------------------------------------

/// What `NaiveDate::checked_add_signed(TimeDelta::days(days))` gives for
/// the date (`None` also for a date chrono would not make).
pub uninterp spec fn chrono_date_add_days(d: CivilDate, days: i64) -> Option<CivilDate>;

/// What `NaiveDate::checked_sub_signed(TimeDelta::days(days))` gives.
pub uninterp spec fn chrono_date_sub_days(d: CivilDate, days: i64) -> Option<CivilDate>;

/// `(end - start).num_days()` for two dates (`None` when one is not a
/// date chrono would make).
pub uninterp spec fn chrono_days_between(end: CivilDate, start: CivilDate) -> Option<i64>;

/// What `NaiveDateTime::checked_add_signed(TimeDelta::seconds(secs))` gives.
pub uninterp spec fn chrono_datetime_add_seconds(dt: CivilDateTime, secs: i64) -> Option<CivilDateTime>;

/// `(end - start).num_seconds()` for two date-times.
pub uninterp spec fn chrono_datetime_seconds_between(end: CivilDateTime, start: CivilDateTime) -> Option<i64>;

/// What `NaiveTime::overflowing_add_signed(TimeDelta::seconds(secs))` gives:
/// the time, and the seconds it wrapped past (a whole number of days,
/// written in seconds).
pub uninterp spec fn chrono_time_add_seconds(t: CivilTime, secs: i64) -> Option<(CivilTime, i64)>;

/// `(end - start).num_seconds()` for two times of day.
pub uninterp spec fn chrono_time_seconds_between(end: CivilTime, start: CivilTime) -> Option<i64>;

/// The text `NaiveDate::format(fmt)` writes (`None` when writing fails,
/// as for a bad format).
pub uninterp spec fn chrono_date_format(d: CivilDate, fmt: Seq<char>) -> Option<Seq<char>>;

/// The text `NaiveDateTime::format(fmt)` writes.
pub uninterp spec fn chrono_datetime_format(dt: CivilDateTime, fmt: Seq<char>) -> Option<Seq<char>>;

/// The text `NaiveTime::format(fmt)` writes.
pub uninterp spec fn chrono_time_format(t: CivilTime, fmt: Seq<char>) -> Option<Seq<char>>;

/// Calls `NaiveDate::checked_add_signed` with `TimeDelta::days`; named
/// `chrono_date_add_days`.
#[verifier::external_body]
fn date_add_days(d: CivilDate, days: i64) -> (r: Option<CivilDate>)
    requires
        delta_days_ok(days as int),
    ensures
        r == chrono_date_add_days(d, days),
{
    let n = NaiveDate::from_ymd_opt(d.year, d.month, d.day)?.checked_add_signed(TimeDelta::days(days))?;
    Some(CivilDate { year: n.year(), month: n.month(), day: n.day() })
}

/// Calls `NaiveDate::checked_sub_signed` with `TimeDelta::days`; named
/// `chrono_date_sub_days`.
#[verifier::external_body]
fn date_sub_days(d: CivilDate, days: i64) -> (r: Option<CivilDate>)
    requires
        delta_days_ok(days as int),
    ensures
        r == chrono_date_sub_days(d, days),
{
    let n = NaiveDate::from_ymd_opt(d.year, d.month, d.day)?.checked_sub_signed(TimeDelta::days(days))?;
    Some(CivilDate { year: n.year(), month: n.month(), day: n.day() })
}

/// Calls `Sub for NaiveDate` and `TimeDelta::num_days`; named
/// `chrono_days_between`.
#[verifier::external_body]
fn days_between(end: CivilDate, start: CivilDate) -> (r: Option<i64>)
    ensures
        r == chrono_days_between(end, start),
{
    let e = NaiveDate::from_ymd_opt(end.year, end.month, end.day)?;
    let s = NaiveDate::from_ymd_opt(start.year, start.month, start.day)?;
    Some((e - s).num_days())
}

/// Calls `NaiveDateTime::checked_add_signed` with `TimeDelta::seconds`;
/// named `chrono_datetime_add_seconds`.
#[verifier::external_body]
fn datetime_add_secs(dt: CivilDateTime, secs: i64) -> (r: Option<CivilDateTime>)
    requires
        delta_seconds_ok(secs as int),
    ensures
        r == chrono_datetime_add_seconds(dt, secs),
{
    let d = NaiveDate::from_ymd_opt(dt.date.year, dt.date.month, dt.date.day)?;
    let n = d.and_hms_nano_opt(dt.time.hour, dt.time.minute, dt.time.second, dt.time.nanosecond)?;
    let m = n.checked_add_signed(TimeDelta::seconds(secs))?;
    Some(CivilDateTime {
        date: CivilDate { year: m.year(), month: m.month(), day: m.day() },
        time: CivilTime { hour: m.hour(), minute: m.minute(), second: m.second(), nanosecond: m.nanosecond() },
    })
}

/// Calls `Sub for NaiveDateTime` and `TimeDelta::num_seconds`; named
/// `chrono_datetime_seconds_between`.
#[verifier::external_body]
fn datetime_seconds_between(end: CivilDateTime, start: CivilDateTime) -> (r: Option<i64>)
    ensures
        r == chrono_datetime_seconds_between(end, start),
{
    let e = NaiveDate::from_ymd_opt(end.date.year, end.date.month, end.date.day)?
        .and_hms_nano_opt(end.time.hour, end.time.minute, end.time.second, end.time.nanosecond)?;
    let s = NaiveDate::from_ymd_opt(start.date.year, start.date.month, start.date.day)?
        .and_hms_nano_opt(start.time.hour, start.time.minute, start.time.second, start.time.nanosecond)?;
    Some((e - s).num_seconds())
}

/// Calls `NaiveTime::overflowing_add_signed` with `TimeDelta::seconds`;
/// named `chrono_time_add_seconds`.
#[verifier::external_body]
fn time_add_secs(t: CivilTime, secs: i64) -> (r: Option<(CivilTime, i64)>)
    requires
        delta_seconds_ok(secs as int),
    ensures
        r == chrono_time_add_seconds(t, secs),
{
    let n = NaiveTime::from_hms_nano_opt(t.hour, t.minute, t.second, t.nanosecond)?;
    let (m, days) = n.overflowing_add_signed(TimeDelta::seconds(secs));
    Some((CivilTime { hour: m.hour(), minute: m.minute(), second: m.second(), nanosecond: m.nanosecond() }, days))
}

/// Calls `Sub for NaiveTime` and `TimeDelta::num_seconds`; named
/// `chrono_time_seconds_between`.
#[verifier::external_body]
fn time_seconds_between(end: CivilTime, start: CivilTime) -> (r: Option<i64>)
    ensures
        r == chrono_time_seconds_between(end, start),
{
    match (
        NaiveTime::from_hms_nano_opt(end.hour, end.minute, end.second, end.nanosecond),
        NaiveTime::from_hms_nano_opt(start.hour, start.minute, start.second, start.nanosecond),
    ) {
        (Some(e), Some(s)) => Some((e - s).num_seconds()),
        _ => None,
    }
}

/// Writes `NaiveDate::format(fmt)` into a `String`; named
/// `chrono_date_format`.
#[verifier::external_body]
fn format_date(d: CivilDate, fmt: &str) -> (r: Option<String>)
    ensures
        r matches Some(t) ==> chrono_date_format(d, fmt@) == Some(t@),
        r is None ==> chrono_date_format(d, fmt@) is None,
{
    let n = NaiveDate::from_ymd_opt(d.year, d.month, d.day)?;
    let mut out = String::new();
    write!(out, "{}", n.format(fmt)).ok()?;
    Some(out)
}

/// Writes `NaiveDateTime::format(fmt)` into a `String`; named
/// `chrono_datetime_format`.
#[verifier::external_body]
fn format_datetime(dt: CivilDateTime, fmt: &str) -> (r: Option<String>)
    ensures
        r matches Some(t) ==> chrono_datetime_format(dt, fmt@) == Some(t@),
        r is None ==> chrono_datetime_format(dt, fmt@) is None,
{
    let n = NaiveDate::from_ymd_opt(dt.date.year, dt.date.month, dt.date.day)?
        .and_hms_nano_opt(dt.time.hour, dt.time.minute, dt.time.second, dt.time.nanosecond)?;
    let mut out = String::new();
    write!(out, "{}", n.format(fmt)).ok()?;
    Some(out)
}

/// Writes `NaiveTime::format(fmt)` into a `String`; named
/// `chrono_time_format`.
#[verifier::external_body]
fn format_time(t: CivilTime, fmt: &str) -> (r: Option<String>)
    ensures
        r matches Some(x) ==> chrono_time_format(t, fmt@) == Some(x@),
        r is None ==> chrono_time_format(t, fmt@) is None,
{
    let n = NaiveTime::from_hms_nano_opt(t.hour, t.minute, t.second, t.nanosecond)?;
    let mut out = String::new();
    write!(out, "{}", n.format(fmt)).ok()?;
    Some(out)
}

// ---------------------------------------------------------------------------
// The helpers
// ---------------------------------------------------------------------------

/// A computed text, or the message for a value chrono would not make (the
/// library's parsers never give one).
pub open spec fn text_or_invalid(o: Option<Seq<char>>) -> Result<Seq<char>, Seq<char>> {
    match o {
        Some(t) => Ok(t),
        None => Err("Invalid calendar value"@),
    }
}

/// A computed number, or the message for a value chrono would not make.
pub open spec fn number_or_invalid(o: Option<i64>) -> Result<i64, Seq<char>> {
    match o {
        Some(n) => Ok(n),
        None => Err("Invalid calendar value"@),
    }
}

fn text_result(o: Option<String>) -> (r: Result<String, String>)
    ensures
        match o {
            Some(t) => r matches Ok(x) && x@ == t@,
            None => r matches Err(e) && e@ == "Invalid calendar value"@,
        },
{
    match o {
        Some(t) => Ok(t),
        None => Err("Invalid calendar value".to_string()),
    }
}

fn number_result(o: Option<i64>) -> (r: Result<i64, String>)
    ensures
        match o {
            Some(n) => r == Ok::<i64, String>(n),
            None => r matches Err(e) && e@ == "Invalid calendar value"@,
        },
{
    match o {
        Some(n) => Ok(n),
        None => Err("Invalid calendar value".to_string()),
    }
}

/// `date_add(date, days)` and `date_sub(date, days)`: the date moved by the
/// days, as `%Y-%m-%d`.
pub open spec fn date_shift_outcome(date: Seq<char>, moved: spec_fn(CivilDate) -> Option<CivilDate>, overflow: Seq<char>) -> Result<
    Seq<char>,
    Seq<char>,
> {
    match date_reading(date) {
        Err(e) => Err(e),
        Ok(d) => match moved(d) {
            None => Err(overflow),
            Some(n) => text_or_invalid(chrono_date_format(n, "%Y-%m-%d"@)),
        },
    }
}

/// Matches a text result with its specification.
pub open spec fn text_matches(r: Result<String, String>, s: Result<Seq<char>, Seq<char>>) -> bool {
    match s {
        Ok(t) => r matches Ok(x) && x@ == t,
        Err(e) => r matches Err(x) && x@ == e,
    }
}

/// Matches a number result with its specification.
pub open spec fn number_matches(r: Result<i64, String>, s: Result<i64, Seq<char>>) -> bool {
    match s {
        Ok(n) => r == Ok::<i64, String>(n),
        Err(e) => r matches Err(x) && x@ == e,
    }
}

/// The date `days` days later.
pub fn date_add(date: &str, days: i64) -> (r: Result<String, String>)
    requires
        delta_days_ok(days as int),
    ensures
        text_matches(r, date_shift_outcome(date@, |d: CivilDate| chrono_date_add_days(d, days), "date_add overflow"@)),
{
    let d = parse_naive_date(date)?;
    match date_add_days(d, days) {
        None => Err("date_add overflow".to_string()),
        Some(n) => text_result(format_date(n, "%Y-%m-%d")),
    }
}

/// The date `days` days earlier.
pub fn date_sub(date: &str, days: i64) -> (r: Result<String, String>)
    requires
        delta_days_ok(days as int),
    ensures
        text_matches(r, date_shift_outcome(date@, |d: CivilDate| chrono_date_sub_days(d, days), "date_sub overflow"@)),
{
    let d = parse_naive_date(date)?;
    match date_sub_days(d, days) {
        None => Err("date_sub overflow".to_string()),
        Some(n) => text_result(format_date(n, "%Y-%m-%d")),
    }
}

/// The days from `start` to `end`.
pub fn date_diff_days(end: &str, start: &str) -> (r: Result<i64, String>)
    ensures
        number_matches(
            r,
            match (date_reading(end@), date_reading(start@)) {
                (Err(e), _) => Err(e),
                (Ok(_), Err(e)) => Err(e),
                (Ok(a), Ok(b)) => number_or_invalid(chrono_days_between(a, b)),
            },
        ),
{
    let a = parse_naive_date(end)?;
    let b = parse_naive_date(start)?;
    number_result(days_between(a, b))
}

/// The date written with a chrono format; `None` where chrono cannot write
/// the date with that format (an unknown specifier, or one of a time).
pub fn date_format(date: &str, fmt: &str) -> (r: Option<Result<String, String>>)
    ensures
        match date_reading(date@) {
            Err(e) => r matches Some(Err(x)) && x@ == e,
            Ok(d) => match chrono_date_format(d, fmt@) {
                Some(t) => r matches Some(Ok(x)) && x@ == t,
                None => r is None,
            },
        },
{
    match parse_naive_date(date) {
        Err(e) => Some(Err(e)),
        Ok(d) => match format_date(d, fmt) {
            Some(t) => Some(Ok(t)),
            None => None,
        },
    }
}

/// The date-time `seconds` seconds later, as `%Y-%m-%d %H:%M:%S`.
pub fn datetime_add_seconds(datetime: &str, seconds: i64) -> (r: Result<String, String>)
    requires
        delta_seconds_ok(seconds as int),
    ensures
        text_matches(
            r,
            match datetime_reading(datetime@) {
                Err(e) => Err(e),
                Ok(d) => match chrono_datetime_add_seconds(d, seconds) {
                    None => Err("datetime_add_seconds overflow"@),
                    Some(n) => text_or_invalid(chrono_datetime_format(n, "%Y-%m-%d %H:%M:%S"@)),
                },
            },
        ),
{
    let d = parse_naive_datetime(datetime)?;
    match datetime_add_secs(d, seconds) {
        None => Err("datetime_add_seconds overflow".to_string()),
        Some(n) => text_result(format_datetime(n, "%Y-%m-%d %H:%M:%S")),
    }
}

/// The seconds from `start` to `end`.
pub fn datetime_diff_seconds(end: &str, start: &str) -> (r: Result<i64, String>)
    ensures
        number_matches(
            r,
            match (datetime_reading(end@), datetime_reading(start@)) {
                (Err(e), _) => Err(e),
                (Ok(_), Err(e)) => Err(e),
                (Ok(a), Ok(b)) => number_or_invalid(chrono_datetime_seconds_between(a, b)),
            },
        ),
{
    let a = parse_naive_datetime(end)?;
    let b = parse_naive_datetime(start)?;
    number_result(datetime_seconds_between(a, b))
}

/// The date-time written with a chrono format; `None` where chrono cannot
/// write it with that format.
pub fn datetime_format(datetime: &str, fmt: &str) -> (r: Option<Result<String, String>>)
    ensures
        match datetime_reading(datetime@) {
            Err(e) => r matches Some(Err(x)) && x@ == e,
            Ok(d) => match chrono_datetime_format(d, fmt@) {
                Some(t) => r matches Some(Ok(x)) && x@ == t,
                None => r is None,
            },
        },
{
    match parse_naive_datetime(datetime) {
        Err(e) => Some(Err(e)),
        Ok(d) => match format_datetime(d, fmt) {
            Some(t) => Some(Ok(t)),
            None => None,
        },
    }
}

/// The date of a date-time, as `%Y-%m-%d`.
pub fn datetime_to_date(datetime: &str) -> (r: Result<String, String>)
    ensures
        text_matches(
            r,
            match datetime_reading(datetime@) {
                Err(e) => Err(e),
                Ok(d) => text_or_invalid(chrono_date_format(d.date, "%Y-%m-%d"@)),
            },
        ),
{
    let d = parse_naive_datetime(datetime)?;
    text_result(format_date(d.date, "%Y-%m-%d"))
}

/// The time of a date-time, as `%H:%M:%S`.
pub fn datetime_to_time(datetime: &str) -> (r: Result<String, String>)
    ensures
        text_matches(
            r,
            match datetime_reading(datetime@) {
                Err(e) => Err(e),
                Ok(d) => text_or_invalid(chrono_time_format(d.time, "%H:%M:%S"@)),
            },
        ),
{
    let d = parse_naive_datetime(datetime)?;
    text_result(format_time(d.time, "%H:%M:%S"))
}

/// The time `seconds` seconds later, as `%H:%M:%S`; passing midnight is an
/// overflow.
pub fn time_add_seconds(time: &str, seconds: i64) -> (r: Result<String, String>)
    requires
        delta_seconds_ok(seconds as int),
    ensures
        text_matches(
            r,
            match time_reading(time@) {
                Err(e) => Err(e),
                Ok(t) => match chrono_time_add_seconds(t, seconds) {
                    None => Err("Invalid calendar value"@),
                    Some((m, days)) => if days != 0 {
                        Err("time_add_seconds overflow"@)
                    } else {
                        text_or_invalid(chrono_time_format(m, "%H:%M:%S"@))
                    },
                },
            },
        ),
{
    let t = parse_naive_time(time)?;
    match time_add_secs(t, seconds) {
        None => Err("Invalid calendar value".to_string()),
        Some((m, days)) => {
            if days != 0 {
                Err("time_add_seconds overflow".to_string())
            } else {
                text_result(format_time(m, "%H:%M:%S"))
            }
        },
    }
}

/// The seconds from `start` to `end`, two times of day.
pub fn time_diff_seconds(end: &str, start: &str) -> (r: Result<i64, String>)
    ensures
        number_matches(
            r,
            match (time_reading(end@), time_reading(start@)) {
                (Err(e), _) => Err(e),
                (Ok(_), Err(e)) => Err(e),
                (Ok(a), Ok(b)) => number_or_invalid(chrono_time_seconds_between(a, b)),
            },
        ),
{
    let a = parse_naive_time(end)?;
    let b = parse_naive_time(start)?;
    number_result(time_seconds_between(a, b))
}

} // verus!
