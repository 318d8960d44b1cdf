//! Reading the clock, through the `chrono` crate.
//!
//! The library records deletion times as wall-clock timestamps. What time it
//! is only the outside can say; everything after that — bounds, clamping,
//! formatting — is checked here.

use vstd::prelude::*;

use chrono::Datelike;
use chrono::Timelike;

use crate::datetime::{days_in_month, DateTime};

verus! {

/// The UTC calendar parts of a Unix timestamp: what
/// `chrono::DateTime::from_timestamp` answers, a function of the timestamp
/// alone.
pub uninterp spec fn utc_parts_of_unix(ts: i64) -> Option<(i32, u8, u8, u8, u8, u8)>;

/// Relies on chrono::DateTime::from_timestamp and the Datelike/Timelike
/// accessors: month is 1..=12, day 1..=31, hour 0..=23, minute and second
/// 0..=59; out-of-range timestamps give nothing.
#[verifier::external_body]
fn utc_parts(ts: i64) -> (r: Option<(i32, u8, u8, u8, u8, u8)>)
    ensures
        r == utc_parts_of_unix(ts),
        r matches Some(p) ==> 1 <= p.1 <= 12 && 1 <= p.2 <= 31 && p.3 < 24 && p.4 < 60 && p.5 < 60,
{
    chrono::DateTime::from_timestamp(ts, 0).map(|dt| (
        dt.year(),
        dt.month() as u8,
        dt.day() as u8,
        dt.hour() as u8,
        dt.minute() as u8,
        dt.second() as u8,
    ))
}

/// Relies on chrono::Local::now and the Datelike/Timelike accessors, with
/// the same documented ranges. What it answers depends on the clock and the
/// configured time zone, so nothing ties it to its (absent) arguments.
/// Caveat: chrono itself panics when the system clock is set before the
/// Unix epoch; that is a machine state no `requires` on arguments can
/// exclude.
#[verifier::external_body]
fn local_now_parts() -> (r: (i32, u8, u8, u8, u8, u8))
    ensures
        1 <= r.1 <= 12 && 1 <= r.2 <= 31 && r.3 < 24 && r.4 < 60 && r.5 < 60,
{
    let t = chrono::Local::now();
    (t.year(), t.month() as u8, t.day() as u8, t.hour() as u8, t.minute() as u8, t.second() as u8)
}

/// Squeezes raw calendar parts into a valid timestamp: the year is clamped
/// to the four-digit range, and a day past the month's end is clamped to it.
/// Parts already valid pass through unchanged.
pub fn clamp_parts(parts: (i32, u8, u8, u8, u8, u8)) -> (r: DateTime)
    requires
        1 <= parts.1 <= 12,
        1 <= parts.2 <= 31,
        parts.3 < 24,
        parts.4 < 60,
        parts.5 < 60,
    ensures
        r.wf(),
        0 <= parts.0 <= 9999 && parts.2 <= crate::datetime::spec_days_in_month(
            parts.0 as int,
            parts.1 as int,
        ) ==> r == (DateTime {
            year: parts.0 as u16,
            month: parts.1,
            day: parts.2,
            hour: parts.3,
            minute: parts.4,
            second: parts.5,
        }),
{
    let year: u16 = if parts.0 < 0 {
        0
    } else if parts.0 > 9999 {
        9999
    } else {
        parts.0 as u16
    };
    let dim = days_in_month(year, parts.1);
    let day: u8 = if parts.2 > dim {
        dim
    } else {
        parts.2
    };
    DateTime { year, month: parts.1, day, hour: parts.3, minute: parts.4, second: parts.5 }
}

/// The current local wall-clock time, as a valid timestamp.
pub fn local_now() -> (r: DateTime)
    ensures
        r.wf(),
{
    clamp_parts(local_now_parts())
}

/// The valid timestamp a Unix time names in UTC, if the raw parts fit the
/// four-digit-year calendar as they stand.
pub open spec fn dt_of_unix(ts: i64) -> Option<DateTime> {
    match utc_parts_of_unix(ts) {
        Some(p) => {
            let dt = DateTime {
                year: p.0 as u16,
                month: p.1,
                day: p.2,
                hour: p.3,
                minute: p.4,
                second: p.5,
            };
            if 0 <= p.0 <= 9999 && dt.wf() {
                Some(dt)
            } else {
                None
            }
        },
        None => None,
    }
}

/// Converts a Unix timestamp for display.
pub fn datetime_from_unix(ts: i64) -> (r: Option<DateTime>)
    ensures
        r == dt_of_unix(ts),
        r matches Some(dt) ==> dt.wf(),
{
    match utc_parts(ts) {
        Some(p) => {
            if p.0 < 0 || p.0 > 9999 {
                return None;
            }
            let dt = DateTime {
                year: p.0 as u16,
                month: p.1,
                day: p.2,
                hour: p.3,
                minute: p.4,
                second: p.5,
            };
            if dt.is_wf() {
                Some(dt)
            } else {
                None
            }
        },
        None => None,
    }
}

} // verus!
