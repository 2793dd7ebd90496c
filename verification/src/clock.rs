//! Wall-clock and timezone queries, answered by chrono. Both results depend
//! on the machine (its clock, its timezone database), so the contracts state
//! only what holds of every outcome; everything built on them takes the
//! returned plain values as inputs.

use vstd::prelude::*;
use crate::datetime::{Timestamp, valid_date};
use crate::datetime::timestamp_wf_exec;
use chrono::Datelike;
use chrono::Timelike;

verus! {

/// Relies on chrono's `Utc::now` and the `Datelike`/`Timelike` accessors:
/// the current UTC time as plain calendar fields. chrono documents the
/// accessor ranges (month 1-12, day 1-31, hour below 24, minute and second
/// below 60); of a clock nothing more can be promised. Like every reading
/// of the system clock through chrono, this presumes a sane environment:
/// on a clock set before 1970 the call itself stops the process.
#[verifier::external_body]
fn now_utc_parts() -> (r: (i32, u32, u32, u32, u32, u32))
    ensures
        1 <= r.1 <= 12,
        1 <= r.2 <= 31,
        r.3 < 24,
        r.4 < 60,
        r.5 < 60,
{
    let t = chrono::Utc::now();
    (t.year(), t.month(), t.day(), t.hour(), t.minute(), t.second())
}

/// The current UTC time as a well-formed timestamp. Should the clock report
/// an instant outside the supported calendar (a year with more than four
/// digits), the epoch instant stands in, so the result is always usable.
pub fn now_or_default() -> (r: Timestamp)
    ensures
        r.wf(),
{
    let (y, mo, d, h, mi, s) = now_utc_parts();
    if 0 <= y && y <= 9999 {
        let t = Timestamp {
            year: y as u32,
            month: mo,
            day: d,
            hour: h,
            minute: mi,
            second: s,
        };
        if timestamp_wf_exec(&t) {
            return t;
        }
    }
    Timestamp { year: 1970, month: 1, day: 1, hour: 0, minute: 0, second: 0 }
}

/// Relies on chrono's `Local` timezone, method `offset_from_utc_datetime` of
/// its `TimeZone` impl: the machine zone's offset at the given UTC instant,
/// in seconds east. A chrono `FixedOffset` is strictly within one day of
/// zero, which is all that can be said of a machine-dependent lookup. Like
/// every `Local` lookup through chrono, this presumes a sane timezone
/// database: on a corrupt one the call itself stops the process.
#[verifier::external_body]
fn local_offset_secs(y: u32, mo: u32, d: u32, h: u32, mi: u32, s: u32) -> (r: i32)
    requires
        valid_date(y as int, mo as int, d as int),
        h < 24,
        mi < 60,
        s < 60,
    ensures
        -86400 < r < 86400,
{
    let date = chrono::NaiveDate::from_ymd_opt(y as i32, mo, d).unwrap();
    let time = chrono::NaiveTime::from_hms_opt(h, mi, s).unwrap();
    let offset = chrono::TimeZone::offset_from_utc_datetime(&chrono::Local, &date.and_time(time));
    offset.local_minus_utc()
}

/// The machine zone's offset at the UTC instant `t`, in whole minutes
/// (truncated toward zero), strictly within one day of zero.
pub fn local_offset_minutes(t: &Timestamp) -> (r: i32)
    requires
        t.wf(),
    ensures
        -1440 < r < 1440,
{
    let secs = local_offset_secs(t.year, t.month, t.day, t.hour, t.minute, t.second);
    if secs < 0 {
        -((((-secs) as u32) / 60) as i32)
    } else {
        ((secs as u32) / 60) as i32
    }
}

} // verus!
