//! The wall clock. One trusted wrapper reads the seconds since the Unix epoch
//! through std, another turns a timestamp into civil fields through chrono;
//! both are total, and everything downstream works on the plain values they
//! return.
use vstd::prelude::*;

use crate::datetime::{days_in_month, Date, DateTime, Time};
use chrono::{Datelike, Timelike};

verus! {

/// Relies on std's `SystemTime::now` and `duration_since`: the whole seconds
/// since the Unix epoch, and zero when the system clock is set before it.
/// Nothing further can be promised of a clock reading.
#[verifier::external_body]
fn system_unix_secs() -> u64 {
    match std::time::SystemTime::now().duration_since(std::time::UNIX_EPOCH) {
        Ok(d) => d.as_secs(),
        Err(_) => 0,
    }
}

/// The civil fields of one instant, as plain values.
pub struct RawCivil {
    pub year: i32,
    pub month: u32,
    pub day: u32,
    pub hour: u32,
    pub minute: u32,
    pub second: u32,
}

/// Relies on `chrono::DateTime::<Utc>::from_timestamp` and the
/// `Datelike`/`Timelike` accessors: an in-range timestamp yields a real
/// calendar date (month 1..=12, day within the month) and a real clock time
/// (hour < 24, minute and second < 60); an out-of-range timestamp yields
/// nothing. None of these calls panics.
#[verifier::external_body]
fn chrono_civil_from_unix(secs: i64) -> (r: Option<RawCivil>)
    ensures
        r matches Some(c) ==> 1 <= c.month <= 12 && 1 <= c.day <= days_in_month(
            c.year as int,
            c.month as int,
        ) && c.hour < 24 && c.minute < 60 && c.second < 60,
{
    chrono::DateTime::<chrono::Utc>::from_timestamp(secs, 0).map(
        |dt|
            RawCivil {
                year: dt.year(),
                month: dt.month(),
                day: dt.day(),
                hour: dt.hour(),
                minute: dt.minute(),
                second: dt.second(),
            },
    )
}

/// The current UTC instant as a well-formed civil datetime. A reading that
/// chrono cannot place, or whose year falls outside the four-digit range, is
/// replaced by the Unix epoch, so the result is always well-formed.
pub fn now_utc() -> (t: DateTime)
    ensures
        t.wf(),
{
    let secs = now_unix_secs();
    let secs_signed: i64 = if secs > i64::MAX as u64 {
        i64::MAX
    } else {
        secs as i64
    };
    match chrono_civil_from_unix(secs_signed) {
        Some(c) => {
            if 0 <= c.year && c.year <= 9999 {
                DateTime {
                    date: Date { year: c.year as u16, month: c.month as u8, day: c.day as u8 },
                    time: Time { hour: c.hour as u8, minute: c.minute as u8, second: c.second as u8 },
                }
            } else {
                epoch_instant()
            }
        },
        None => epoch_instant(),
    }
}

/// Midnight at the start of the Unix epoch.
fn epoch_instant() -> (t: DateTime)
    ensures
        t.wf(),
        t == (DateTime {
            date: Date { year: 1970, month: 1, day: 1 },
            time: Time { hour: 0, minute: 0, second: 0 },
        }),
{
    DateTime {
        date: Date { year: 1970, month: 1, day: 1 },
        time: Time { hour: 0, minute: 0, second: 0 },
    }
}

/// The current Unix timestamp in whole seconds; zero for a clock set before
/// the epoch.
pub fn now_unix_secs() -> u64 {
    system_unix_secs()
}

} // verus!
