//! Plain-value civil time: a Gregorian calendar date and a wall-clock time,
//! with validity predicates and the fixed-width renderings the file names and
//! the structured log use.
use vstd::prelude::*;

use crate::text::{pad2, pad2_str, pad4, pad4_str, push_char};
use vstd::string::StringExecFns;

verus! {

#[derive(Debug, Clone, Copy, PartialEq, Eq, Structural)]
pub struct Date {
    pub year: u16,
    pub month: u8,
    pub day: u8,
}

#[derive(Debug, Clone, Copy, PartialEq, Eq, Structural)]
pub struct Time {
    pub hour: u8,
    pub minute: u8,
    pub second: u8,
}

/// A civil instant in UTC.
#[derive(Debug, Clone, Copy, PartialEq, Eq, Structural)]
pub struct DateTime {
    pub date: Date,
    pub time: Time,
}

pub open spec fn is_leap_year(y: int) -> bool {
    y % 4 == 0 && (y % 100 != 0 || y % 400 == 0)
}

pub open spec fn days_in_month(y: int, m: int) -> int {
    if m == 2 {
        if is_leap_year(y) {
            29
        } else {
            28
        }
    } else if m == 4 || m == 6 || m == 9 || m == 11 {
        30
    } else {
        31
    }
}

impl Date {
    /// A real calendar date with a four-digit year.
    pub open spec fn wf(self) -> bool {
        self.year <= 9999 && 1 <= self.month <= 12 && 1 <= self.day <= days_in_month(
            self.year as int,
            self.month as int,
        )
    }
}

impl Time {
    pub open spec fn wf(self) -> bool {
        self.hour < 24 && self.minute < 60 && self.second < 60
    }
}

impl DateTime {
    pub open spec fn wf(self) -> bool {
        self.date.wf() && self.time.wf()
    }
}

pub fn leap_year(y: u16) -> (r: bool)
    ensures
        r == is_leap_year(y as int),
{
    y % 4 == 0 && (y % 100 != 0 || y % 400 == 0)
}

pub fn month_days(y: u16, m: u8) -> (r: u8)
    ensures
        r as int == days_in_month(y as int, m as int),
{
    if m == 2 {
        if leap_year(y) {
            29
        } else {
            28
        }
    } else if m == 4 || m == 6 || m == 9 || m == 11 {
        30
    } else {
        31
    }
}

/// `YYYY-MM-DD`.
pub open spec fn spec_date_str(d: Date) -> Seq<char> {
    pad4(d.year as int) + seq!['-'] + pad2(d.month as int) + seq!['-'] + pad2(d.day as int)
}

pub fn date_str(d: &Date) -> (s: String)
    requires
        d.wf(),
    ensures
        s@ == spec_date_str(*d),
{
    let mut s = pad4_str(d.year);
    push_char(&mut s, '-');
    let m = pad2_str(d.month);
    s.append(m.as_str());
    push_char(&mut s, '-');
    let dd = pad2_str(d.day);
    s.append(dd.as_str());
    assert(s@ =~= spec_date_str(*d));
    s
}

/// `YYYY-MM-DDTHH:MM:SSZ` (RFC 3339, UTC).
pub open spec fn spec_rfc3339_str(t: DateTime) -> Seq<char> {
    spec_date_str(t.date) + seq!['T'] + pad2(t.time.hour as int) + seq![':'] + pad2(
        t.time.minute as int,
    ) + seq![':'] + pad2(t.time.second as int) + seq!['Z']
}

pub fn rfc3339_str(t: &DateTime) -> (s: String)
    requires
        t.wf(),
    ensures
        s@ == spec_rfc3339_str(*t),
{
    let mut s = date_str(&t.date);
    push_char(&mut s, 'T');
    let h = pad2_str(t.time.hour);
    s.append(h.as_str());
    push_char(&mut s, ':');
    let m = pad2_str(t.time.minute);
    s.append(m.as_str());
    push_char(&mut s, ':');
    let sec = pad2_str(t.time.second);
    s.append(sec.as_str());
    push_char(&mut s, 'Z');
    assert(s@ =~= spec_rfc3339_str(*t));
    s
}

} // verus!
