//! Calendar arithmetic on timestamps, done by chrono.

use vstd::prelude::*;
use crate::timestamp::{Timestamp, days_in_month, timestamp_valid};

verus! {

/// Days from 1970-01-01 to a date of the proleptic Gregorian calendar
/// (negative before it): the days-from-civil count over 400-year eras, with
/// years taken to start in March.
pub open spec fn days_from_civil(y: int, m: int, d: int) -> int {
    let yp = if m <= 2 {
        y - 1
    } else {
        y
    };
    let era = yp / 400;
    let yoe = yp % 400;
    let mp = if m > 2 {
        m - 3
    } else {
        m + 9
    };
    let doy = (153 * mp + 2) / 5 + d - 1;
    let doe = yoe * 365 + yoe / 4 - yoe / 100 + doy;
    era * 146097 + doe - 719468
}

/// Seconds since 1970-01-01T00:00:00 UTC of a calendar date and time.
pub open spec fn unix_seconds_of(year: int, month: int, day: int, hour: int, minute: int, second: int) -> int {
    days_from_civil(year, month, day) * 86400 + hour * 3600 + minute * 60 + second
}

pub open spec fn unix_seconds(t: Timestamp) -> int {
    unix_seconds_of(t.year as int, t.month as int, t.day as int, t.hour as int, t.minute as int, t.second as int)
}

/// 0000-01-01T00:00:00.
pub const MIN_UNIX_SECONDS: i64 = -62167219200;

/// 9999-12-31T23:59:59.
pub const MAX_UNIX_SECONDS: i64 = 253402300799;

/// A calendar date and time with a four-digit year.
pub open spec fn civil_valid(y: int, mo: int, d: int, h: int, mi: int, s: int) -> bool {
    &&& 0 <= y <= 9999
    &&& 1 <= mo <= 12
    &&& 1 <= d <= days_in_month(y, mo)
    &&& 0 <= h < 24
    &&& 0 <= mi < 60
    &&& 0 <= s < 60
}

/// Every timestamp with a four-digit year lies between the two bounds
/// (the lower one loosely).
pub proof fn lemma_unix_seconds_bounds(t: Timestamp)
    requires
        timestamp_valid(t),
    ensures
        -865565 * 86400 <= unix_seconds(t) <= MAX_UNIX_SECONDS,
{
    let y = t.year as int;
    let m = t.month as int;
    let d = t.day as int;
    let yp = if m <= 2 {
        y - 1
    } else {
        y
    };
    let mp = if m > 2 {
        m - 3
    } else {
        m + 9
    };
    assert(-1 <= yp <= 9999);
    assert(-1 <= yp / 400 <= 24);
    assert(0 <= yp % 400 <= 399);
    assert(0 <= mp <= 11);
    let doy = (153 * mp + 2) / 5 + d - 1;
    assert(0 <= doy <= 365) by {
        if mp == 11 {
            assert(d <= 29);
        } else if mp == 10 {
        } else {
            assert(mp <= 9);
            assert((153 * mp + 2) / 5 <= 275);
        }
    }
    let yoe = yp % 400;
    assert(0 <= yoe * 365 + yoe / 4 - yoe / 100 + doy <= 146096) by {
        assert(yoe / 4 <= 99);
        assert(yoe / 100 <= 3);
        assert(yoe / 4 >= yoe / 100);
    }
    if yp / 400 == 24 {
        assert(yoe <= 399);
    }
}

pub proof fn lemma_unix_seconds_range()
    ensures
        unix_seconds_of(0, 1, 1, 0, 0, 0) == MIN_UNIX_SECONDS,
        unix_seconds_of(9999, 12, 31, 23, 59, 59) == MAX_UNIX_SECONDS,
        unix_seconds_of(1970, 1, 1, 0, 0, 0) == 0,
{
}

/// Relies on chrono's `NaiveDate::from_ymd_opt`, `NaiveDate::and_hms_opt` and
/// `NaiveDateTime::and_utc().timestamp()`: the non-leap seconds since the
/// Unix epoch of a date and time. chrono gives nothing only for fields that
/// name no date or time, or for a year beyond its range, which is far wider
/// than four digits.
#[verifier::external_body]
fn chrono_unix_seconds(year: i32, month: u32, day: u32, hour: u32, minute: u32, second: u32) -> (r: Option<i64>)
    ensures
        r matches Some(s) ==> s as int == unix_seconds_of(year as int, month as int, day as int, hour as int, minute as int, second as int),
        civil_valid(year as int, month as int, day as int, hour as int, minute as int, second as int) ==> r is Some,
{
    chrono::NaiveDate::from_ymd_opt(year, month, day)
        .and_then(|d| d.and_hms_opt(hour, minute, second))
        .map(|dt| dt.and_utc().timestamp())
}

/// Relies on chrono's `DateTime::<Utc>::from_timestamp` and its `Datelike` /
/// `Timelike` fields: the UTC date and time `secs` seconds after the Unix
/// epoch, when chrono can represent it (always for four-digit years). A
/// chrono date is a real date, its `timestamp` gives back `secs`, and with no
/// sub-second part the second is below 60.
#[verifier::external_body]
fn chrono_from_unix_seconds(secs: i64) -> (r: Option<(i32, u32, u32, u32, u32, u32)>)
    ensures
        r matches Some((y, mo, d, h, mi, s)) ==> {
            &&& 1 <= mo <= 12
            &&& 1 <= d <= days_in_month(y as int, mo as int)
            &&& h < 24
            &&& mi < 60
            &&& s < 60
            &&& unix_seconds_of(y as int, mo as int, d as int, h as int, mi as int, s as int) == secs
            &&& MIN_UNIX_SECONDS <= secs <= MAX_UNIX_SECONDS ==> 0 <= y <= 9999
        },
        MIN_UNIX_SECONDS <= secs <= MAX_UNIX_SECONDS ==> r is Some,
{
    chrono::DateTime::<chrono::Utc>::from_timestamp(secs, 0).map(|dt| (
        chrono::Datelike::year(&dt),
        chrono::Datelike::month(&dt),
        chrono::Datelike::day(&dt),
        chrono::Timelike::hour(&dt),
        chrono::Timelike::minute(&dt),
        chrono::Timelike::second(&dt),
    ))
}

impl Timestamp {
    /// Seconds since the Unix epoch, when chrono can place the fields.
    pub fn to_unix_seconds(&self) -> (r: Option<i64>)
        ensures
            r matches Some(s) ==> s as int == unix_seconds(*self),
            timestamp_valid(*self) ==> r is Some,
    {
        chrono_unix_seconds(
            self.year as i32,
            self.month as u32,
            self.day as u32,
            self.hour as u32,
            self.minute as u32,
            self.second as u32,
        )
    }

    /// The timestamp `secs` seconds after the Unix epoch, if it has a
    /// four-digit year.
    pub fn from_unix_seconds(secs: i64) -> (r: Option<Timestamp>)
        ensures
            r matches Some(t) ==> timestamp_valid(t) && unix_seconds(t) == secs,
            MIN_UNIX_SECONDS <= secs <= MAX_UNIX_SECONDS ==> r is Some,
    {
        match chrono_from_unix_seconds(secs) {
            Some((y, mo, d, h, mi, s)) => {
                if y < 0 || y > 9999 {
                    None
                } else {
                    Some(Timestamp {
                        year: y as u16,
                        month: mo as u8,
                        day: d as u8,
                        hour: h as u8,
                        minute: mi as u8,
                        second: s as u8,
                    })
                }
            },
            None => None,
        }
    }

    /// This instant minus `secs` seconds.
    pub fn seconds_earlier(&self, secs: i64) -> (r: Option<Timestamp>)
        requires
            0 <= secs,
        ensures
            r matches Some(t) ==> timestamp_valid(t) && unix_seconds(t) == unix_seconds(*self) - secs,
            timestamp_valid(*self) && unix_seconds(*self) - secs >= MIN_UNIX_SECONDS ==> r is Some,
    {
        proof {
            if timestamp_valid(*self) {
                lemma_unix_seconds_bounds(*self);
            }
        }
        match self.to_unix_seconds() {
            Some(s) => {
                if s < i64::MIN + secs {
                    None
                } else {
                    Timestamp::from_unix_seconds(s - secs)
                }
            },
            None => None,
        }
    }
}

} // verus!
