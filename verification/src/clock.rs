//! UTC instants as chrono holds them (whole seconds since the Unix epoch and
//! nanoseconds past them), read from the system clock and rendered through `chrono`.

use vstd::prelude::*;
use crate::calendar::{day_number, valid_date};
use chrono::{DateTime, Datelike, Utc};
use std::time::{Duration, SystemTime, SystemTimeError, UNIX_EPOCH};

verus! {

/// Seconds in one UTC day (chrono counts no leap seconds in timestamps).
pub const DAY_SECS: i64 = 86_400;

/// The first second chrono holds: -262143-01-01 00:00:00 UTC (`NaiveDate::MIN`).
pub const MIN_UTC_SECS: i64 = -8_334_601_228_800;

/// The last whole second chrono holds: 262142-12-31 23:59:59 UTC (`NaiveDate::MAX`).
pub const MAX_UTC_SECS: i64 = 8_210_266_876_799;

/// An instant chrono can hold as a `DateTime<Utc>` (leap seconds aside):
/// `DateTime::from_timestamp` gives `Some` for it.
pub open spec fn representable(secs: int, nanos: int) -> bool {
    MIN_UTC_SECS <= secs <= MAX_UTC_SECS && 0 <= nanos < 1_000_000_000
}

/// The UTC day of an instant, counted from 1970-01-01 (negative before it).
pub open spec fn epoch_day(secs: int) -> int {
    secs / (DAY_SECS as int)
}

/// What `chrono` prints for the UTC instant `secs` seconds and `nanos`
/// nanoseconds after the epoch (`DateTime<Utc>`'s `Display`, such as
/// `2023-04-01 19:49:40.424670303 UTC`).
pub uninterp spec fn utc_text(secs: i64, nanos: u32) -> Seq<char>;

/// The year of the UTC instant `secs` seconds after the epoch.
pub uninterp spec fn utc_year(secs: i64) -> int;

/// The month (1 to 12) of the UTC instant `secs` seconds after the epoch.
pub uninterp spec fn utc_month(secs: i64) -> int;

/// The day of the month (1 to 31) of the UTC instant `secs` seconds after the epoch.
pub uninterp spec fn utc_day(secs: i64) -> int;

/// A UTC instant that chrono can hold: whole seconds since the epoch and the
/// nanoseconds past them.
#[derive(Debug, Clone, Copy)]
pub struct UtcTime {
    secs: i64,
    nanos: u32,
}

impl UtcTime {
    #[verifier::type_invariant]
    spec fn held(self) -> bool {
        representable(self.secs as int, self.nanos as int)
    }

    /// Whole seconds since the epoch.
    pub closed spec fn spec_secs(self) -> i64 {
        self.secs
    }

    /// Nanoseconds past the whole seconds.
    pub closed spec fn spec_nanos(self) -> u32 {
        self.nanos
    }

    /// The instant `secs` seconds and `nanos` nanoseconds after the epoch, when
    /// chrono can hold it.
    pub fn from_timestamp(secs: i64, nanos: u32) -> (r: Option<UtcTime>)
        ensures
            r is Some <==> representable(secs as int, nanos as int),
            r matches Some(t) ==> t.spec_secs() == secs && t.spec_nanos() == nanos,
    {
        if MIN_UTC_SECS <= secs && secs <= MAX_UTC_SECS && nanos < 1_000_000_000 {
            Some(UtcTime { secs, nanos })
        } else {
            None
        }
    }

    /// 1970-01-01 00:00:00 UTC.
    pub fn epoch() -> (r: UtcTime)
        ensures
            r.spec_secs() == 0,
            r.spec_nanos() == 0,
    {
        UtcTime { secs: 0, nanos: 0 }
    }

    /// Whole seconds since the epoch.
    pub fn secs(&self) -> (r: i64)
        ensures
            r == self.spec_secs(),
            representable(r as int, self.spec_nanos() as int),
    {
        proof {
            use_type_invariant(self);
        }
        self.secs
    }

    /// Nanoseconds past the whole seconds.
    pub fn nanos(&self) -> (r: u32)
        ensures
            r == self.spec_nanos(),
            representable(self.spec_secs() as int, r as int),
    {
        proof {
            use_type_invariant(self);
        }
        self.nanos
    }

    /// The instant of a clock reading `secs` seconds and `subsec` nanoseconds
    /// after the epoch (`after`) or before it, when chrono can hold it.
    pub fn from_reading(after: bool, secs: u64, subsec: u32) -> (r: Option<UtcTime>)
        requires
            subsec < 1_000_000_000,
        ensures
            r is Some <==> reading_instant(after, secs, subsec) is Some,
            r matches Some(t) ==> reading_instant(after, secs, subsec) == Some(
                (t.spec_secs() as int, t.spec_nanos() as int),
            ),
    {
        if after {
            if secs <= MAX_UTC_SECS as u64 {
                Some(UtcTime { secs: secs as i64, nanos: subsec })
            } else {
                None
            }
        } else if secs > 8_334_601_228_800 {
            None
        } else if subsec == 0 {
            let s: i64 = secs as i64;
            Some(UtcTime { secs: -s, nanos: 0 })
        } else if secs == 8_334_601_228_800 {
            None
        } else {
            let s: i64 = secs as i64;
            Some(UtcTime { secs: -s - 1, nanos: 1_000_000_000 - subsec })
        }
    }

    /// The current instant, read from the system clock. `None` when chrono
    /// cannot hold the reading (after the year 262142). Nothing is stated of
    /// which instant comes back: the clock decides.
    pub fn now() -> (r: Option<UtcTime>) {
        let (after, secs, subsec) = clock_reading();
        UtcTime::from_reading(after, secs, subsec)
    }
}

/// The instant of a clock reading, as `UtcTime::from_reading` makes it: for a
/// reading before the epoch, the seconds round down and the nanoseconds count up
/// from there.
pub open spec fn reading_instant(after: bool, secs: u64, subsec: u32) -> Option<(int, int)> {
    let (s, n) = if after {
        (secs as int, subsec as int)
    } else if subsec == 0 {
        (-secs, 0int)
    } else {
        (-secs - 1, 1_000_000_000 - subsec)
    };
    if representable(s, n) {
        Some((s, n))
    } else {
        None
    }
}

/// The system clock, read by `SystemTime::now`.
#[verifier::external_type_specification]
#[verifier::external_body]
pub struct ExSystemTime(SystemTime);

/// The error `SystemTime::duration_since` gives for a clock before the epoch.
#[verifier::external_type_specification]
#[verifier::external_body]
pub struct ExSystemTimeError(SystemTimeError);

/// `SystemTime::now`: the current reading of the system clock. Nothing is
/// stated of it: it is whatever the clock reads.
#[verifier::external_body]
fn system_time_now() -> (r: SystemTime) {
    SystemTime::now()
}

/// `SystemTime::duration_since(UNIX_EPOCH)`: the distance from the epoch to a
/// reading at or after it (`Ok`), or the error for a reading before it. Which of
/// the two comes back is not stated: it depends on the reading, which is opaque.
#[verifier::external_body]
fn since_epoch(t: &SystemTime) -> (r: Result<Duration, SystemTimeError>) {
    t.duration_since(UNIX_EPOCH)
}

/// `SystemTimeError::duration`: how far before the epoch the reading was.
#[verifier::external_body]
fn before_epoch_by(e: &SystemTimeError) -> (r: Duration) {
    e.duration()
}

/// `Duration::as_secs`: the whole seconds of a duration. The duration is
/// opaque, so only the type bounds the result.
#[verifier::external_body]
fn duration_secs(d: &Duration) -> (r: u64) {
    d.as_secs()
}

/// `Duration::subsec_nanos`: the nanoseconds past the whole seconds, which the
/// documentation says are always less than one billion.
#[verifier::external_body]
fn duration_subsec_nanos(d: &Duration) -> (r: u32)
    ensures
        r < 1_000_000_000,
{
    d.subsec_nanos()
}

/// Reads the system clock: whether it is at or after the epoch, and how far
/// from it in whole seconds and nanoseconds.
pub(crate) fn clock_reading() -> (r: (bool, u64, u32))
    ensures
        r.2 < 1_000_000_000,
{
    let now = system_time_now();
    match since_epoch(&now) {
        Ok(d) => (true, duration_secs(&d), duration_subsec_nanos(&d)),
        Err(e) => {
            let d = before_epoch_by(&e);
            (false, duration_secs(&d), duration_subsec_nanos(&d))
        },
    }
}

/// Renders the instant with `DateTime<Utc>`'s `Display` (through
/// `DateTime::from_timestamp`, which gives `Some` for every instant the
/// `requires` admits). The result is named `utc_text`; chrono writes it from
/// digits, `-`, `+`, `:`, `.`, spaces and `UTC`, so it holds no comma.
#[verifier::external_body]
pub(crate) fn utc_time_text(secs: i64, nanos: u32) -> (r: String)
    requires
        representable(secs as int, nanos as int),
    ensures
        r@ == utc_text(secs, nanos),
        !r@.contains(','),
{
    DateTime::<Utc>::from_timestamp(secs, nanos).unwrap().to_string()
}

/// The year of the instant (`Datelike::year`), named `utc_year`.
#[verifier::external_body]
pub(crate) fn utc_year_of(secs: i64) -> (r: i32)
    requires
        representable(secs as int, 0),
    ensures
        r == utc_year(secs),
{
    DateTime::<Utc>::from_timestamp(secs, 0).unwrap().year()
}

/// The month of the instant (`Datelike::month`, documented as 1 to 12), named `utc_month`.
#[verifier::external_body]
pub(crate) fn utc_month_of(secs: i64) -> (r: u32)
    requires
        representable(secs as int, 0),
    ensures
        r == utc_month(secs),
        1 <= r <= 12,
{
    DateTime::<Utc>::from_timestamp(secs, 0).unwrap().month()
}

/// The day of the month of the instant (`Datelike::day`, documented as 1 to
/// 31), named `utc_day`. chrono's dates are proleptic Gregorian and
/// `from_timestamp` splits the instant into days by Euclidean division, so
/// the year, month and this day form the valid date whose day number is the
/// instant's day.
#[verifier::external_body]
pub(crate) fn utc_day_of(secs: i64) -> (r: u32)
    requires
        representable(secs as int, 0),
    ensures
        r == utc_day(secs),
        1 <= r <= 31,
        valid_date(utc_year(secs), utc_month(secs), r as int),
        day_number(utc_year(secs), utc_month(secs), r as int) == epoch_day(secs as int),
{
    DateTime::<Utc>::from_timestamp(secs, 0).unwrap().day()
}

} // verus!
