//! The date/time value: a civil date, a time of day, a sub-second fraction,
//! and a UTC offset, all as plain integers.

use crate::calendar::{
    civil_from_day_number, day_number, day_number_exec, days_in_month_exec,
    lemma_day_number_bounds, lemma_day_number_injective, valid_ymd, EPOCH_DAY,
};
use vstd::arithmetic::div_mod::*;
use vstd::prelude::*;

verus! {

/// Unix timestamp of 0001-01-01T00:00:00Z, the first supported instant.
pub const MIN_UNIX_SECONDS: i64 = -62_135_596_800;

/// Unix timestamp of 9999-12-31T23:59:59Z, the last supported whole second.
pub const MAX_UNIX_SECONDS: i64 = 253_402_300_799;

/// Nanosecond timestamp of the first supported instant.
pub const MIN_UNIX_NANOS: i128 = -62_135_596_800_000_000_000;

/// Nanosecond timestamp of the last supported instant.
pub const MAX_UNIX_NANOS: i128 = 253_402_300_799_999_999_999;

/// An absolute point in time with year, month, day, hour, minute, second,
/// sub-second fraction, and a UTC offset in seconds. The civil fields are
/// local to the offset.
#[derive(Clone, Copy, Debug, PartialEq, Eq, Structural)]
pub struct DateTime {
    pub year: i32,
    pub month: u8,
    pub day: u8,
    pub hour: u8,
    pub minute: u8,
    pub second: u8,
    pub nanosecond: u32,
    pub offset_seconds: i32,
}

impl DateTime {
    /// Every field lies in its calendar range.
    pub open spec fn wf(self) -> bool {
        &&& valid_ymd(self.year as int, self.month as int, self.day as int)
        &&& self.hour < 24
        &&& self.minute < 60
        &&& self.second < 60
        &&& self.nanosecond < 1_000_000_000
        &&& -86399 <= self.offset_seconds <= 86399
    }

    /// Seconds of day of the local time-of-day fields.
    pub open spec fn seconds_of_day(self) -> int {
        self.hour as int * 3600 + self.minute as int * 60 + self.second as int
    }

    /// Whole seconds of the instant since the unix epoch; the sub-second
    /// fraction is dropped.
    pub open spec fn unix_of(self) -> int {
        (day_number(self.year as int, self.month as int, self.day as int) - EPOCH_DAY as int)
            * 86400 + self.seconds_of_day() - self.offset_seconds as int
    }

    /// Nanoseconds of the instant since the unix epoch.
    pub open spec fn unix_nanos_of(self) -> int {
        self.unix_of() * 1_000_000_000 + self.nanosecond as int
    }

    /// Decides well-formedness, for callers that receive a value from
    /// outside the library.
    pub fn check_wf(&self) -> (r: bool)
        ensures
            r == self.wf(),
    {
        if !(1 <= self.year && self.year <= 9999) {
            return false;
        }
        if !(1 <= self.month && self.month <= 12) {
            return false;
        }
        if !(1 <= self.day && self.day <= days_in_month_exec(self.year, self.month)) {
            return false;
        }
        self.hour < 24 && self.minute < 60 && self.second < 60 && self.nanosecond
            < 1_000_000_000 && -86399 <= self.offset_seconds && self.offset_seconds <= 86399
    }
}

/// The seconds values whose instants fall within years 1 through 9999 UTC.
pub open spec fn unix_seconds_in_range(s: int) -> bool {
    MIN_UNIX_SECONDS as int <= s <= MAX_UNIX_SECONDS as int
}

/// The nanosecond values whose instants fall within years 1 through 9999 UTC.
pub open spec fn unix_nanos_in_range(n: int) -> bool {
    MIN_UNIX_NANOS as int <= n <= MAX_UNIX_NANOS as int
}

/// The unix timestamp of a well-formed UTC value falls in the supported
/// seconds range.
pub proof fn lemma_unix_of_range(dt: DateTime)
    requires
        dt.wf(),
        dt.offset_seconds == 0,
    ensures
        unix_seconds_in_range(dt.unix_of()),
{
    crate::calendar::lemma_epoch_day();
    lemma_day_number_bounds(dt.year as int, dt.month as int, dt.day as int);
}

/// Two well-formed values with the same offset, the same timestamp and the
/// same fraction are the same value.
pub proof fn lemma_unix_of_injective(a: DateTime, b: DateTime)
    requires
        a.wf(),
        b.wf(),
        a.offset_seconds == b.offset_seconds,
        a.unix_of() == b.unix_of(),
    ensures
        a.year == b.year,
        a.month == b.month,
        a.day == b.day,
        a.hour == b.hour,
        a.minute == b.minute,
        a.second == b.second,
{
    let dna = day_number(a.year as int, a.month as int, a.day as int);
    let dnb = day_number(b.year as int, b.month as int, b.day as int);
    assert(86400 * (dna - dnb) == b.seconds_of_day() - a.seconds_of_day());
    assert(dna == dnb);
    lemma_day_number_injective(
        a.year as int,
        a.month as int,
        a.day as int,
        b.year as int,
        b.month as int,
        b.day as int,
    );
    let tod = a.seconds_of_day();
    lemma_fundamental_div_mod_converse(
        tod,
        3600,
        a.hour as int,
        a.minute as int * 60 + a.second as int,
    );
    lemma_fundamental_div_mod_converse(
        tod,
        3600,
        b.hour as int,
        b.minute as int * 60 + b.second as int,
    );
    lemma_fundamental_div_mod_converse(
        a.minute as int * 60 + a.second as int,
        60,
        a.minute as int,
        a.second as int,
    );
    lemma_fundamental_div_mod_converse(
        a.minute as int * 60 + a.second as int,
        60,
        b.minute as int,
        b.second as int,
    );
}

/// Law: printing a resolved UTC value as its unix-seconds integer and
/// reading that integer back as a timestamp reproduces the value exactly.
/// The printed timestamp always lies in the range the timestamp reader
/// accepts, and a well-formed UTC value with zeroed fraction is determined
/// by its timestamp alone.
pub proof fn lemma_unix_round_trip(dt: DateTime, reparsed: DateTime)
    requires
        dt.wf(),
        dt.offset_seconds == 0,
        dt.nanosecond == 0,
        reparsed.wf(),
        reparsed.offset_seconds == 0,
        reparsed.nanosecond == 0,
        reparsed.unix_of() == dt.unix_of(),
    ensures
        unix_seconds_in_range(dt.unix_of()),
        reparsed == dt,
{
    lemma_unix_of_range(dt);
    lemma_unix_of_injective(dt, reparsed);
}

/// Whole seconds of a well-formed value since the unix epoch.
pub fn unix_timestamp(dt: &DateTime) -> (r: i64)
    requires
        dt.wf(),
    ensures
        r == dt.unix_of(),
{
    proof {
        lemma_day_number_bounds(dt.year as int, dt.month as int, dt.day as int);
    }
    let dn = day_number_exec(dt.year, dt.month, dt.day);
    (dn - EPOCH_DAY) * 86400 + (dt.hour as i64) * 3600 + (dt.minute as i64) * 60 + (
    dt.second as i64) - (dt.offset_seconds as i64)
}

/// The UTC value of a whole-seconds unix timestamp, with zeroed fraction;
/// declines timestamps outside years 1 through 9999.
pub fn unix_to_datetime(secs: i64) -> (r: Option<DateTime>)
    ensures
        r is Some <==> unix_seconds_in_range(secs as int),
        r matches Some(dt) ==> {
            &&& dt.wf()
            &&& dt.offset_seconds == 0
            &&& dt.nanosecond == 0
            &&& dt.unix_of() == secs
        },
{
    if secs < MIN_UNIX_SECONDS || secs > MAX_UNIX_SECONDS {
        return None;
    }
    let shifted = (secs - MIN_UNIX_SECONDS) as u64;
    proof {
        lemma_fundamental_div_mod(shifted as int, 86400);
        lemma_mod_division_less_than_divisor(shifted as int, 86400);
        lemma_div_is_ordered(shifted as int, 315_537_897_599, 86400);
        lemma_fundamental_div_mod_converse(315_537_897_599, 86400, 3_652_058, 86399);
        lemma_div_pos_is_pos(shifted as int, 86400);
    }
    let dn = shifted / 86400;
    let sod = (shifted % 86400) as u32;
    let (y, m, d) = civil_from_day_number(dn as i64);
    proof {
        lemma_fundamental_div_mod(sod as int, 3600);
        lemma_mod_division_less_than_divisor(sod as int, 3600);
        lemma_div_is_ordered(sod as int, 86399, 3600);
        lemma_fundamental_div_mod_converse(86399, 3600, 23, 3599);
        lemma_div_pos_is_pos(sod as int, 3600);
        lemma_fundamental_div_mod(sod as int % 3600, 60);
        lemma_mod_division_less_than_divisor(sod as int % 3600, 60);
        lemma_div_is_ordered(sod as int % 3600, 3599, 60);
        lemma_fundamental_div_mod_converse(3599, 60, 59, 59);
        lemma_div_pos_is_pos(sod as int % 3600, 60);
    }
    let hour = (sod / 3600) as u8;
    let rem = sod % 3600;
    let minute = (rem / 60) as u8;
    let second = (rem % 60) as u8;
    Some(
        DateTime {
            year: y,
            month: m,
            day: d,
            hour,
            minute,
            second,
            nanosecond: 0,
            offset_seconds: 0,
        },
    )
}

/// The UTC value of a nanosecond unix timestamp; the whole seconds resolve
/// the civil fields and the remainder becomes the fraction. Declines
/// timestamps outside years 1 through 9999.
pub fn unix_nanos_to_datetime(nanos: i128) -> (r: Option<DateTime>)
    ensures
        r is Some <==> unix_nanos_in_range(nanos as int),
        r matches Some(dt) ==> {
            &&& dt.wf()
            &&& dt.offset_seconds == 0
            &&& dt.unix_nanos_of() == nanos
        },
{
    if nanos < MIN_UNIX_NANOS || nanos > MAX_UNIX_NANOS {
        return None;
    }
    let shifted = (nanos - MIN_UNIX_NANOS) as u128;
    proof {
        lemma_fundamental_div_mod(shifted as int, 1_000_000_000);
        lemma_mod_division_less_than_divisor(shifted as int, 1_000_000_000);
        lemma_div_is_ordered(shifted as int, 315_537_897_599_999_999_999, 1_000_000_000);
        lemma_fundamental_div_mod_converse(
            315_537_897_599_999_999_999,
            1_000_000_000,
            315_537_897_599,
            999_999_999,
        );
        lemma_div_pos_is_pos(shifted as int, 1_000_000_000);
    }
    let q = (shifted / 1_000_000_000) as i64;
    let ns = (shifted % 1_000_000_000) as u32;
    let secs = q + MIN_UNIX_SECONDS;
    let dt0 = unix_to_datetime(secs);
    match dt0 {
        Some(dt) => Some(DateTime { nanosecond: ns, ..dt }),
        None => None,
    }
}

} // verus!
