//! The ordered fallback chain of interpreters: empty string to "now", bare
//! year, unix timestamp in seconds or milliseconds, weekday name, month
//! name. Interpreters are tried in that order and the first success wins.

use crate::calendar::{
    civil_from_day_number, day_number, day_number_exec, weekday_number, weekday_number_exec,
    DAY_LIMIT,
};
use crate::datetime::{
    unix_nanos_in_range, unix_nanos_to_datetime, unix_seconds_in_range, unix_to_datetime,
    DateTime, MAX_UNIX_SECONDS, MIN_UNIX_SECONDS,
};
use crate::intstr::{int_literal_value, is_int_literal, parse_i128};
use crate::names::{
    month_from_name, month_from_name_exec, weekday_from_name, weekday_from_name_exec,
};
use vstd::arithmetic::div_mod::*;
use vstd::prelude::*;

verus! {

/// The context a parse runs against: the reference "now", captured once
/// before the parse and never read again.
pub struct ParseOptions {
    pub now: DateTime,
}

/// The bare-year interpreter accepts a decimal literal in (0, 9999].
pub open spec fn year_accepts(s: Seq<char>) -> bool {
    is_int_literal(s) && 0 < int_literal_value(s) <= 9999
}

/// January 1 of year `y`, midnight UTC.
pub open spec fn january_first(y: int) -> DateTime {
    DateTime {
        year: y as i32,
        month: 1u8,
        day: 1u8,
        hour: 0u8,
        minute: 0u8,
        second: 0u8,
        nanosecond: 0u32,
        offset_seconds: 0i32,
    }
}

/// The seconds reading of a timestamp accepts a decimal literal whose
/// whole-seconds instant stays within years 1 through 9999.
pub open spec fn seconds_accepts(s: Seq<char>) -> bool {
    is_int_literal(s) && unix_seconds_in_range(int_literal_value(s))
}

/// The milliseconds reading accepts a decimal literal whose instant, read
/// as milliseconds since the epoch, stays within years 1 through 9999.
pub open spec fn millis_accepts(s: Seq<char>) -> bool {
    is_int_literal(s) && unix_nanos_in_range(int_literal_value(s) * 1_000_000)
}

/// Day offset from weekday `cur` to the next strictly future occurrence of
/// weekday `target`; always 1 through 7, so the same weekday as today
/// resolves to next week, never today.
pub open spec fn weekday_delta(target: int, cur: int) -> int {
    if target > cur {
        target - cur
    } else {
        target - cur + 7
    }
}

/// What the weekday interpreter returns on a match: the reference date
/// moved forward to the named weekday (saturating at the end of the
/// supported range), time of day reset, offset preserved.
pub open spec fn weekday_result(dt: DateTime, target: int, now: DateTime) -> bool {
    let dn2 = day_number(now.year as int, now.month as int, now.day as int) + weekday_delta(
        target,
        weekday_number(now.year as int, now.month as int, now.day as int),
    );
    &&& dt.wf()
    &&& dt.hour == 0
    &&& dt.minute == 0
    &&& dt.second == 0
    &&& dt.nanosecond == 0
    &&& dt.offset_seconds == now.offset_seconds
    &&& if dn2 < DAY_LIMIT as int {
        day_number(dt.year as int, dt.month as int, dt.day as int) == dn2 && weekday_number(
            dt.year as int,
            dt.month as int,
            dt.day as int,
        ) == target
    } else {
        dt.year == 9999 && dt.month == 12 && dt.day == 31
    }
}

/// The year the month interpreter resolves to: the named month's first
/// day falls in the current year only when the month is strictly in the
/// future, else in the next year.
pub open spec fn month_target_year(m: int, now: DateTime) -> int {
    if m <= now.month as int {
        now.year as int + 1
    } else {
        now.year as int
    }
}

/// The month interpreter declines only when the resolved year would leave
/// the supported range.
pub open spec fn month_accepted(m: int, now: DateTime) -> bool {
    1 <= m <= 12 && month_target_year(m, now) <= 9999
}

/// What the month interpreter returns on a match: the named month's first
/// day, midnight, offset preserved.
pub open spec fn month_result(m: int, now: DateTime) -> DateTime {
    DateTime {
        year: month_target_year(m, now) as i32,
        month: m as u8,
        day: 1u8,
        hour: 0u8,
        minute: 0u8,
        second: 0u8,
        nanosecond: 0u32,
        offset_seconds: now.offset_seconds,
    }
}

/// Law: a weekday name equal to the reference's own weekday resolves to
/// the date exactly seven days ahead, never to the reference day itself,
/// with the time of day reset and the offset preserved. Away from the very
/// end of the supported calendar, where the weekday interpreter saturates
/// instead, this pins the result completely.
pub proof fn lemma_own_weekday_resolves_a_week_ahead(dt: DateTime, now: DateTime)
    requires
        now.wf(),
        weekday_result(dt, weekday_number(now.year as int, now.month as int, now.day as int), now),
        day_number(now.year as int, now.month as int, now.day as int) + 7 < DAY_LIMIT as int,
    ensures
        day_number(dt.year as int, dt.month as int, dt.day as int) == day_number(
            now.year as int,
            now.month as int,
            now.day as int,
        ) + 7,
        dt.hour == 0 && dt.minute == 0 && dt.second == 0 && dt.nanosecond == 0,
        dt.offset_seconds == now.offset_seconds,
{
    let cur = weekday_number(now.year as int, now.month as int, now.day as int);
    assert(weekday_delta(cur, cur) == 7);
}

/// Bare-year interpreter: a decimal literal in (0, 9999] resolves to
/// January 1 of that year, midnight UTC; anything else declines.
pub fn as_year(ts: &str) -> (r: Option<DateTime>)
    ensures
        year_accepts(ts@) ==> r == Some(january_first(int_literal_value(ts@))),
        !year_accepts(ts@) ==> r is None,
        r matches Some(dt) ==> dt.wf(),
{
    match parse_i128(ts) {
        Some(v) => if 0 < v && v <= 9999 {
            Some(
                DateTime {
                    year: v as i32,
                    month: 1,
                    day: 1,
                    hour: 0,
                    minute: 0,
                    second: 0,
                    nanosecond: 0,
                    offset_seconds: 0,
                },
            )
        } else {
            None
        },
        None => None,
    }
}

/// Unix-timestamp interpreter: a decimal literal is first read as whole
/// seconds since the epoch, accepted when the instant stays within years
/// 1 through 9999; failing that it is reread as milliseconds since the
/// epoch under the same ceiling; anything else declines.
pub fn as_unix_timestamp(ts: &str) -> (r: Option<DateTime>)
    ensures
        seconds_accepts(ts@) ==> (r matches Some(dt) && dt.wf() && dt.offset_seconds == 0
            && dt.nanosecond == 0 && dt.unix_of() == int_literal_value(ts@)),
        !seconds_accepts(ts@) && millis_accepts(ts@) ==> (r matches Some(dt) && dt.wf()
            && dt.offset_seconds == 0 && dt.unix_nanos_of() == int_literal_value(ts@)
            * 1_000_000),
        !seconds_accepts(ts@) && !millis_accepts(ts@) ==> r is None,
        r matches Some(dt) ==> dt.wf(),
{
    let n = match parse_i128(ts) {
        Some(n) => n,
        None => {
            return None;
        },
    };
    if MIN_UNIX_SECONDS as i128 <= n && n <= MAX_UNIX_SECONDS as i128 {
        unix_to_datetime(n as i64)
    } else if -62_135_596_800_000i128 <= n && n <= 253_402_300_799_999i128 {
        unix_nanos_to_datetime(n * 1_000_000)
    } else {
        None
    }
}

/// Weekday-name interpreter: a weekday name resolves to the next strictly
/// future date with that weekday, start of day, offset preserved,
/// saturating at the end of the supported range; anything else declines.
pub fn as_weekday(ts: &str, opts: &ParseOptions) -> (r: Option<DateTime>)
    requires
        opts.now.wf(),
    ensures
        weekday_from_name(ts@) == 7 ==> r is None,
        weekday_from_name(ts@) < 7 ==> (r matches Some(dt) && weekday_result(
            dt,
            weekday_from_name(ts@),
            opts.now,
        )),
        r matches Some(dt) ==> dt.wf(),
{
    let wd = weekday_from_name_exec(ts);
    if wd == 7 {
        return None;
    }
    let now = &opts.now;
    let cur = weekday_number_exec(now.year, now.month, now.day);
    let delta: i64 = if wd > cur {
        (wd - cur) as i64
    } else {
        wd as i64 - cur as i64 + 7
    };
    let dn = day_number_exec(now.year, now.month, now.day);
    let dn2 = dn + delta;
    if dn2 < DAY_LIMIT {
        let (y, m, d) = civil_from_day_number(dn2);
        proof {
            lemma_fundamental_div_mod(dn as int, 7);
            lemma_mod_division_less_than_divisor(dn as int, 7);
            let q = dn as int / 7;
            if wd > cur {
                lemma_fundamental_div_mod_converse(dn2 as int, 7, q, wd as int);
            } else {
                lemma_fundamental_div_mod_converse(dn2 as int, 7, q + 1, wd as int);
            }
        }
        Some(
            DateTime {
                year: y,
                month: m,
                day: d,
                hour: 0,
                minute: 0,
                second: 0,
                nanosecond: 0,
                offset_seconds: now.offset_seconds,
            },
        )
    } else {
        Some(
            DateTime {
                year: 9999,
                month: 12,
                day: 31,
                hour: 0,
                minute: 0,
                second: 0,
                nanosecond: 0,
                offset_seconds: now.offset_seconds,
            },
        )
    }
}

/// Month-name interpreter: a month name resolves to the first of that
/// month, midnight, offset preserved, in the current year when the month
/// is strictly in the future and in the next year otherwise; it declines
/// when the next year would leave the supported range, and on anything
/// that is no month name.
pub fn as_month(ts: &str, opts: &ParseOptions) -> (r: Option<DateTime>)
    requires
        opts.now.wf(),
    ensures
        month_from_name(ts@) == 0 ==> r is None,
        month_accepted(month_from_name(ts@), opts.now) ==> r == Some(
            month_result(month_from_name(ts@), opts.now),
        ),
        1 <= month_from_name(ts@) && !month_accepted(month_from_name(ts@), opts.now) ==> r
            is None,
        r matches Some(dt) ==> dt.wf(),
{
    let mo = month_from_name_exec(ts);
    if mo == 0 {
        return None;
    }
    let y2: i32 = if mo <= opts.now.month {
        opts.now.year + 1
    } else {
        opts.now.year
    };
    if y2 > 9999 {
        return None;
    }
    Some(
        DateTime {
            year: y2,
            month: mo,
            day: 1,
            hour: 0,
            minute: 0,
            second: 0,
            nanosecond: 0,
            offset_seconds: opts.now.offset_seconds,
        },
    )
}

/// The parser chain: each interpreter in turn, first success wins.
///
/// The empty candidate resolves to the reference now with the sub-second
/// fraction zeroed; otherwise a bare year wins over a timestamp reading,
/// and only a candidate no interpreter accepts yields no result.
pub fn try_parse(ts: &str, opts: &ParseOptions) -> (r: Option<DateTime>)
    requires
        opts.now.wf(),
    ensures
        ts@.len() == 0 ==> r == Some(DateTime { nanosecond: 0u32, ..opts.now }),
        ts@.len() > 0 && year_accepts(ts@) ==> r == Some(january_first(int_literal_value(ts@))),
        ts@.len() > 0 && !year_accepts(ts@) && seconds_accepts(ts@) ==> (r matches Some(dt)
            && dt.wf() && dt.offset_seconds == 0 && dt.nanosecond == 0 && dt.unix_of()
            == int_literal_value(ts@)),
        ts@.len() > 0 && !year_accepts(ts@) && !seconds_accepts(ts@) && millis_accepts(ts@)
            ==> (r matches Some(dt) && dt.wf() && dt.offset_seconds == 0 && dt.unix_nanos_of()
            == int_literal_value(ts@) * 1_000_000),
        ts@.len() > 0 && !year_accepts(ts@) && !seconds_accepts(ts@) && !millis_accepts(ts@)
            && weekday_from_name(ts@) < 7 ==> (r matches Some(dt) && weekday_result(
            dt,
            weekday_from_name(ts@),
            opts.now,
        )),
        ts@.len() > 0 && !year_accepts(ts@) && !seconds_accepts(ts@) && !millis_accepts(ts@)
            && weekday_from_name(ts@) == 7 && month_accepted(month_from_name(ts@), opts.now)
            ==> r == Some(month_result(month_from_name(ts@), opts.now)),
        ts@.len() > 0 && !year_accepts(ts@) && !seconds_accepts(ts@) && !millis_accepts(ts@)
            && weekday_from_name(ts@) == 7 && !month_accepted(month_from_name(ts@), opts.now)
            ==> r is None,
        r matches Some(dt) ==> dt.wf(),
{
    if ts.is_empty() {
        return Some(DateTime { nanosecond: 0, ..opts.now });
    }
    match as_year(ts) {
        Some(dt) => {
            return Some(dt);
        },
        None => {},
    }
    match as_unix_timestamp(ts) {
        Some(dt) => {
            return Some(dt);
        },
        None => {},
    }
    match as_weekday(ts, opts) {
        Some(dt) => {
            return Some(dt);
        },
        None => {},
    }
    as_month(ts, opts)
}

} // verus!
