//! Proleptic Gregorian calendar arithmetic on plain integer values.
//!
//! Dates are counted with 0001-01-01 as day 0; the supported range of
//! civil dates is years 1 through 9999.

use vstd::arithmetic::div_mod::*;
use vstd::prelude::*;

verus! {

/// Day count of 10000-01-01, one past the last supported day.
pub const DAY_LIMIT: i64 = 3652059;

/// Day count of 1970-01-01, the unix epoch.
pub const EPOCH_DAY: i64 = 719162;

/// Leap year under the Gregorian rules.
pub open spec fn is_leap_year(y: int) -> bool {
    y % 4 == 0 && (y % 100 != 0 || y % 400 == 0)
}

pub open spec fn days_in_year(y: int) -> int {
    if is_leap_year(y) {
        366
    } else {
        365
    }
}

/// Days from 0001-01-01 up to January 1 of year `y`; meaningful for `y >= 1`.
pub open spec fn days_before_year(y: int) -> int {
    365 * (y - 1) + (y - 1) / 4 - (y - 1) / 100 + (y - 1) / 400
}

pub open spec fn days_in_month(y: int, m: int) -> int {
    if m == 2 {
        if is_leap_year(y) {
            29
        } else {
            28
        }
    } else if m == 4 || m == 6 || m == 9 || m == 11 {
        30
    } else {
        31
    }
}

/// Days from January 1 of year `y` up to the first of month `m`.
pub open spec fn days_before_month(y: int, m: int) -> int
    decreases m,
{
    if m <= 1 {
        0
    } else {
        days_before_month(y, m - 1) + days_in_month(y, m - 1)
    }
}

/// Day count of the civil date (y, m, d), with 0001-01-01 as day 0.
pub open spec fn day_number(y: int, m: int, d: int) -> int {
    days_before_year(y) + days_before_month(y, m) + (d - 1)
}

/// (y, m, d) is a calendar date within the supported range.
pub open spec fn valid_ymd(y: int, m: int, d: int) -> bool {
    &&& 1 <= y <= 9999
    &&& 1 <= m <= 12
    &&& 1 <= d <= days_in_month(y, m)
}

/// Weekday of a civil date, numbered Monday = 0 through Sunday = 6.
/// 0001-01-01 was a Monday.
pub open spec fn weekday_number(y: int, m: int, d: int) -> int {
    day_number(y, m, d) % 7
}

/// Stepping a quotient: dividing x and x - 1 by c differs exactly when c
/// divides x.
proof fn lemma_div_step(x: int, c: int)
    requires
        c >= 1,
    ensures
        x / c - (x - 1) / c == if x % c == 0 {
            1int
        } else {
            0int
        },
{
    broadcast use vstd::arithmetic::mul::group_mul_is_commutative_and_distributive;

    lemma_fundamental_div_mod(x, c);
    let q = x / c;
    let r = x % c;
    lemma_mod_division_less_than_divisor(x, c);
    if r == 0 {
        assert(x - 1 == (q - 1) * c + (c - 1)) by {
            assert((q - 1) * c == q * c - c);
        }
        lemma_fundamental_div_mod_converse(x - 1, c, q - 1, c - 1);
    } else {
        lemma_fundamental_div_mod_converse(x - 1, c, q, r - 1);
    }
}

/// A multiple of 400 is a multiple of 100 and of 4; a multiple of 100 is a
/// multiple of 4.
proof fn lemma_century_divisibility(y: int)
    ensures
        y % 400 == 0 ==> y % 100 == 0,
        y % 400 == 0 ==> y % 4 == 0,
        y % 100 == 0 ==> y % 4 == 0,
{
    broadcast use
        vstd::arithmetic::mul::group_mul_is_commutative_and_distributive,
        vstd::arithmetic::mul::lemma_mul_is_associative,
    ;

    if y % 400 == 0 {
        lemma_fundamental_div_mod(y, 400);
        let k = y / 400;
        lemma_fundamental_div_mod_converse(y, 100, 4 * k, 0);
        lemma_fundamental_div_mod_converse(y, 4, 100 * k, 0);
    }
    if y % 100 == 0 {
        lemma_fundamental_div_mod(y, 100);
        let k = y / 100;
        lemma_fundamental_div_mod_converse(y, 4, 25 * k, 0);
    }
}

/// The day counts of 0001-01-01 and of the first day past the supported
/// range, evaluated.
pub proof fn lemma_day_limit()
    ensures
        days_before_year(1) == 0,
        days_before_year(10000) == DAY_LIMIT as int,
{
    lemma_fundamental_div_mod_converse(0, 4, 0, 0);
    lemma_fundamental_div_mod_converse(0, 100, 0, 0);
    lemma_fundamental_div_mod_converse(0, 400, 0, 0);
    lemma_fundamental_div_mod_converse(9999, 4, 2499, 3);
    lemma_fundamental_div_mod_converse(9999, 100, 99, 99);
    lemma_fundamental_div_mod_converse(9999, 400, 24, 399);
}

/// The day count of 1970-01-01, evaluated.
pub proof fn lemma_epoch_day()
    ensures
        days_before_year(1970) == EPOCH_DAY as int,
        day_number(1970, 1, 1) == EPOCH_DAY as int,
{
    lemma_fundamental_div_mod_converse(1969, 4, 492, 1);
    lemma_fundamental_div_mod_converse(1969, 100, 19, 69);
    lemma_fundamental_div_mod_converse(1969, 400, 4, 369);
}

/// Day counts of consecutive January firsts differ by the year's length.
pub proof fn lemma_days_before_year_step(y: int)
    requires
        y >= 1,
    ensures
        days_before_year(y + 1) == days_before_year(y) + days_in_year(y),
{
    lemma_div_step(y, 4);
    lemma_div_step(y, 100);
    lemma_div_step(y, 400);
    lemma_century_divisibility(y);
}

/// `days_before_year` grows with the year, by at least a day per year.
pub proof fn lemma_days_before_year_monotone(a: int, b: int)
    requires
        1 <= a <= b,
    ensures
        days_before_year(b) - days_before_year(a) >= b - a,
    decreases b - a,
{
    if a < b {
        lemma_days_before_year_monotone(a, b - 1);
        lemma_days_before_year_step(b - 1);
    }
}

/// `days_before_month` grows with the month, by at least a day per month.
pub proof fn lemma_days_before_month_monotone(y: int, a: int, b: int)
    requires
        1 <= a <= b,
    ensures
        days_before_month(y, b) - days_before_month(y, a) >= b - a,
    decreases b - a,
{
    if a < b {
        lemma_days_before_month_monotone(y, a, b - 1);
    }
}

/// A year's twelve months exactly cover its days.
pub proof fn lemma_months_cover_year(y: int)
    ensures
        days_before_month(y, 13) == days_in_year(y),
{
    reveal_with_fuel(days_before_month, 13);
}

/// Within a year, the offset of a valid (m, d) lies below the year length.
pub proof fn lemma_month_day_bounds(y: int, m: int, d: int)
    requires
        1 <= m <= 12,
        1 <= d <= days_in_month(y, m),
    ensures
        0 <= days_before_month(y, m) + (d - 1),
        days_before_month(y, m) + (d - 1) < days_in_year(y),
{
    lemma_days_before_month_monotone(y, 1, m);
    lemma_days_before_month_monotone(y, m + 1, 13);
    lemma_months_cover_year(y);
    assert(days_before_month(y, m + 1) == days_before_month(y, m) + days_in_month(y, m));
}

/// The day count of a valid date lies between the January firsts of its
/// year and the next.
pub proof fn lemma_day_number_bounds(y: int, m: int, d: int)
    requires
        valid_ymd(y, m, d),
    ensures
        days_before_year(y) <= day_number(y, m, d),
        day_number(y, m, d) < days_before_year(y + 1),
        0 <= day_number(y, m, d) < DAY_LIMIT as int,
{
    lemma_month_day_bounds(y, m, d);
    lemma_days_before_year_step(y);
    lemma_days_before_year_monotone(1, y);
    lemma_days_before_year_monotone(y + 1, 10000);
    lemma_day_limit();
}

/// Two valid dates with the same day count are the same date.
pub proof fn lemma_day_number_injective(y1: int, m1: int, d1: int, y2: int, m2: int, d2: int)
    requires
        valid_ymd(y1, m1, d1),
        valid_ymd(y2, m2, d2),
        day_number(y1, m1, d1) == day_number(y2, m2, d2),
    ensures
        y1 == y2,
        m1 == m2,
        d1 == d2,
{
    lemma_day_number_bounds(y1, m1, d1);
    lemma_day_number_bounds(y2, m2, d2);
    if y1 < y2 {
        lemma_days_before_year_monotone(y1 + 1, y2);
        assert(false);
    }
    if y2 < y1 {
        lemma_days_before_year_monotone(y2 + 1, y1);
        assert(false);
    }
    if m1 < m2 {
        lemma_days_before_month_monotone(y1, m1 + 1, m2);
        assert(days_before_month(y1, m1 + 1) == days_before_month(y1, m1) + days_in_month(
            y1,
            m1,
        ));
        assert(false);
    }
    if m2 < m1 {
        lemma_days_before_month_monotone(y1, m2 + 1, m1);
        assert(days_before_month(y1, m2 + 1) == days_before_month(y1, m2) + days_in_month(
            y1,
            m2,
        ));
        assert(false);
    }
}

fn is_leap_year_exec(y: i32) -> (r: bool)
    requires
        1 <= y,
    ensures
        r == is_leap_year(y as int),
{
    let yu = y as u32;
    yu % 4 == 0 && (yu % 100 != 0 || yu % 400 == 0)
}

pub fn days_in_month_exec(y: i32, m: u8) -> (r: u8)
    requires
        1 <= y,
        1 <= m <= 12,
    ensures
        r == days_in_month(y as int, m as int),
{
    if m == 2 {
        if is_leap_year_exec(y) {
            29
        } else {
            28
        }
    } else if m == 4 || m == 6 || m == 9 || m == 11 {
        30
    } else {
        31
    }
}

fn days_in_year_exec(y: i32) -> (r: u16)
    requires
        1 <= y,
    ensures
        r == days_in_year(y as int),
{
    if is_leap_year_exec(y) {
        366
    } else {
        365
    }
}

fn days_before_year_exec(y: i32) -> (r: i64)
    requires
        1 <= y <= 10000,
    ensures
        r == days_before_year(y as int),
{
    let n = (y - 1) as u64;
    proof {
        lemma_div_pos_is_pos(n as int, 4);
        lemma_div_pos_is_pos(n as int, 100);
        lemma_div_pos_is_pos(n as int, 400);
        lemma_div_nonincreasing(n as int, 4);
        lemma_div_nonincreasing(n as int, 100);
        lemma_div_nonincreasing(n as int, 400);
    }
    (365 * n + n / 4 - n / 100 + n / 400) as i64
}

fn days_before_month_exec(y: i32, m: u8) -> (r: u16)
    requires
        1 <= y,
        1 <= m <= 12,
    ensures
        r == days_before_month(y as int, m as int),
{
    let mut acc: u16 = 0;
    let mut i: u8 = 1;
    while i < m
        invariant
            1 <= y,
            1 <= i <= m <= 12,
            acc == days_before_month(y as int, i as int),
        decreases m - i,
    {
        proof {
            lemma_days_before_month_monotone(y as int, 1, i as int);
            lemma_days_before_month_monotone(y as int, i + 1, 13);
            lemma_months_cover_year(y as int);
        }
        acc = acc + days_in_month_exec(y, i) as u16;
        i = i + 1;
    }
    acc
}

/// Day count of a valid civil date.
pub fn day_number_exec(y: i32, m: u8, d: u8) -> (r: i64)
    requires
        valid_ymd(y as int, m as int, d as int),
    ensures
        r == day_number(y as int, m as int, d as int),
        0 <= r < DAY_LIMIT,
{
    proof {
        lemma_day_number_bounds(y as int, m as int, d as int);
        lemma_day_limit();
        lemma_days_before_year_monotone(1, y as int);
    }
    days_before_year_exec(y) + days_before_month_exec(y, m) as i64 + (d - 1) as i64
}

/// Civil date of a day count within the supported range.
pub fn civil_from_day_number(n: i64) -> (r: (i32, u8, u8))
    requires
        0 <= n < DAY_LIMIT,
    ensures
        valid_ymd(r.0 as int, r.1 as int, r.2 as int),
        day_number(r.0 as int, r.1 as int, r.2 as int) == n,
{
    proof {
        lemma_day_limit();
    }
    let mut y: i32 = 1;
    let mut rem: i64 = n;
    loop
        invariant
            1 <= y <= 9999,
            0 <= rem,
            days_before_year(y as int) + rem == n,
            n < DAY_LIMIT,
            days_before_year(10000) == DAY_LIMIT as int,
        ensures
            1 <= y <= 9999,
            0 <= rem,
            days_before_year(y as int) + rem == n,
            rem < days_in_year(y as int),
        decreases rem,
    {
        let len = days_in_year_exec(y) as i64;
        if rem < len {
            break ;
        }
        proof {
            lemma_days_before_year_step(y as int);
            if y + 1 >= 10000 {
                lemma_days_before_year_monotone(10000, y + 1);
                assert(false);
            }
        }
        rem = rem - len;
        y = y + 1;
    }
    proof {
        lemma_months_cover_year(y as int);
    }
    let mut m: u8 = 1;
    loop
        invariant
            1 <= y <= 9999,
            1 <= m <= 12,
            0 <= rem,
            days_before_year(y as int) + days_before_month(y as int, m as int) + rem == n,
            days_before_month(y as int, m as int) + rem < days_in_year(y as int),
            days_before_month(y as int, 13) == days_in_year(y as int),
        ensures
            1 <= y <= 9999,
            1 <= m <= 12,
            0 <= rem,
            days_before_year(y as int) + days_before_month(y as int, m as int) + rem == n,
            rem < days_in_month(y as int, m as int),
        decreases rem,
    {
        let len = days_in_month_exec(y, m) as i64;
        if rem < len {
            break ;
        }
        proof {
            assert(days_before_month(y as int, (m + 1) as int) == days_before_month(
                y as int,
                m as int,
            ) + days_in_month(y as int, m as int));
            if m + 1 >= 13 {
                lemma_days_before_month_monotone(y as int, 13, m + 1 as int);
                assert(false);
            }
        }
        rem = rem - len;
        m = m + 1;
    }
    (y, m, (rem + 1) as u8)
}

/// Weekday of a valid civil date, numbered Monday = 0 through Sunday = 6.
pub fn weekday_number_exec(y: i32, m: u8, d: u8) -> (r: u8)
    requires
        valid_ymd(y as int, m as int, d as int),
    ensures
        r == weekday_number(y as int, m as int, d as int),
        r < 7,
{
    proof {
        lemma_mod_division_less_than_divisor(day_number(y as int, m as int, d as int), 7);
    }
    let dn = day_number_exec(y, m, d);
    (dn as u64 % 7) as u8
}

} // verus!
