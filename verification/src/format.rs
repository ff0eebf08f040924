//! Rendering a resolved date/time in the two standard mail/internet text
//! forms. The text itself comes from the `time` crate; the library states
//! exactly when rendering succeeds and leaves the rendered text named.

use crate::datetime::DateTime;
use vstd::prelude::*;

verus! {

/// The RFC 2822 text of a date/time with the given field values.
pub uninterp spec fn rfc2822_text(
    y: int,
    mo: int,
    d: int,
    h: int,
    mi: int,
    s: int,
    off: int,
) -> Seq<char>;

/// The RFC 3339 text of a date/time with the given field values.
pub uninterp spec fn rfc3339_text(
    y: int,
    mo: int,
    d: int,
    h: int,
    mi: int,
    s: int,
    ns: int,
    off: int,
) -> Seq<char>;

/// Relies on `OffsetDateTime::format` with the RFC 2822 description of the
/// time crate: for a valid date of year at least 1900 with a whole-minute
/// offset it returns text, and the text depends on the field values alone.
#[verifier::external_body]
fn rfc2822_raw(y: i32, mo: u8, d: u8, h: u8, mi: u8, s: u8, off: i32) -> (r: String)
    requires
        crate::calendar::valid_ymd(y as int, mo as int, d as int),
        y >= 1900,
        h < 24,
        mi < 60,
        s < 60,
        -86399 <= off <= 86399,
        off % 60 == 0,
    ensures
        r@ == rfc2822_text(y as int, mo as int, d as int, h as int, mi as int, s as int, off as int),
{
    let date = time::Date::from_calendar_date(y, time::Month::try_from(mo).unwrap(), d).unwrap();
    let tod = time::Time::from_hms(h, mi, s).unwrap();
    let odt = time::PrimitiveDateTime::new(date, tod).assume_offset(
        time::UtcOffset::from_whole_seconds(off).unwrap(),
    );
    odt.format(&time::format_description::well_known::Rfc2822).unwrap()
}

/// Relies on `OffsetDateTime::format` with the RFC 3339 description of the
/// time crate: for a valid date of years 1 through 9999 with a whole-minute
/// offset it returns text, and the text depends on the field values alone.
#[verifier::external_body]
fn rfc3339_raw(y: i32, mo: u8, d: u8, h: u8, mi: u8, s: u8, ns: u32, off: i32) -> (r: String)
    requires
        crate::calendar::valid_ymd(y as int, mo as int, d as int),
        h < 24,
        mi < 60,
        s < 60,
        ns < 1_000_000_000,
        -86399 <= off <= 86399,
        off % 60 == 0,
    ensures
        r@ == rfc3339_text(
            y as int,
            mo as int,
            d as int,
            h as int,
            mi as int,
            s as int,
            ns as int,
            off as int,
        ),
{
    let date = time::Date::from_calendar_date(y, time::Month::try_from(mo).unwrap(), d).unwrap();
    let tod = time::Time::from_hms_nano(h, mi, s, ns).unwrap();
    let odt = time::PrimitiveDateTime::new(date, tod).assume_offset(
        time::UtcOffset::from_whole_seconds(off).unwrap(),
    );
    odt.format(&time::format_description::well_known::Rfc3339).unwrap()
}

/// The offset is a whole number of minutes, the only offsets the standard
/// text forms can carry.
pub open spec fn whole_minute_offset(off: int) -> bool {
    off % 60 == 0
}

fn offset_is_whole_minutes(off: i32) -> (r: bool)
    requires
        -86399 <= off <= 86399,
    ensures
        r == whole_minute_offset(off as int),
{
    let mag: u32 = if off >= 0 {
        off as u32
    } else {
        (-off) as u32
    };
    proof {
        if off < 0 {
            vstd::arithmetic::div_mod::lemma_fundamental_div_mod(mag as int, 60);
            vstd::arithmetic::div_mod::lemma_mod_division_less_than_divisor(mag as int, 60);
            vstd::arithmetic::div_mod::lemma_fundamental_div_mod(off as int, 60);
            vstd::arithmetic::div_mod::lemma_mod_division_less_than_divisor(off as int, 60);
            let q = mag as int / 60;
            let r0 = mag as int % 60;
            if r0 == 0 {
                vstd::arithmetic::div_mod::lemma_fundamental_div_mod_converse(
                    off as int,
                    60,
                    -q,
                    0,
                );
            } else {
                vstd::arithmetic::div_mod::lemma_fundamental_div_mod_converse(
                    off as int,
                    60,
                    -q - 1,
                    60 - r0,
                );
            }
        }
    }
    mag % 60 == 0
}

/// RFC 2822 rendering: succeeds exactly for years 1900 and later with a
/// whole-minute offset; the sub-second fraction does not appear in this
/// form.
pub fn format_rfc2822(dt: &DateTime) -> (r: Option<String>)
    requires
        dt.wf(),
    ensures
        r is Some <==> dt.year >= 1900 && whole_minute_offset(dt.offset_seconds as int),
        r matches Some(t) ==> t@ == rfc2822_text(
            dt.year as int,
            dt.month as int,
            dt.day as int,
            dt.hour as int,
            dt.minute as int,
            dt.second as int,
            dt.offset_seconds as int,
        ),
{
    if dt.year >= 1900 && offset_is_whole_minutes(dt.offset_seconds) {
        Some(rfc2822_raw(dt.year, dt.month, dt.day, dt.hour, dt.minute, dt.second, dt.offset_seconds))
    } else {
        None
    }
}

/// RFC 3339 rendering: succeeds exactly for whole-minute offsets; every
/// supported year renders.
pub fn format_rfc3339(dt: &DateTime) -> (r: Option<String>)
    requires
        dt.wf(),
    ensures
        r is Some <==> whole_minute_offset(dt.offset_seconds as int),
        r matches Some(t) ==> t@ == rfc3339_text(
            dt.year as int,
            dt.month as int,
            dt.day as int,
            dt.hour as int,
            dt.minute as int,
            dt.second as int,
            dt.nanosecond as int,
            dt.offset_seconds as int,
        ),
{
    if offset_is_whole_minutes(dt.offset_seconds) {
        Some(
            rfc3339_raw(
                dt.year,
                dt.month,
                dt.day,
                dt.hour,
                dt.minute,
                dt.second,
                dt.nanosecond,
                dt.offset_seconds,
            ),
        )
    } else {
        None
    }
}

} // verus!
