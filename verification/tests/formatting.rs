use dateparse::datetime::{unix_timestamp, DateTime};
use dateparse::format::{format_rfc2822, format_rfc3339};
use dateparse::parsers::{try_parse, ParseOptions};

fn utc(y: i32, mo: u8, d: u8, h: u8, mi: u8, s: u8) -> DateTime {
    DateTime {
        year: y,
        month: mo,
        day: d,
        hour: h,
        minute: mi,
        second: s,
        nanosecond: 0,
        offset_seconds: 0,
    }
}

#[test]
fn test_rfc2822_text() {
    let dt = utc(2017, 7, 14, 2, 40, 0);
    assert_eq!(
        format_rfc2822(&dt).as_deref(),
        Some("Fri, 14 Jul 2017 02:40:00 +0000")
    );
}

#[test]
fn test_rfc3339_text() {
    let dt = utc(2017, 7, 14, 2, 40, 0);
    assert_eq!(format_rfc3339(&dt).as_deref(), Some("2017-07-14T02:40:00Z"));
}

#[test]
fn test_rfc3339_keeps_offset() {
    let mut dt = utc(2106, 3, 8, 0, 0, 0);
    dt.offset_seconds = 5 * 3600;
    assert_eq!(
        format_rfc3339(&dt).as_deref(),
        Some("2106-03-08T00:00:00+05:00")
    );
}

#[test]
fn test_rfc2822_declines_early_years() {
    let dt = utc(1000, 1, 1, 0, 0, 0);
    assert_eq!(format_rfc2822(&dt), None);
    assert_eq!(format_rfc3339(&dt).as_deref(), Some("1000-01-01T00:00:00Z"));
}

#[test]
fn test_unix_timestamp_value() {
    assert_eq!(unix_timestamp(&utc(2017, 7, 14, 2, 40, 0)), 1_500_000_000);
    assert_eq!(unix_timestamp(&utc(1970, 1, 1, 0, 0, 0)), 0);
    let mut eastern = utc(2017, 7, 14, 2, 40, 0);
    eastern.offset_seconds = 5 * 3600;
    assert_eq!(unix_timestamp(&eastern), 1_500_000_000 - 5 * 3600);
}

#[test]
fn test_unix_seconds_round_trip() {
    let opt = ParseOptions {
        now: utc(2017, 7, 14, 2, 40, 0),
    };
    for input in ["1500000000", "253402300799", "-5", "86400"] {
        let dt = try_parse(input, &opt).unwrap();
        let secs = unix_timestamp(&dt);
        let printed = format!("{}", secs);
        assert_eq!(try_parse(&printed, &opt), Some(dt), "input {}", input);
    }
}
