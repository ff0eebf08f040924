use dateparse::datetime::DateTime;
use dateparse::parsers::{as_month, as_unix_timestamp, as_weekday, as_year, try_parse, ParseOptions};

fn utc(y: i32, mo: u8, d: u8, h: u8, mi: u8, s: u8) -> DateTime {
    DateTime {
        year: y,
        month: mo,
        day: d,
        hour: h,
        minute: mi,
        second: s,
        nanosecond: 0,
        offset_seconds: 0,
    }
}

fn at_offset(y: i32, mo: u8, d: u8, h: u8, mi: u8, s: u8, off: i32) -> DateTime {
    DateTime {
        year: y,
        month: mo,
        day: d,
        hour: h,
        minute: mi,
        second: s,
        nanosecond: 0,
        offset_seconds: off,
    }
}

#[test]
fn test_as_unix_timestamp() {
    assert_eq!(
        as_unix_timestamp("1500000000"),
        Some(utc(2017, 7, 14, 2, 40, 0))
    );
    assert_eq!(as_unix_timestamp("notunix"), None);
}

#[test]
fn test_as_unix_timestamp_millis() {
    assert_eq!(
        as_unix_timestamp("1500000000000"),
        Some(utc(2017, 7, 14, 2, 40, 0))
    );
}

#[test]
fn test_as_year() {
    assert_eq!(as_year("2020"), Some(utc(2020, 1, 1, 0, 0, 0)));
}

#[test]
fn test_as_month() {
    let opt = ParseOptions {
        now: utc(2017, 7, 14, 2, 40, 0),
    };

    assert_eq!(as_month("February", &opt), Some(utc(2018, 2, 1, 0, 0, 0)));

    assert_eq!(as_month("august", &opt), Some(utc(2017, 8, 1, 0, 0, 0)));
    assert_eq!(as_month("july", &opt), Some(utc(2018, 7, 1, 0, 0, 0)));
}

#[test]
fn test_as_weekday() {
    let opt = ParseOptions {
        now: utc(2106, 3, 3, 12, 0, 0),
    };
    assert_eq!(as_weekday("Monday", &opt), Some(utc(2106, 3, 8, 0, 0, 0)));
    let opt = ParseOptions {
        now: at_offset(2106, 3, 3, 12, 0, 0, 5 * 3600),
    };
    assert_eq!(
        as_weekday("Monday", &opt),
        Some(at_offset(2106, 3, 8, 0, 0, 0, 5 * 3600))
    );
}

#[test]
fn test_empty_string_is_now_with_fraction_zeroed() {
    let mut now = at_offset(2017, 7, 14, 2, 40, 0, 5 * 3600);
    now.nanosecond = 123_456_789;
    let opt = ParseOptions { now };
    let mut expected = now;
    expected.nanosecond = 0;
    assert_eq!(try_parse("", &opt), Some(expected));
}

#[test]
fn test_year_wins_over_timestamp() {
    let opt = ParseOptions {
        now: utc(2017, 7, 14, 2, 40, 0),
    };
    assert_eq!(try_parse("9999", &opt), Some(utc(9999, 1, 1, 0, 0, 0)));
    // the bare-year reading declined, so the same digits read as seconds
    assert_eq!(as_unix_timestamp("9999"), Some(utc(1970, 1, 1, 2, 46, 39)));
}

#[test]
fn test_year_bounds_fall_through_to_timestamp() {
    let opt = ParseOptions {
        now: utc(2017, 7, 14, 2, 40, 0),
    };
    assert_eq!(try_parse("0", &opt), Some(utc(1970, 1, 1, 0, 0, 0)));
    assert_eq!(try_parse("10000", &opt), Some(utc(1970, 1, 1, 2, 46, 40)));
    assert_eq!(try_parse("-5", &opt), Some(utc(1969, 12, 31, 23, 59, 55)));
}

#[test]
fn test_timestamp_year_ceiling_switches_to_millis() {
    let opt = ParseOptions {
        now: utc(2017, 7, 14, 2, 40, 0),
    };
    // the last whole second of year 9999 still reads as seconds
    assert_eq!(
        try_parse("253402300799", &opt),
        Some(utc(9999, 12, 31, 23, 59, 59))
    );
    // one more second would pass year 9999, so the value reads as milliseconds
    let mut expected = utc(1978, 1, 11, 21, 31, 40);
    expected.nanosecond = 800_000_000;
    assert_eq!(try_parse("253402300800", &opt), Some(expected));
}

#[test]
fn test_millis_keep_sub_second_fraction() {
    let mut expected = utc(2017, 7, 14, 2, 40, 0);
    expected.nanosecond = 500_000_000;
    assert_eq!(as_unix_timestamp("1500000000500"), Some(expected));
}

#[test]
fn test_unrecognized_input_fails() {
    let opt = ParseOptions {
        now: utc(2017, 7, 14, 2, 40, 0),
    };
    assert_eq!(try_parse("notunix", &opt), None);
    assert_eq!(try_parse("+", &opt), None);
    assert_eq!(try_parse("12a3", &opt), None);
    assert_eq!(try_parse("monday tuesday", &opt), None);
}

#[test]
fn test_same_weekday_resolves_to_next_week() {
    // 2106-03-03 is a Wednesday
    let opt = ParseOptions {
        now: utc(2106, 3, 3, 12, 0, 0),
    };
    assert_eq!(try_parse("wednesday", &opt), Some(utc(2106, 3, 10, 0, 0, 0)));
    assert_eq!(try_parse("WEDNESDAY", &opt), Some(utc(2106, 3, 10, 0, 0, 0)));
}

#[test]
fn test_weekday_saturates_at_calendar_end() {
    let opt = ParseOptions {
        now: utc(9999, 12, 31, 12, 0, 0),
    };
    assert_eq!(try_parse("friday", &opt), Some(utc(9999, 12, 31, 0, 0, 0)));
    assert_eq!(try_parse("monday", &opt), Some(utc(9999, 12, 31, 0, 0, 0)));
}

#[test]
fn test_month_names_through_chain() {
    let opt = ParseOptions {
        now: utc(2017, 7, 14, 2, 40, 0),
    };
    assert_eq!(try_parse("February", &opt), Some(utc(2018, 2, 1, 0, 0, 0)));
    assert_eq!(try_parse("AUGUST", &opt), Some(utc(2017, 8, 1, 0, 0, 0)));
    assert_eq!(try_parse("july", &opt), Some(utc(2018, 7, 1, 0, 0, 0)));
}

#[test]
fn test_month_from_leap_day_reference() {
    let opt = ParseOptions {
        now: utc(2024, 2, 29, 2, 40, 0),
    };
    assert_eq!(try_parse("february", &opt), Some(utc(2025, 2, 1, 0, 0, 0)));
    assert_eq!(try_parse("january", &opt), Some(utc(2025, 1, 1, 0, 0, 0)));
    assert_eq!(try_parse("march", &opt), Some(utc(2024, 3, 1, 0, 0, 0)));
}

#[test]
fn test_month_declines_past_calendar_end() {
    let opt = ParseOptions {
        now: utc(9999, 5, 5, 0, 0, 0),
    };
    assert_eq!(try_parse("march", &opt), None);
    assert_eq!(try_parse("august", &opt), Some(utc(9999, 8, 1, 0, 0, 0)));
}

#[test]
fn test_timestamp_declines_before_year_one() {
    // one second before 0001-01-01T00:00:00Z as seconds, and far before it
    // as milliseconds: no reading stays in the supported calendar
    let opt = ParseOptions {
        now: utc(2017, 7, 14, 2, 40, 0),
    };
    assert_eq!(try_parse("-62135596801000", &opt), None);
    // the same instant as milliseconds is fine
    assert_eq!(
        try_parse("-62135596800000", &opt),
        Some(utc(1, 1, 1, 0, 0, 0))
    );
}
