use backend::api::parse_time;
use backend::clock::{parse_clock, parse_lenient, parse_minutes, parse_strict, ClockParse, ClockTime};

#[test]
fn well_formed_text_is_minutes_since_midnight() {
    assert_eq!(parse_lenient("9:00"), 540);
    assert_eq!(parse_lenient("09:00"), 540);
    assert_eq!(parse_lenient("14:30"), 870);
    assert_eq!(parse_lenient("0:00"), 0);
    assert_eq!(parse_lenient("23:59"), 1439);
}

#[test]
fn malformed_text_is_midnight() {
    assert_eq!(parse_lenient("abc"), 0);
    assert_eq!(parse_time("abc"), 0);
    assert_eq!(parse_lenient(""), 0);
    assert_eq!(parse_lenient("12"), 0);
    assert_eq!(parse_lenient("12:"), 0);
    assert_eq!(parse_lenient(":30"), 0);
    assert_eq!(parse_lenient("1:2:3"), 0);
    assert_eq!(parse_lenient("ab:30"), 0);
    assert_eq!(parse_lenient("12:xx"), 0);
    assert_eq!(parse_lenient(" 9:00"), 0);
    assert_eq!(parse_lenient("9:00 "), 0);
    assert_eq!(parse_lenient("-9:00"), 0);
    assert_eq!(parse_lenient("9.00"), 0);
}

#[test]
fn strict_reading_reports_malformed_text() {
    assert_eq!(parse_strict("abc"), None);
    assert_eq!(parse_strict("9:30"), Some(570));
    assert_eq!(parse_minutes(ClockParse::Strict, "abc"), None);
    assert_eq!(parse_minutes(ClockParse::LenientZero, "abc"), Some(0));
    assert_eq!(parse_minutes(ClockParse::Strict, "10:15"), Some(615));
    assert_eq!(parse_minutes(ClockParse::LenientZero, "10:15"), Some(615));
}

#[test]
fn numerals_may_carry_a_plus_and_leading_zeros() {
    assert_eq!(parse_clock("+9:+5"), Some(ClockTime { hour: 9, minute: 5 }));
    assert_eq!(parse_clock("0009:005"), Some(ClockTime { hour: 9, minute: 5 }));
    assert_eq!(parse_clock("+:5"), None);
    assert_eq!(parse_clock("++9:5"), None);
}

#[test]
fn fields_are_not_held_to_a_range() {
    assert_eq!(parse_clock("25:75"), Some(ClockTime { hour: 25, minute: 75 }));
    assert_eq!(parse_lenient("25:75"), 25 * 60 + 75);
    assert_eq!(parse_clock("4294967295:4294967295"), Some(ClockTime { hour: u32::MAX, minute: u32::MAX }));
    assert_eq!(parse_lenient("4294967295:4294967295"), 4294967295u64 * 61);
    assert_eq!(parse_clock("4294967296:00"), None);
    assert_eq!(parse_lenient("99999999999999999999999999:00"), 0);
}

#[test]
fn text_beyond_ascii_is_malformed() {
    assert_eq!(parse_lenient("９:００"), 0);
    assert_eq!(parse_lenient("9：00"), 0);
    assert_eq!(parse_strict("é:é"), None);
}
