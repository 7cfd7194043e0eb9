use tasktui::calendar::{
    day_number_of, days_in_month, leap_year, timestamp_from_parts, ts_add_days, weekday_of,
    Timestamp,
};
use tasktui::calendar::{instant_seconds, ts_before};
use tasktui::datefmt::{format_rfc3339, parse_date_input, parse_rfc3339, trim_chars};
use chrono::{Datelike, Timelike};

fn chars(s: &str) -> Vec<char> {
    s.chars().collect()
}

fn text(v: &[char]) -> String {
    v.iter().collect()
}

fn ts(y: u32, mo: u32, d: u32, h: u32, mi: u32, sec: u32, off: i32) -> Timestamp {
    Timestamp { year: y, month: mo, day: d, hour: h, minute: mi, second: sec, offset_min: off }
}

#[test]
fn leap_years_follow_the_gregorian_rule() {
    assert!(leap_year(2024));
    assert!(!leap_year(2023));
    assert!(!leap_year(1900));
    assert!(leap_year(2000));
    assert_eq!(days_in_month(2024, 2), 29);
    assert_eq!(days_in_month(2023, 2), 28);
    assert_eq!(days_in_month(2026, 4), 30);
    assert_eq!(days_in_month(2026, 12), 31);
}

#[test]
fn day_numbers_start_at_the_epoch() {
    assert_eq!(day_number_of(1970, 1, 1), 0);
    assert_eq!(day_number_of(1970, 1, 2), 1);
    assert_eq!(day_number_of(1970, 2, 1), 31);
    assert_eq!(day_number_of(1971, 1, 1), 365);
}

#[test]
fn weekdays_match_the_calendar() {
    // 1970-01-01 was a Thursday; Monday is 0.
    assert_eq!(weekday_of(1970, 1, 1), 3);
    // Cross-check a spread of dates against chrono.
    let samples = [
        (1970u32, 1u32, 1u32),
        (2000, 2, 29),
        (2024, 2, 29),
        (2026, 10, 12),
        (1999, 12, 31),
        (2100, 3, 1),
    ];
    for (y, m, d) in samples {
        let ours = weekday_of(y, m, d);
        let theirs = chrono::NaiveDate::from_ymd_opt(y as i32, m, d)
            .unwrap()
            .weekday()
            .num_days_from_monday();
        assert_eq!(ours, theirs, "weekday of {y}-{m}-{d}");
    }
}

#[test]
fn adding_days_rolls_over_months_and_years() {
    let t = ts(2024, 2, 28, 12, 0, 0, 0);
    let t2 = ts_add_days(t, 1);
    assert_eq!((t2.year, t2.month, t2.day), (2024, 2, 29));
    let t3 = ts_add_days(t, 2);
    assert_eq!((t3.year, t3.month, t3.day), (2024, 3, 1));
    let t4 = ts_add_days(ts(2023, 2, 28, 0, 0, 0, 0), 1);
    assert_eq!((t4.year, t4.month, t4.day), (2023, 3, 1));
    let t5 = ts_add_days(ts(2024, 12, 31, 0, 0, 0, 0), 1);
    assert_eq!((t5.year, t5.month, t5.day), (2025, 1, 1));
    // The calendar saturates at its upper end.
    let t6 = ts_add_days(ts(9999, 12, 31, 0, 0, 0, 0), 5);
    assert_eq!((t6.year, t6.month, t6.day), (9999, 12, 31));
}

#[test]
fn rfc3339_formatting_matches_the_standard() {
    let t = ts(2026, 10, 12, 23, 59, 59, 120);
    let s = text(&format_rfc3339(&t));
    assert_eq!(s, "2026-10-12T23:59:59+02:00");
    let parsed = chrono::DateTime::parse_from_rfc3339(&s).unwrap();
    assert_eq!(parsed.year(), 2026);
    assert_eq!(parsed.month(), 10);
    assert_eq!(parsed.day(), 12);
    assert_eq!(parsed.hour(), 23);
    assert_eq!(parsed.offset().local_minus_utc(), 120 * 60);

    let neg = ts(1999, 1, 2, 3, 4, 5, -330);
    assert_eq!(text(&format_rfc3339(&neg)), "1999-01-02T03:04:05-05:30");
}

#[test]
fn rfc3339_round_trips_to_the_second() {
    let samples = [
        ts(1970, 1, 1, 0, 0, 0, 0),
        ts(2026, 10, 12, 23, 59, 59, 120),
        ts(1999, 1, 2, 3, 4, 5, -330),
        ts(9999, 12, 31, 23, 59, 59, 1439),
    ];
    for t in samples {
        let s = format_rfc3339(&t);
        assert_eq!(parse_rfc3339(&s), Some(t));
    }
}

#[test]
fn rfc3339_accepts_fractional_seconds() {
    // Files written with sub-second precision still load, at second precision.
    assert_eq!(
        parse_rfc3339(&chars("2026-10-12T23:59:59.123456+02:00")),
        Some(ts(2026, 10, 12, 23, 59, 59, 120))
    );
    assert_eq!(
        parse_rfc3339(&chars("2026-10-12T23:59:59.5-05:30")),
        Some(ts(2026, 10, 12, 23, 59, 59, -330))
    );
    // A dot with no digits, or a fraction without an offset, is malformed.
    assert_eq!(parse_rfc3339(&chars("2026-10-12T23:59:59.+02:00")), None);
    assert_eq!(parse_rfc3339(&chars("2026-10-12T23:59:59.123456")), None);
}

#[test]
fn rfc3339_round_trips_chrono_written_rows() {
    // What chrono's standard rendering writes for an instant parses back to
    // the same wall clock and offset.
    let written = chrono::DateTime::parse_from_rfc3339("2026-10-12T09:30:00.250+02:00")
        .unwrap()
        .to_rfc3339();
    let got = parse_rfc3339(&chars(&written)).unwrap();
    assert_eq!(got, ts(2026, 10, 12, 9, 30, 0, 120));
}

#[test]
fn instants_compare_across_offsets() {
    // 10:00 at +02:00 is 08:00 UTC; 09:00 at +00:00 is 09:00 UTC.
    let a = ts(2026, 10, 12, 10, 0, 0, 120);
    let b = ts(2026, 10, 12, 9, 0, 0, 0);
    assert!(ts_before(&a, &b));
    assert!(!ts_before(&b, &a));
    // The same instant displayed under two offsets is not before itself.
    let c = ts(2026, 10, 12, 11, 0, 0, 120);
    let d = ts(2026, 10, 12, 9, 0, 0, 0);
    assert_eq!(instant_seconds(&c), instant_seconds(&d));
    assert!(!ts_before(&c, &d));
    assert!(!ts_before(&d, &c));
}

#[test]
fn rfc3339_rejects_malformed_text() {
    assert_eq!(parse_rfc3339(&chars("not a date")), None);
    assert_eq!(parse_rfc3339(&chars("2026-02-30T00:00:00+00:00")), None);
    assert_eq!(parse_rfc3339(&chars("2026-13-01T00:00:00+00:00")), None);
    assert_eq!(parse_rfc3339(&chars("2026-10-12T24:00:00+00:00")), None);
    assert_eq!(parse_rfc3339(&chars("2026-10-12 23:59:59+00:00")), None);
    assert_eq!(parse_rfc3339(&chars("2026-10-12T23:59:59+00:0")), None);
}

#[test]
fn date_input_today_is_end_of_today() {
    let now = ts(2026, 10, 12, 9, 30, 0, 120);
    let got = parse_date_input(&chars("today"), &now).unwrap();
    assert_eq!(got, ts(2026, 10, 12, 23, 59, 59, 120));
}

#[test]
fn date_input_bogus_is_rejected() {
    let now = ts(2026, 10, 12, 9, 30, 0, 0);
    assert_eq!(parse_date_input(&chars("bogus"), &now), None);
    assert_eq!(parse_date_input(&chars(""), &now), None);
    assert_eq!(parse_date_input(&chars("2026-02-30"), &now), None);
}

#[test]
fn date_input_relative_tokens() {
    let now = ts(2026, 10, 12, 9, 30, 0, 0);
    assert_eq!(
        parse_date_input(&chars("tomorrow"), &now),
        Some(ts(2026, 10, 13, 23, 59, 59, 0))
    );
    assert_eq!(
        parse_date_input(&chars("  NEXT Week "), &now),
        Some(ts(2026, 10, 19, 23, 59, 59, 0))
    );
    assert_eq!(
        parse_date_input(&chars("next month"), &now),
        Some(ts(2026, 11, 11, 23, 59, 59, 0))
    );
}

#[test]
fn date_input_absolute_forms() {
    let now = ts(2026, 10, 12, 9, 30, 0, -60);
    assert_eq!(
        parse_date_input(&chars("2026-01-15"), &now),
        Some(ts(2026, 1, 15, 23, 59, 59, -60))
    );
    assert_eq!(
        parse_date_input(&chars("01/15/2026"), &now),
        Some(ts(2026, 1, 15, 23, 59, 59, -60))
    );
    // Month first where possible, day first otherwise.
    assert_eq!(
        parse_date_input(&chars("15/01/2026"), &now),
        Some(ts(2026, 1, 15, 23, 59, 59, -60))
    );
    assert_eq!(
        parse_date_input(&chars("2026-01-15 08:30"), &now),
        Some(ts(2026, 1, 15, 8, 30, 0, -60))
    );
    assert_eq!(
        parse_date_input(&chars("01/15/2026 23:59"), &now),
        Some(ts(2026, 1, 15, 23, 59, 0, -60))
    );
    assert_eq!(parse_date_input(&chars("2026-01-15 24:30"), &now), None);
}

#[test]
fn trim_strips_outer_whitespace_only() {
    assert_eq!(text(&trim_chars(&chars("  a b \t"))), "a b");
    assert_eq!(text(&trim_chars(&chars(""))), "");
    assert_eq!(text(&trim_chars(&chars(" \t\r\n"))), "");
}

#[test]
fn timestamp_from_parts_checks_every_range() {
    assert!(timestamp_from_parts(2026, 10, 12, 23, 59, 59, 7200).is_some());
    assert_eq!(timestamp_from_parts(1969, 12, 31, 0, 0, 0, 0), None);
    assert_eq!(timestamp_from_parts(2026, 2, 30, 0, 0, 0, 0), None);
    assert_eq!(timestamp_from_parts(2026, 1, 1, 24, 0, 0, 0), None);
    assert_eq!(timestamp_from_parts(2026, 1, 1, 0, 0, 0, 86400), None);
    let t = timestamp_from_parts(2026, 1, 1, 0, 0, 0, -5400).unwrap();
    assert_eq!(t.offset_min, -90);
}
