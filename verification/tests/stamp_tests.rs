use chrono::{DateTime, Datelike, FixedOffset, NaiveDate, TimeZone, Timelike};
use lecture::util::{format_local_date, format_local_time, format_rfc3339, LocalStamp};

fn stamp_of(d: &DateTime<FixedOffset>) -> LocalStamp {
    LocalStamp {
        year: d.year(),
        month: d.month(),
        day: d.day(),
        hour: d.hour(),
        minute: d.minute(),
        second: d.second(),
        nanosecond: d.nanosecond(),
        offset_seconds: d.offset().local_minus_utc(),
    }
}

fn at(offset: i32, y: i32, mo: u32, d: u32, h: u32, mi: u32, s: u32, nano: u32) -> DateTime<FixedOffset> {
    let naive = NaiveDate::from_ymd_opt(y, mo, d).unwrap().and_hms_nano_opt(h, mi, s, nano).unwrap();
    FixedOffset::east_opt(offset).unwrap().from_local_datetime(&naive).unwrap()
}

#[test]
fn date_and_time_texts() {
    let d = stamp_of(&at(3600, 2024, 3, 5, 10, 0, 7, 0));
    assert_eq!(format_local_date(&d), "2024-03-05");
    assert_eq!(format_local_time(&d), "10:00:07");
    assert_eq!(format_rfc3339(&d), "2024-03-05T10:00:07+01:00");
}

#[test]
fn years_outside_four_digits() {
    let d = LocalStamp { year: 999, month: 1, day: 2, hour: 0, minute: 0, second: 0, nanosecond: 0, offset_seconds: 0 };
    assert_eq!(format_local_date(&d), "0999-01-02");
    assert_eq!(format_local_date(&LocalStamp { year: -5, ..d }), "-0005-01-02");
    assert_eq!(format_local_date(&LocalStamp { year: 12345, ..d }), "+12345-01-02");
}

#[test]
fn fractions_offsets_and_leap_seconds() {
    let d = LocalStamp { year: 2026, month: 8, day: 30, hour: 9, minute: 5, second: 59, nanosecond: 0, offset_seconds: -19800 };
    assert_eq!(format_rfc3339(&d), "2026-08-30T09:05:59-05:30");
    assert_eq!(format_rfc3339(&LocalStamp { nanosecond: 123_000_000, ..d }), "2026-08-30T09:05:59.123-05:30");
    assert_eq!(format_rfc3339(&LocalStamp { nanosecond: 123_456_000, ..d }), "2026-08-30T09:05:59.123456-05:30");
    assert_eq!(format_rfc3339(&LocalStamp { nanosecond: 1, ..d }), "2026-08-30T09:05:59.000000001-05:30");
    let leap = LocalStamp { nanosecond: 1_500_000_000, ..d };
    assert_eq!(format_local_time(&leap), "09:05:60");
    assert_eq!(format_rfc3339(&leap), "2026-08-30T09:05:60.500-05:30");
    assert_eq!(format_rfc3339(&LocalStamp { offset_seconds: 0, ..d }), "2026-08-30T09:05:59+00:00");
    assert_eq!(format_rfc3339(&LocalStamp { offset_seconds: 59, ..d }), "2026-08-30T09:05:59+00:01");
}

#[test]
fn texts_agree_with_chrono() {
    let cases = [
        at(3600, 2024, 3, 5, 10, 0, 7, 0),
        at(-19800, 2026, 8, 30, 23, 59, 59, 123_456_789),
        at(0, 999, 12, 31, 1, 2, 3, 5_000_000),
        at(45_296, 10_000, 1, 1, 0, 0, 0, 250_000),
        at(-3600, -44, 3, 15, 12, 30, 0, 0),
        at(7200, 2016, 12, 31, 23, 59, 59, 1_250_000_000),
    ];
    for dt in cases.iter() {
        let s = stamp_of(dt);
        assert_eq!(format_local_date(&s), dt.format("%Y-%m-%d").to_string());
        assert_eq!(format_local_time(&s), dt.format("%H:%M:%S").to_string());
        assert_eq!(format_rfc3339(&s), dt.to_rfc3339());
    }
}
