use hermes::date::{
    civil_from_epoch, format_rfc3339, format_rfc5322, parse_rfc3339, parse_rfc5322, u32_to_dec,
    DateTime,
};

fn dt(
    year: u32,
    month: u8,
    day: u8,
    hour: u8,
    minute: u8,
    second: u8,
    offset_minutes: i32,
) -> DateTime {
    DateTime { year, month, day, hour, minute, second, offset_minutes }
}

#[test]
fn rfc3339_parse_exact() {
    assert_eq!(
        parse_rfc3339("2024-01-15T10:30:00Z"),
        Some(dt(2024, 1, 15, 10, 30, 0, 0))
    );
    assert_eq!(
        parse_rfc3339("2008-02-05T10:30:00+05:30"),
        Some(dt(2008, 2, 5, 10, 30, 0, 330))
    );
    assert_eq!(
        parse_rfc3339("1999-12-31T23:59:59-08:00"),
        Some(dt(1999, 12, 31, 23, 59, 59, -480))
    );
}

#[test]
fn rfc3339_parse_rejects_bad_calendar() {
    assert_eq!(parse_rfc3339("2023-02-29T00:00:00Z"), None);
    assert_eq!(parse_rfc3339("2024-13-01T00:00:00Z"), None);
    assert_eq!(parse_rfc3339("2024-01-15 10:30:00Z"), None);
    assert_eq!(parse_rfc3339("2024-01-15T10:30:00"), None);
    assert_eq!(parse_rfc3339("2024-01-15T24:00:00Z"), None);
}

#[test]
fn rfc3339_parse_accepts_leap_day() {
    assert_eq!(
        parse_rfc3339("2024-02-29T00:00:00Z"),
        Some(dt(2024, 2, 29, 0, 0, 0, 0))
    );
}

#[test]
fn rfc5322_format_exact() {
    assert_eq!(
        format_rfc5322(&dt(2024, 1, 15, 10, 30, 0, 0)),
        "15 Jan 2024 10:30:00 +0000"
    );
    assert_eq!(
        format_rfc5322(&dt(2008, 2, 5, 9, 5, 7, 330)),
        "05 Feb 2008 09:05:07 +0530"
    );
    assert_eq!(
        format_rfc5322(&dt(1999, 12, 31, 23, 59, 59, -480)),
        "31 Dec 1999 23:59:59 -0800"
    );
}

#[test]
fn rfc3339_format_exact() {
    assert_eq!(format_rfc3339(&dt(2024, 1, 15, 10, 30, 0, 0)), "2024-01-15T10:30:00Z");
    assert_eq!(
        format_rfc3339(&dt(2008, 2, 5, 10, 30, 0, 330)),
        "2008-02-05T10:30:00+05:30"
    );
}

#[test]
fn rfc5322_parse_skips_day_name() {
    assert_eq!(
        parse_rfc5322("Mon, 15 Jan 2024 10:30:00 +0000"),
        Some(dt(2024, 1, 15, 10, 30, 0, 0))
    );
    assert_eq!(
        parse_rfc5322("5 Feb 2008 10:30:00 +0530"),
        Some(dt(2008, 2, 5, 10, 30, 0, 330))
    );
}

#[test]
fn rfc5322_parse_missing_offset_reads_zero() {
    assert_eq!(
        parse_rfc5322("15 Jan 2024 10:30:00"),
        Some(dt(2024, 1, 15, 10, 30, 0, 0))
    );
}

#[test]
fn rfc5322_parse_rejects_garbage() {
    assert_eq!(parse_rfc5322("not a date"), None);
    assert_eq!(parse_rfc5322("32 Jan 2024 10:30:00 +0000"), None);
    assert_eq!(parse_rfc5322("15 Jxx 2024 10:30:00 +0000"), None);
}

#[test]
fn date_forms_are_inverse() {
    let a = dt(2024, 2, 29, 23, 59, 59, -480);
    assert_eq!(parse_rfc5322(&format_rfc5322(&a)), Some(a));
    assert_eq!(parse_rfc3339(&format_rfc3339(&a)), Some(a));
    let b = dt(1970, 1, 1, 0, 0, 0, 0);
    assert_eq!(parse_rfc5322(&format_rfc5322(&b)), Some(b));
    assert_eq!(parse_rfc3339(&format_rfc3339(&b)), Some(b));
}

#[test]
fn civil_epoch_zero() {
    assert_eq!(civil_from_epoch(0), dt(1970, 1, 1, 0, 0, 0, 0));
}

#[test]
fn civil_epoch_known_instant() {
    assert_eq!(civil_from_epoch(1705314600), dt(2024, 1, 15, 10, 30, 0, 0));
}

#[test]
fn civil_epoch_leap_day() {
    // 2024-02-29T12:00:00Z
    assert_eq!(civil_from_epoch(1709208000), dt(2024, 2, 29, 12, 0, 0, 0));
}

#[test]
fn civil_epoch_year_boundary() {
    assert_eq!(civil_from_epoch(1704067199), dt(2023, 12, 31, 23, 59, 59, 0));
    assert_eq!(civil_from_epoch(1704067200), dt(2024, 1, 1, 0, 0, 0, 0));
}

#[test]
fn civil_epoch_clamps_beyond_four_digit_years() {
    assert_eq!(civil_from_epoch(u64::MAX), dt(9999, 12, 31, 7, 0, 15, 0));
}

#[test]
fn decimal_form() {
    assert_eq!(u32_to_dec(0), "0");
    assert_eq!(u32_to_dec(7), "7");
    assert_eq!(u32_to_dec(12345), "12345");
    assert_eq!(u32_to_dec(4294967295), "4294967295");
}
