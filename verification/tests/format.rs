use statlog::record::{Timestamp, MAX_CIVIL_SECS, MIN_CIVIL_SECS};

fn fmt(secs: i64) -> String {
    let mut out: Vec<u8> = Vec::new();
    Timestamp::new(secs).format_to(&mut out);
    String::from_utf8(out).unwrap()
}

#[test]
fn epoch_formats_as_nineteen_seventy() {
    assert_eq!(fmt(0), "1970-01-01 00:00:00");
}

#[test]
fn ordinary_timestamp_formats_with_padding() {
    // 2009-02-13 23:31:30 UTC
    assert_eq!(fmt(1234567890), "2009-02-13 23:31:30");
}

#[test]
fn last_second_of_a_year_formats_exactly() {
    // 2019-12-31 23:59:59 UTC
    assert_eq!(fmt(1577836799), "2019-12-31 23:59:59");
}

#[test]
fn timestamps_before_the_epoch_format_exactly() {
    assert_eq!(fmt(-1), "1969-12-31 23:59:59");
}

#[test]
fn leap_day_formats_exactly() {
    // 2020-02-29 12:00:00 UTC
    assert_eq!(fmt(1582977600), "2020-02-29 12:00:00");
}

#[test]
fn range_bounds_format_without_failing() {
    assert_eq!(fmt(MIN_CIVIL_SECS), "-9999-01-01 00:00:00");
    assert_eq!(fmt(MAX_CIVIL_SECS), "9999-12-31 23:59:59");
}

#[test]
fn range_bounds_agree_with_the_calendar_library() {
    assert!(time::OffsetDateTime::from_unix_timestamp(MIN_CIVIL_SECS).is_ok());
    assert!(time::OffsetDateTime::from_unix_timestamp(MIN_CIVIL_SECS - 1).is_err());
    assert!(time::OffsetDateTime::from_unix_timestamp(MAX_CIVIL_SECS).is_ok());
    assert!(time::OffsetDateTime::from_unix_timestamp(MAX_CIVIL_SECS + 1).is_err());
}

#[test]
fn now_lies_in_the_supported_range() {
    let now = Timestamp::now();
    assert!(now.as_secs() >= MIN_CIVIL_SECS);
    assert!(now.as_secs() <= MAX_CIVIL_SECS);
    // a freshly sampled clock reads after 2020
    assert!(now.as_secs() > 1577836800);
}

#[test]
fn timestamp_keeps_its_second_count() {
    let t = Timestamp::new(123456789);
    assert_eq!(t.as_secs(), 123456789);
}
