use ledger_sync::timestamp::{has_conflict, is_after, parse_rfc3339, Timestamp};

#[test]
fn parse_plain_utc() {
    let t = parse_rfc3339("2024-01-02T03:04:05Z").expect("parses");
    assert_eq!(
        t,
        Timestamp {
            year: 2024,
            month: 1,
            day: 2,
            hour: 3,
            minute: 4,
            second: 5,
            nanos: 0,
            offset_minutes: 0,
        }
    );
}

#[test]
fn parse_fraction_and_offset() {
    let t = parse_rfc3339("2023-06-30T23:59:59.123+02:30").expect("parses");
    assert_eq!(t.year, 2023);
    assert_eq!(t.nanos, 123_000_000);
    assert_eq!(t.offset_minutes, 150);
    let t2 = parse_rfc3339("2023-06-30T23:59:59.123456789-01:05").expect("parses");
    assert_eq!(t2.nanos, 123_456_789);
    assert_eq!(t2.offset_minutes, -65);
}

#[test]
fn parse_lowercase_separators_and_space() {
    assert!(parse_rfc3339("2024-01-02t03:04:05z").is_some());
    assert!(parse_rfc3339("2024-01-02 03:04:05Z").is_some());
}

#[test]
fn parse_rejects_malformed() {
    assert!(parse_rfc3339("").is_none());
    assert!(parse_rfc3339("2024-01-02").is_none());
    assert!(parse_rfc3339("2024-13-02T03:04:05Z").is_none());
    assert!(parse_rfc3339("2024-02-30T03:04:05Z").is_none());
    assert!(parse_rfc3339("2024-01-02T24:04:05Z").is_none());
    assert!(parse_rfc3339("2024-01-02T03:04:05").is_none());
    assert!(parse_rfc3339("2024-01-02T03:04:05.Z").is_none());
    assert!(parse_rfc3339("2024-01-02T03:04:05.1234567890Z").is_none());
    assert!(parse_rfc3339("2024-01-02T03:04:05+24:00").is_none());
    assert!(parse_rfc3339("not a date but long enough!").is_none());
}

#[test]
fn parse_leap_day() {
    assert!(parse_rfc3339("2024-02-29T00:00:00Z").is_some());
    assert!(parse_rfc3339("2023-02-29T00:00:00Z").is_none());
    assert!(parse_rfc3339("2000-02-29T00:00:00Z").is_some());
    assert!(parse_rfc3339("1900-02-29T00:00:00Z").is_none());
}

#[test]
fn after_compares_chronologically() {
    assert!(is_after("2024-01-02T00:00:00Z", "2024-01-01T23:59:59Z"));
    assert!(!is_after("2024-01-01T23:59:59Z", "2024-01-02T00:00:00Z"));
    assert!(!is_after("2024-01-01T10:00:00Z", "2024-01-01T10:00:00Z"));
}

#[test]
fn after_honours_offsets() {
    // 01:00 at +01:00 is 00:00 UTC, earlier than 00:30 UTC.
    assert!(!is_after("2024-01-01T01:00:00+01:00", "2024-01-01T00:30:00Z"));
    assert!(is_after("2024-01-01T00:30:00Z", "2024-01-01T01:00:00+01:00"));
    // Same instant in two renderings: neither is after the other.
    assert!(!is_after("2024-01-01T01:00:00+01:00", "2024-01-01T00:00:00Z"));
    assert!(!is_after("2024-01-01T00:00:00Z", "2024-01-01T01:00:00+01:00"));
}

#[test]
fn after_breaks_ties_by_nanos() {
    assert!(is_after("2024-01-01T00:00:00.5Z", "2024-01-01T00:00:00.25Z"));
    assert!(!is_after("2024-01-01T00:00:00.25Z", "2024-01-01T00:00:00.5Z"));
}

#[test]
fn after_falls_back_to_lexical() {
    assert!(is_after("b", "a"));
    assert!(!is_after("a", "b"));
    assert!(is_after("unknown2", "unknown1"));
    // A parseable and an unparseable side are compared as text.
    assert!(is_after("9999", "2024-01-01T00:00:00Z"));
}

#[test]
fn strict_order_on_distinct_valid_stamps() {
    let a = "2024-05-01T12:00:00Z";
    let b = "2024-05-01T12:00:01Z";
    assert_eq!(is_after(a, b), !is_after(b, a));
    let c = "unparsed-a";
    let d = "unparsed-b";
    assert_eq!(is_after(c, d), !is_after(d, c));
}

#[test]
fn conflict_requires_sync_point_and_both_newer() {
    let t0 = "2024-01-01T00:00:00Z";
    let t1 = "2024-01-02T00:00:00Z";
    let t2 = "2024-01-03T00:00:00Z";
    assert!(has_conflict(Some(t0), t1, t2));
    assert!(!has_conflict(Some(t0), t0, t2));
    assert!(!has_conflict(Some(t0), t1, t0));
    assert!(!has_conflict(Some(t2), t1, t1));
    assert!(!has_conflict(None, t1, t2));
}

#[test]
fn parse_admits_trailing_leap_second() {
    let t = parse_rfc3339("2016-12-31T23:59:60Z").expect("leap second parses");
    assert_eq!(t.second, 60);
    assert!(parse_rfc3339("2016-12-31T23:59:61Z").is_none());
}

#[test]
fn day_boundaries_compare_correctly() {
    // Month, year and leap-day boundaries are one second apart.
    assert!(is_after("2024-03-01T00:00:00Z", "2024-02-29T23:59:59Z"));
    assert!(is_after("2025-01-01T00:00:00Z", "2024-12-31T23:59:59Z"));
    assert!(!is_after("2024-02-28T23:59:59Z", "2024-02-29T00:00:00Z"));
}
