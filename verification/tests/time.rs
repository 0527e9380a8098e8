use ollama_client::time::Timestamp;

#[test]
fn an_instant_in_utc_is_read() {
    assert_eq!(
        Timestamp::parse("2024-01-01T00:00:00Z"),
        Some(Timestamp { seconds: 1704067200, nanos: 0 })
    );
    assert_eq!(Timestamp::parse("1970-01-01T00:00:00Z"), Some(Timestamp { seconds: 0, nanos: 0 }));
}

#[test]
fn an_instant_with_an_offset_is_moved_to_utc() {
    assert_eq!(
        Timestamp::parse("2024-01-01T01:00:00+01:00"),
        Some(Timestamp { seconds: 1704067200, nanos: 0 })
    );
    assert_eq!(
        Timestamp::parse("2023-12-31T19:00:00-05:00"),
        Some(Timestamp { seconds: 1704067200, nanos: 0 })
    );
}

#[test]
fn fractions_of_a_second_are_kept() {
    assert_eq!(
        Timestamp::parse("2024-01-01T00:00:00.123456789Z"),
        Some(Timestamp { seconds: 1704067200, nanos: 123_456_789 })
    );
    assert_eq!(
        Timestamp::parse("2025-02-03T04:05:06.7891011+08:00"),
        Some(Timestamp { seconds: 1738526706, nanos: 789_101_100 })
    );
}

#[test]
fn an_instant_before_the_epoch_has_negative_seconds() {
    assert_eq!(
        Timestamp::parse("1969-12-31T23:59:59.25Z"),
        Some(Timestamp { seconds: -1, nanos: 250_000_000 })
    );
}

#[test]
fn a_space_may_part_date_and_time() {
    assert_eq!(
        Timestamp::parse("2024-01-01 00:00:00Z"),
        Some(Timestamp { seconds: 1704067200, nanos: 0 })
    );
}

#[test]
fn what_is_no_instant_is_not_read() {
    assert_eq!(Timestamp::parse(""), None);
    assert_eq!(Timestamp::parse("..."), None);
    assert_eq!(Timestamp::parse("2024-01-01"), None);
    assert_eq!(Timestamp::parse("2024-01-01T00:00:00"), None);
    assert_eq!(Timestamp::parse("2024-13-01T00:00:00Z"), None);
    assert_eq!(Timestamp::parse("2024-01-01T00:00:00Z trailing"), None);
}
