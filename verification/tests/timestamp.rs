use eden_logger::text::digit_count;
use eden_logger::time::{
    duration_millis, millis_since_epoch, nanos_since_epoch, unix_millis, unix_nanos, Clock, Duration,
};
use eden_logger::timestamp::{
    write_timestamp_rfc3339, write_timestamp_rfc3339_now_cached, Timestamp, TimestampCache,
};

fn shown(seconds: i64, nanos: u32) -> String {
    let mut buf = String::new();
    write_timestamp_rfc3339(&mut buf, &Timestamp::from_timestamp(seconds, nanos).expect("a timestamp"));
    buf
}

#[test]
fn timestamps_have_millisecond_rfc3339_texts() {
    assert_eq!(shown(0, 0), "1970-01-01T00:00:00.000Z");
    assert_eq!(shown(951_782_399, 999_999_999), "2000-02-28T23:59:59.999Z");
    assert_eq!(shown(951_782_400, 1_000_000), "2000-02-29T00:00:00.001Z");
    assert_eq!(shown(1_735_603_200, 0), "2024-12-31T00:00:00.000Z");
    assert_eq!(shown(-1, 500_000_000), "1969-12-31T23:59:59.500Z");
    assert_eq!(shown(4_107_542_400, 0), "2100-03-01T00:00:00.000Z");
    assert_eq!(shown(-60_000_000_000, 0), "0068-09-03T13:20:00.000Z");
}

#[test]
fn timestamp_texts_agree_with_chrono() {
    let mut seconds: i64 = -5_000_000_000;
    while seconds < 10_000_000_000 {
        let expected = chrono::DateTime::from_timestamp(seconds, 123_456_789)
            .unwrap()
            .format("%Y-%m-%dT%H:%M:%S%.3fZ")
            .to_string();
        assert_eq!(shown(seconds, 123_456_789), expected);
        assert_eq!(expected.len(), 24);
        seconds += 7_654_321;
    }
}

#[test]
fn timestamp_texts_read_back_and_are_in_order() {
    let mut last: Option<String> = None;
    let mut seconds: i64 = -62_167_219_200;
    while seconds < 253_402_300_800 {
        let nanos = (seconds.rem_euclid(1_000) * 1_000_000 + 999_999) as u32;
        let text = shown(seconds, nanos);
        let read = chrono::DateTime::parse_from_rfc3339(&text).unwrap();
        assert_eq!(read.timestamp_millis(), seconds * 1000 + i64::from(nanos / 1_000_000));
        assert!(last.is_none_or(|last| last < text));
        last = Some(text);
        seconds += 98_765_432;
    }
    assert!(shown(0, 999_000_000) < shown(1, 0));
    assert_eq!(shown(0, 1_000_000), shown(0, 1_999_999));
}

#[test]
fn timestamps_give_back_what_they_are_made_of() {
    let ts = Timestamp::from_timestamp(1_735_603_200, 7_654_321).unwrap();
    assert_eq!(ts.timestamp(), 1_735_603_200);
    assert_eq!(ts.timestamp_subsec_nanos(), 7_654_321);
    assert_eq!(ts.timestamp_millis(), 1_735_603_200_007);
    assert_eq!(ts.timestamp_nanos_opt(), Some(1_735_603_200_007_654_321));

    assert!(Timestamp::from_timestamp(i64::MAX, 0).is_none());
    assert!(Timestamp::from_timestamp(0, 2_000_000_000).is_none());
    let far = Timestamp::from_timestamp(20_000_000_000, 0).unwrap();
    assert_eq!(far.timestamp_nanos_opt(), None);
}

#[test]
fn a_cache_gives_the_text_of_the_timestamp() {
    let mut cache = TimestampCache::new();
    for (seconds, nanos) in [(5, 1), (5, 999), (5, 1_000_000), (0, 0), (0, 1), (5, 1)] {
        let mut buf = String::from("t=");
        cache.write(&mut buf, &Timestamp::from_timestamp(seconds, nanos).unwrap());
        assert_eq!(buf, format!("t={}", shown(seconds, nanos)));
    }
}

#[test]
fn the_current_time_is_written() {
    let before = unix_millis();
    let mut cache = TimestampCache::new();
    let mut buf = String::new();
    let now = write_timestamp_rfc3339_now_cached(&mut buf, &mut cache);
    let after = unix_millis();
    assert!(before <= now.timestamp_millis() as u64 && now.timestamp_millis() as u64 <= after);
    assert_eq!(buf, shown(now.timestamp(), now.timestamp_subsec_nanos()));
    assert!(Timestamp::now().timestamp() > 1_600_000_000);
}

#[test]
fn digits_are_counted_up_to_four() {
    assert_eq!(digit_count(0), 1);
    assert_eq!(digit_count(9), 1);
    assert_eq!(digit_count(10), 2);
    assert_eq!(digit_count(999), 3);
    assert_eq!(digit_count(1_000), 4);
    assert_eq!(digit_count(u64::MAX), 4);
}

#[test]
fn durations_are_measured_in_nanoseconds() {
    assert!(Duration::zero().is_zero());
    assert_eq!(Duration::from_secs(2).as_nanos(), 2_000_000_000);
    assert_eq!(Duration::from_nanos(1_999_999).as_millis(), 1);
    assert_eq!(Duration::new(u64::MAX, 7).as_nanos(), u128::from(u64::MAX) * 1_000_000_000 + 7);
    assert_eq!(duration_millis(Duration::from_secs(3)), 3_000);
    assert_eq!(duration_millis(Duration::from_secs(u64::MAX)), u64::MAX);
    assert_eq!(Duration::from_secs(3).min(Duration::from_millis(10)), Duration::from_millis(10));
    assert!(Duration::from_millis(11).exceeds(&Duration::from_millis(10)));
    assert!(!Duration::from_millis(10).exceeds(&Duration::from_millis(10)));
}

#[test]
fn the_clock_reads_one_instant() {
    assert_eq!(millis_since_epoch(3, 999_999_999), 3_999);
    assert_eq!(nanos_since_epoch(3, 999_999_999), 3_999_999_999);
    assert_eq!(millis_since_epoch(u64::MAX, 0), u64::MAX);
    assert_eq!(nanos_since_epoch(u64::MAX, 0), u64::MAX);
    let clock = Clock::now();
    assert_eq!(clock.unix_nanos / 1_000_000, clock.unix_millis);
    assert_eq!((clock.unix_nanos % 1_000_000_000) as u32, clock.subsec_nanos);
    assert!(unix_nanos() >= clock.unix_nanos);
}
