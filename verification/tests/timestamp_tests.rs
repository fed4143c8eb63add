use symphony_rs::timestamp::{Timestamp, FIRST_SECOND, LAST_SECOND};

fn at(text: &str) -> Timestamp {
    Timestamp::parse_rfc3339(text).expect("a time")
}

#[test]
fn times_are_read_and_written_in_rfc3339() {
    let time = at("2026-03-21T01:02:03.5+02:00");
    assert_eq!(time.to_rfc3339(), "2026-03-20T23:02:03.500+00:00");
    assert_eq!(Timestamp::new(0, 0).expect("valid").to_rfc3339(), "1970-01-01T00:00:00+00:00");
    assert!(Timestamp::parse_rfc3339("2026-03-21").is_none());
}

#[test]
fn the_valid_range_is_that_of_chrono() {
    let seconds = [
        i64::MIN, FIRST_SECOND - 1, FIRST_SECOND, -1, 0, 59, 60, LAST_SECOND, LAST_SECOND + 1,
        i64::MAX - 62_135_683_200,
    ];
    let nanos = [0u32, 999_999_999, 1_000_000_000, 1_999_999_999, 2_000_000_000];
    for s in seconds {
        for n in nanos {
            let outside: Option<chrono::DateTime<chrono::Utc>> =
                if s == i64::MIN { None } else { chrono::DateTime::from_timestamp(s, n) };
            assert_eq!(Timestamp::new(s, n).is_some(), outside.is_some());
        }
    }
}

#[test]
fn spans_agree_with_chrono() {
    let points = [
        (0i64, 0u32), (59, 1_500_000_000), (60, 0), (-1, 999_999_999), (86_399, 1_000_000_000),
        (86_400, 1), (1_700_000_000, 123_456_789), (FIRST_SECOND, 0), (LAST_SECOND, 999_999_999),
    ];
    for a in points {
        for b in points {
            let left = Timestamp::new(a.0, a.1).expect("valid");
            let right = Timestamp::new(b.0, b.1).expect("valid");
            let outer: chrono::DateTime<chrono::Utc> =
                chrono::DateTime::from_timestamp(a.0, a.1).expect("valid");
            let other: chrono::DateTime<chrono::Utc> =
                chrono::DateTime::from_timestamp(b.0, b.1).expect("valid");
            let span = outer.signed_duration_since(other);
            assert_eq!(left.seconds_since(&right), span.num_seconds());
            assert_eq!(left.millis_since(&right), span.num_milliseconds());
            assert_eq!(left.is_before(&right), outer < other);
            assert_eq!(left.epoch_millis(), outer.timestamp_millis().max(0) as u64);
            assert_eq!(left.seconds(), outer.timestamp());
            assert_eq!(left.nanos(), outer.timestamp_subsec_nanos());
        }
    }
}

#[test]
fn the_clock_is_later_than_this_library() {
    assert!(at("2020-01-01T00:00:00Z").is_before(&Timestamp::now()));
}

#[test]
fn spans_are_rounded_toward_zero() {
    let early = at("2026-03-21T00:00:01.900Z");
    let late = at("2026-03-21T00:00:03.500Z");
    assert_eq!(late.seconds_since(&early), 1);
    assert_eq!(early.seconds_since(&late), -1);
    assert_eq!(late.millis_since(&early), 1_600);
    assert_eq!(early.millis_since(&late), -1_600);
    assert_eq!(Timestamp::new(-1, 0).expect("valid").epoch_millis(), 0);
    assert_eq!(Timestamp::new(2, 999_999_999).expect("valid").epoch_millis(), 2_999);
}

#[test]
fn a_leap_second_counts_between_times_of_day() {
    let within = Timestamp::new(59, 1_500_000_000).expect("valid");
    let behind = Timestamp::new(60, 0).expect("valid");
    assert_eq!(behind.millis_since(&within), 500);
    assert_eq!(within.millis_since(&behind), -500);
}
