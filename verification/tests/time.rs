use lamefiles::text::NumberError;
use lamefiles::time::{
    days_to_seconds, meets_time_condition, parse_time_condition, Timestamp, SECONDS_PER_DAY,
};

#[test]
fn a_threshold_of_zero_asks_nothing() {
    let now = Timestamp::new(1_000, 0);
    assert!(meets_time_condition(now, 0, Timestamp::new(10, 0)));
    assert!(meets_time_condition(now, 0, now));
    assert!(meets_time_condition(now, 0, Timestamp::new(2_000, 0)));
}

#[test]
fn the_age_must_exceed_the_threshold() {
    let now = Timestamp::new(1_000, 0);
    assert!(!meets_time_condition(now, 100, Timestamp::new(950, 0)));
    assert!(!meets_time_condition(now, 100, Timestamp::new(900, 0)));
    assert!(meets_time_condition(now, 100, Timestamp::new(899, 0)));
    assert!(meets_time_condition(now, 1, Timestamp::new(0, 0)));
}

#[test]
fn a_time_after_now_never_passes() {
    let now = Timestamp::new(1_000, 0);
    assert!(!meets_time_condition(now, 1, Timestamp::new(1_000, 1)));
    assert!(!meets_time_condition(now, 1, Timestamp::new(5_000, 0)));
    assert!(!meets_time_condition(now, u64::MAX, Timestamp::new(5_000, 0)));
}

#[test]
fn a_fraction_of_a_second_beyond_the_threshold_is_enough() {
    // 10.5 seconds have passed.
    let now = Timestamp::new(100, 0);
    let observed = Timestamp::new(89, 500_000_000);
    assert!(meets_time_condition(now, 10, observed));
    assert!(meets_time_condition(now, 9, observed));
    assert!(!meets_time_condition(now, 11, observed));
    // 9.9 seconds have passed.
    let now = Timestamp::new(10, 500_000_000);
    let observed = Timestamp::new(0, 600_000_000);
    assert!(meets_time_condition(now, 9, observed));
    assert!(!meets_time_condition(now, 10, observed));
}

#[test]
fn the_threshold_itself_is_not_enough() {
    let now = Timestamp::new(50, 250);
    assert!(!meets_time_condition(now, 10, Timestamp::new(40, 250)));
    assert!(meets_time_condition(now, 10, Timestamp::new(40, 249)));
    assert!(!meets_time_condition(now, 10, Timestamp::new(40, 251)));
    assert!(!meets_time_condition(now, 1, Timestamp::new(49, 250)));
    assert!(meets_time_condition(now, 1, Timestamp::new(48, 1_000_000_249)));
}

#[test]
fn the_filter_is_that_of_exact_durations() {
    let points = [
        (0i64, 0u32),
        (0, 1),
        (0, 999_999_999),
        (1, 0),
        (1, 500_000_000),
        (9, 999_999_999),
        (10, 0),
        (10, 1),
        (11, 0),
        (3600, 123_456_789),
    ];
    for (now_secs, now_nanos) in points {
        for (seen_secs, seen_nanos) in points {
            for min in [0u64, 1, 9, 10, 11, 3599, 3600] {
                let now = std::time::Duration::new(now_secs as u64, now_nanos);
                let seen = std::time::Duration::new(seen_secs as u64, seen_nanos);
                let expected = min == 0
                    || match now.checked_sub(seen) {
                        Some(age) => age > std::time::Duration::from_secs(min),
                        None => false,
                    };
                let met = meets_time_condition(
                    Timestamp::new(now_secs, now_nanos),
                    min,
                    Timestamp::new(seen_secs, seen_nanos),
                );
                assert_eq!(met, expected, "now {:?}, seen {:?}, min {}", now, seen, min);
            }
        }
    }
}

#[test]
fn times_before_the_epoch_count_too() {
    let now = Timestamp::new(100, 0);
    let observed = Timestamp::new(-100, 0);
    assert!(meets_time_condition(now, 199, observed));
    assert!(!meets_time_condition(now, 200, observed));
    assert!(!meets_time_condition(observed, 1, now));
}

#[test]
fn the_ends_of_the_range_do_not_overflow() {
    let first = Timestamp::new(i64::MIN, 0);
    let last = Timestamp::new(i64::MAX, u32::MAX);
    assert!(meets_time_condition(last, u64::MAX - 1, first));
    assert!(!meets_time_condition(first, 1, last));
    assert!(meets_time_condition(first, 0, last));
}

#[test]
fn days_become_seconds() {
    assert_eq!(SECONDS_PER_DAY, 86400);
    assert_eq!(days_to_seconds(0), Some(0));
    assert_eq!(days_to_seconds(1), Some(86400));
    assert_eq!(days_to_seconds(30), Some(2_592_000));
    assert_eq!(days_to_seconds(u64::MAX / 86400), Some(u64::MAX / 86400 * 86400));
    assert_eq!(days_to_seconds(u64::MAX / 86400 + 1), None);
    assert_eq!(days_to_seconds(u64::MAX), None);
}

#[test]
fn a_threshold_that_was_not_given_is_zero() {
    assert_eq!(parse_time_condition(None), Ok(0));
}

#[test]
fn a_threshold_is_a_number_of_days() {
    assert_eq!(parse_time_condition(Some("0")), Ok(0));
    assert_eq!(parse_time_condition(Some("7")), Ok(7));
    assert_eq!(parse_time_condition(Some("365")), Ok(365));
    assert_eq!(parse_time_condition(Some("+3")), Ok(3));
    assert_eq!(parse_time_condition(Some("007")), Ok(7));
    assert_eq!(parse_time_condition(Some("18446744073709551615")), Ok(u64::MAX));
}

#[test]
fn a_threshold_that_is_no_number_is_refused() {
    assert_eq!(parse_time_condition(Some("")), Err(NumberError::Empty));
    assert_eq!(parse_time_condition(Some("abc")), Err(NumberError::InvalidDigit));
    assert_eq!(parse_time_condition(Some("-3")), Err(NumberError::InvalidDigit));
    assert_eq!(parse_time_condition(Some("+")), Err(NumberError::InvalidDigit));
    assert_eq!(parse_time_condition(Some(" 7")), Err(NumberError::InvalidDigit));
    assert_eq!(parse_time_condition(Some("7 ")), Err(NumberError::InvalidDigit));
    assert_eq!(parse_time_condition(Some("1.5")), Err(NumberError::InvalidDigit));
    assert_eq!(parse_time_condition(Some("18446744073709551616")), Err(NumberError::TooLarge));
    assert_eq!(parse_time_condition(Some("99999999999999999999999")), Err(NumberError::TooLarge));
}

#[test]
fn thresholds_are_read_as_the_standard_library_reads_them() {
    let texts = [
        "", "0", "1", "12", "+12", "-12", "++1", "1+", "0x10", "١٢", "１２", " 1", "1\n",
        "18446744073709551615", "18446744073709551616", "000000000000000000000000001", "+0",
    ];
    for text in texts {
        let expected: Option<u64> = text.parse::<u64>().ok();
        assert_eq!(parse_time_condition(Some(text)).ok(), expected, "text {:?}", text);
    }
}
