use cosmic_pulsar::time::Duration;

#[test]
fn whole_seconds_have_no_nanoseconds() {
    let span = Duration::from_secs(42);
    assert_eq!(span.as_secs(), 42);
    assert_eq!(span.subsec_nanos(), 0);
}

#[test]
fn milliseconds_split_into_seconds_and_nanoseconds() {
    let span = Duration::from_millis(1_500);
    assert_eq!(span.as_secs(), 1);
    assert_eq!(span.subsec_nanos(), 500_000_000);
    let short = Duration::from_millis(7);
    assert_eq!(short.as_secs(), 0);
    assert_eq!(short.subsec_nanos(), 7_000_000);
}

#[test]
fn new_keeps_seconds_and_nanoseconds() {
    let span = Duration::new(3, 250).unwrap();
    assert_eq!(span.as_secs(), 3);
    assert_eq!(span.subsec_nanos(), 250);
}

#[test]
fn new_carries_full_seconds_out_of_the_nanoseconds() {
    let span = Duration::new(1, 1_500_000_000).unwrap();
    assert_eq!(span.as_secs(), 2);
    assert_eq!(span.subsec_nanos(), 500_000_000);
    assert_eq!(span, Duration::from_millis(2_500));
}

#[test]
fn new_refuses_a_span_that_is_too_long() {
    assert_eq!(Duration::new(u64::MAX, 1_000_000_000), None);
    let longest = Duration::new(u64::MAX, 999_999_999).unwrap();
    assert_eq!(longest.as_secs(), u64::MAX);
    assert_eq!(longest.subsec_nanos(), 999_999_999);
}

#[test]
fn equal_spans_are_equal() {
    assert_eq!(Duration::from_secs(2), Duration::from_millis(2_000));
    assert_ne!(Duration::from_secs(2), Duration::from_millis(2_001));
}

#[test]
fn le_orders_by_length() {
    let short = Duration::from_millis(1_999);
    let long = Duration::from_secs(2);
    assert!(short.le(&long));
    assert!(!long.le(&short));
    assert!(long.le(&long));
    assert!(Duration::new(1, 5).unwrap().le(&Duration::new(1, 6).unwrap()));
    assert!(!Duration::new(1, 6).unwrap().le(&Duration::new(1, 5).unwrap()));
    assert!(!Duration::new(2, 0).unwrap().le(&Duration::new(1, 999_999_999).unwrap()));
}

#[test]
fn checked_sub_takes_away() {
    let left = Duration::from_secs(5).checked_sub(&Duration::from_millis(1_500));
    assert_eq!(left, Some(Duration::from_millis(3_500)));
    let nothing = Duration::from_secs(5).checked_sub(&Duration::from_secs(5));
    assert_eq!(nothing, Some(Duration::from_secs(0)));
}

#[test]
fn checked_sub_borrows_a_second() {
    let a = Duration::new(3, 100).unwrap();
    let b = Duration::new(1, 200).unwrap();
    let left = a.checked_sub(&b).unwrap();
    assert_eq!(left.as_secs(), 1);
    assert_eq!(left.subsec_nanos(), 999_999_900);
}

#[test]
fn checked_sub_refuses_the_longer_span() {
    assert_eq!(Duration::from_secs(1).checked_sub(&Duration::from_secs(2)), None);
    let a = Duration::new(1, 100).unwrap();
    let b = Duration::new(1, 200).unwrap();
    assert_eq!(a.checked_sub(&b), None);
}

#[test]
fn minutes_and_seconds_of_short_spans() {
    assert_eq!(Duration::from_secs(0).string_mins_secs(), "0:00");
    assert_eq!(Duration::from_secs(1).string_mins_secs(), "0:01");
    assert_eq!(Duration::from_secs(9).string_mins_secs(), "0:09");
    assert_eq!(Duration::from_secs(10).string_mins_secs(), "0:10");
    assert_eq!(Duration::from_secs(59).string_mins_secs(), "0:59");
}

#[test]
fn minutes_and_seconds_of_longer_spans() {
    assert_eq!(Duration::from_secs(60).string_mins_secs(), "1:00");
    assert_eq!(Duration::from_secs(61).string_mins_secs(), "1:01");
    assert_eq!(Duration::from_secs(600).string_mins_secs(), "10:00");
    assert_eq!(Duration::from_secs(3_725).string_mins_secs(), "62:05");
    assert_eq!(Duration::from_secs(60 * 1_234 + 56).string_mins_secs(), "1234:56");
}

#[test]
fn minutes_and_seconds_leave_out_parts_of_a_second() {
    assert_eq!(Duration::from_millis(61_999).string_mins_secs(), "1:01");
}

#[test]
fn minutes_and_seconds_of_the_longest_span() {
    let longest = Duration::new(u64::MAX, 999_999_999).unwrap();
    assert_eq!(longest.string_mins_secs(), "307445734561825860:15");
}
