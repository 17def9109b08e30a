use rustflow::utils::text::u64_to_string;
use rustflow::utils::time::{
    current_timestamp_micros, current_timestamp_millis, current_timestamp_nanos, current_timestamp_secs,
    format_timestamp_millis, format_timestamp_nanos, measure_time, timestamp_micros, timestamp_millis,
    timestamp_nanos,
};
use std::time::{Duration, Instant};

fn wait(span: Duration) {
    let start = Instant::now();
    while start.elapsed() < span {
        std::hint::spin_loop();
    }
}

#[test]
fn test_timestamp_functions() {
    let _ = current_timestamp_nanos();
    let _ = current_timestamp_micros();
    let _ = current_timestamp_millis();
    let _ = current_timestamp_secs();
}

#[test]
fn test_measure_time() {
    let (result, duration) = measure_time(|| {
        wait(Duration::from_millis(5));
        42
    });
    let duration = duration.expect("Clock went backwards");

    assert_eq!(result, 42);
    assert!(duration.as_millis() >= 5);
}

#[test]
fn clock_reads_in_agreeing_units() {
    let secs = current_timestamp_secs().unwrap();
    let millis = current_timestamp_millis().unwrap();
    let micros = current_timestamp_micros().unwrap();
    let nanos = current_timestamp_nanos().unwrap();
    assert!(secs > 1_600_000_000);
    assert!(millis / 1_000 >= secs && millis / 1_000 <= secs + 5);
    assert!(micros / 1_000 >= millis && micros / 1_000 <= millis + 5_000);
    assert!(nanos / 1_000 >= micros && nanos / 1_000 <= micros + 5_000_000);
}

#[test]
fn test_format_timestamp() {
    let timestamp_millis = 1682946896789u64;
    let formatted = format_timestamp_millis(timestamp_millis).expect("Invalid timestamp");

    assert!(formatted.len() > 20);
    assert!(formatted.contains("-"));
    assert!(formatted.contains(":"));
    assert!(formatted.contains("."));
}

#[test]
fn timestamps_are_formatted_in_utc() {
    assert_eq!(format_timestamp_millis(1682946896789).unwrap(), "2023-05-01 13:14:56.789000000");
    assert_eq!(format_timestamp_nanos(1682946896789000001).unwrap(), "2023-05-01 13:14:56.789000001");
    assert_eq!(format_timestamp_nanos(0).unwrap(), "1970-01-01 00:00:00.000000000");
    assert_eq!(format_timestamp_millis(999).unwrap(), "1970-01-01 00:00:00.999000000");
    assert_eq!(format_timestamp_nanos(u64::MAX).unwrap(), "2554-07-21 23:34:33.709551615");
}

#[test]
fn timestamp_beyond_the_calendar_has_no_text() {
    assert_eq!(format_timestamp_millis(u64::MAX), None);
}

#[test]
fn spans_are_counted_in_whole_units() {
    assert_eq!(timestamp_nanos(1, 5), 1_000_000_005);
    assert_eq!(timestamp_micros(1, 5_999), 1_000_005);
    assert_eq!(timestamp_millis(1, 5_999_999), 1_005);
    assert_eq!(timestamp_nanos(0, 0), 0);
    assert_eq!(timestamp_nanos(18_446_744_073, 709_551_615), u64::MAX);
    assert_eq!(timestamp_nanos(18_446_744_073, 709_551_616), 0);
    assert_eq!(timestamp_millis(u64::MAX, 999_999_999), ((u64::MAX as u128 * 1000 + 999) % (1u128 << 64)) as u64);
}

#[test]
fn numbers_are_written_in_decimal() {
    assert_eq!(u64_to_string(0), "0");
    assert_eq!(u64_to_string(7), "7");
    assert_eq!(u64_to_string(10), "10");
    assert_eq!(u64_to_string(1234567890), "1234567890");
    assert_eq!(u64_to_string(u64::MAX), "18446744073709551615");
}
