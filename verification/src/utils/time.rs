//! The clock, spans of time in whole units, and timestamps as text.

use std::time::{Duration, SystemTime};
use vstd::prelude::*;

verus! {

/// The type of a reading of the system clock, `std::time::SystemTime`.
/// Nothing of what it holds is known here.
#[verifier::external_type_specification]
#[verifier::external_body]
pub struct ExSystemTime(SystemTime);

/// Calls `SystemTime::now`, which reads the system clock. The reading
/// depends on the moment of the call: nothing is promised of it.
#[verifier::external_body]
fn read_clock() -> (now: SystemTime) {
    SystemTime::now()
}

/// Calls `SystemTime::duration_since` with `UNIX_EPOCH`: the span from the
/// start of 1970 to `moment`, and `None` where `moment` is before that.
/// Nothing is promised of the span.
#[verifier::external_body]
fn span_since_epoch(moment: &SystemTime) -> (span: Option<Duration>) {
    match moment.duration_since(std::time::UNIX_EPOCH) {
        Ok(span) => Some(span),
        Err(_) => None,
    }
}

/// Calls `SystemTime::elapsed`: the span from `moment` to now, and `None`
/// where the clock now reads earlier than `moment`. Nothing is promised of
/// the span.
#[verifier::external_body]
fn span_since(moment: &SystemTime) -> (span: Option<Duration>) {
    match moment.elapsed() {
        Ok(span) => Some(span),
        Err(_) => None,
    }
}

/// `Duration::as_secs` gives the whole seconds of a span. Nothing is
/// claimed of them.
pub assume_specification[ Duration::as_secs ](span: &Duration) -> (secs: u64)
;

/// `Duration::subsec_nanos` gives the part of a span beyond its whole
/// seconds in nanoseconds: as documented, less than one billion.
pub assume_specification[ Duration::subsec_nanos ](span: &Duration) -> (nanos: u32)
    ensures
        nanos < 1_000_000_000,
;

/// The time of the system clock in nanoseconds since the start of 1970,
/// reduced to 64 bits. `None` where the clock reads a time before that.
pub fn current_timestamp_nanos() -> (now: Option<u64>) {
    let moment = read_clock();
    match span_since_epoch(&moment) {
        Some(span) => Some(timestamp_nanos(span.as_secs(), span.subsec_nanos())),
        None => None,
    }
}

/// The time of the system clock in microseconds since the start of 1970.
/// `None` where the clock reads a time before that.
pub fn current_timestamp_micros() -> (now: Option<u64>) {
    let moment = read_clock();
    match span_since_epoch(&moment) {
        Some(span) => Some(timestamp_micros(span.as_secs(), span.subsec_nanos())),
        None => None,
    }
}

/// The time of the system clock in milliseconds since the start of 1970.
/// `None` where the clock reads a time before that.
pub fn current_timestamp_millis() -> (now: Option<u64>) {
    let moment = read_clock();
    match span_since_epoch(&moment) {
        Some(span) => Some(timestamp_millis(span.as_secs(), span.subsec_nanos())),
        None => None,
    }
}

/// The time of the system clock in seconds since the start of 1970.
/// `None` where the clock reads a time before that.
pub fn current_timestamp_secs() -> (now: Option<u64>) {
    let moment = read_clock();
    match span_since_epoch(&moment) {
        Some(span) => Some(span.as_secs()),
        None => None,
    }
}

/// Runs `f` and returns what it returned with the time that it took by the
/// system clock; no time where the clock went backwards meanwhile.
pub fn measure_time<F, T>(f: F) -> (timed: (T, Option<Duration>))
    where
        F: FnOnce() -> T,
    requires
        f.requires(()),
    ensures
        f.ensures((), timed.0),
{
    let start = read_clock();
    let result = f();
    let elapsed = span_since(&start);
    (result, elapsed)
}

/// The whole nanoseconds in a span of `secs` seconds and `subsec_nanos`
/// nanoseconds, reduced to 64 bits.
pub fn timestamp_nanos(secs: u64, subsec_nanos: u32) -> (nanos: u64)
    ensures
        nanos == (secs * 1_000_000_000 + subsec_nanos) % 0x1_0000_0000_0000_0000,
{
    let whole: u128 = (secs as u128) * 1_000_000_000 + (subsec_nanos as u128);
    assert((#[verifier::truncate] (whole as u64)) == whole % 0x1_0000_0000_0000_0000u128)
        by (bit_vector);
    #[verifier::truncate]
    (whole as u64)
}

/// The whole microseconds in a span of `secs` seconds and `subsec_nanos`
/// nanoseconds, reduced to 64 bits.
pub fn timestamp_micros(secs: u64, subsec_nanos: u32) -> (micros: u64)
    ensures
        micros == (secs * 1_000_000 + subsec_nanos / 1_000) % 0x1_0000_0000_0000_0000,
{
    let whole: u128 = (secs as u128) * 1_000_000 + ((subsec_nanos / 1_000) as u128);
    assert((#[verifier::truncate] (whole as u64)) == whole % 0x1_0000_0000_0000_0000u128)
        by (bit_vector);
    #[verifier::truncate]
    (whole as u64)
}

/// The whole milliseconds in a span of `secs` seconds and `subsec_nanos`
/// nanoseconds, reduced to 64 bits.
pub fn timestamp_millis(secs: u64, subsec_nanos: u32) -> (millis: u64)
    ensures
        millis == (secs * 1_000 + subsec_nanos / 1_000_000) % 0x1_0000_0000_0000_0000,
{
    let whole: u128 = (secs as u128) * 1_000 + ((subsec_nanos / 1_000_000) as u128);
    assert((#[verifier::truncate] (whole as u64)) == whole % 0x1_0000_0000_0000_0000u128)
        by (bit_vector);
    #[verifier::truncate]
    (whole as u64)
}

/// The text that chrono makes of the moment `secs` seconds and `nsecs`
/// nanoseconds after the start of 1970 in UTC, in the layout
/// `%Y-%m-%d %H:%M:%S.%f`; `None` where chrono has no such moment.
pub uninterp spec fn utc_text(secs: int, nsecs: int) -> Option<Seq<char>>;

/// Calls `chrono::DateTime::from_timestamp` and, on the moment that it
/// gives, `DateTime::format` with the layout `%Y-%m-%d %H:%M:%S.%f`,
/// then turns what that gives into a `String`. Both are functions of their
/// arguments alone and neither panics with this layout; the contract gives
/// their result the name [`utc_text`] and says nothing else of it.
#[verifier::external_body]
fn format_utc(secs: i64, nsecs: u32) -> (text: Option<String>)
    ensures
        match text {
            Some(t) => utc_text(secs as int, nsecs as int) == Some(t@),
            None => utc_text(secs as int, nsecs as int) is None,
        },
{
    match chrono::DateTime::from_timestamp(secs, nsecs) {
        Some(moment) => Some(moment.format("%Y-%m-%d %H:%M:%S.%f").to_string()),
        None => None,
    }
}

/// The date and time in UTC of a timestamp in nanoseconds since the start
/// of 1970, with nine decimals of the second.
pub fn format_timestamp_nanos(timestamp: u64) -> (text: Option<String>)
    ensures
        match text {
            Some(t) => utc_text(timestamp as int / 1_000_000_000, timestamp as int % 1_000_000_000)
                == Some(t@),
            None => utc_text(timestamp as int / 1_000_000_000, timestamp as int % 1_000_000_000)
                is None,
        },
{
    let secs = (timestamp / 1_000_000_000) as i64;
    let nsecs = (timestamp % 1_000_000_000) as u32;
    format_utc(secs, nsecs)
}

/// The date and time in UTC of a timestamp in milliseconds since the start
/// of 1970, with nine decimals of the second.
pub fn format_timestamp_millis(timestamp: u64) -> (text: Option<String>)
    ensures
        match text {
            Some(t) => utc_text(timestamp as int / 1_000, (timestamp as int % 1_000) * 1_000_000)
                == Some(t@),
            None => utc_text(timestamp as int / 1_000, (timestamp as int % 1_000) * 1_000_000)
                is None,
        },
{
    let secs = (timestamp / 1_000) as i64;
    let nsecs = ((timestamp % 1_000) * 1_000_000) as u32;
    format_utc(secs, nsecs)
}

} // verus!
