//! The wall clock, in the units the service keeps times in.
use vstd::prelude::*;

verus! {

#[verifier::external_type_specification]
#[verifier::external_body]
pub struct ExSystemTime(std::time::SystemTime);

/// `SystemTime::now`: the wall clock. Nothing is stated of it: it is the time.
#[verifier::external_body]
fn system_now() -> std::time::SystemTime {
    std::time::SystemTime::now()
}

/// `SystemTime::duration_since(UNIX_EPOCH)`: how long after the Unix epoch the
/// time is; none where it is before the epoch (the call's error).
#[verifier::external_body]
fn since_epoch(t: &std::time::SystemTime) -> Option<core::time::Duration> {
    match t.duration_since(std::time::UNIX_EPOCH) {
        Ok(d) => Some(d),
        Err(_) => None,
    }
}

/// `Duration::as_millis`: the whole milliseconds of a span.
#[verifier::external_body]
fn duration_millis(d: &core::time::Duration) -> u128 {
    d.as_millis()
}

/// `Duration::as_secs`: the whole seconds of a span.
#[verifier::external_body]
fn duration_secs(d: &core::time::Duration) -> u64 {
    d.as_secs()
}

/// Milliseconds since the Unix epoch by the wall clock; none where the clock
/// reads before the epoch.
fn epoch_millis() -> Option<u128> {
    match since_epoch(&system_now()) {
        Some(d) => Some(duration_millis(&d)),
        None => None,
    }
}

/// Whole seconds since the Unix epoch by the wall clock; none where the clock
/// reads before the epoch.
fn epoch_seconds() -> Option<u64> {
    match since_epoch(&system_now()) {
        Some(d) => Some(duration_secs(&d)),
        None => None,
    }
}

/// A clock reading in milliseconds, cut to 64 bits; a reading before the
/// epoch counts as 0.
pub fn millis_to_u64(reading: Option<u128>) -> (r: u64)
    ensures
        r == match reading {
            Some(ms) => ms as u64,
            None => 0u64,
        },
{
    match reading {
        Some(ms) => #[verifier::truncate] (ms as u64),
        None => 0,
    }
}

/// A clock reading in milliseconds, cut to a signed 64-bit value; a reading
/// before the epoch counts as 0.
pub fn millis_to_i64(reading: Option<u128>) -> (r: i64)
    ensures
        r == match reading {
            Some(ms) => ms as i64,
            None => 0i64,
        },
{
    match reading {
        Some(ms) => #[verifier::truncate] (ms as i64),
        None => 0,
    }
}

/// A clock reading in seconds, cut to a signed 32-bit value; a reading before
/// the epoch counts as 0.
pub fn seconds_to_i32(reading: Option<u64>) -> (r: i32)
    ensures
        r == match reading {
            Some(s) => s as i32,
            None => 0i32,
        },
{
    match reading {
        Some(s) => #[verifier::truncate] (s as i32),
        None => 0,
    }
}

/// A clock reading in seconds, cut to an unsigned 32-bit value; a reading
/// before the epoch counts as 0.
pub fn seconds_to_u32(reading: Option<u64>) -> (r: u32)
    ensures
        r == match reading {
            Some(s) => s as u32,
            None => 0u32,
        },
{
    match reading {
        Some(s) => #[verifier::truncate] (s as u32),
        None => 0,
    }
}

/// The current time in milliseconds, cut to 64 bits (`millis_to_u64` of the clock).
pub fn now_millis() -> u64 {
    millis_to_u64(epoch_millis())
}

/// The current time in milliseconds, cut to a signed 64-bit value (`millis_to_i64` of the clock).
pub fn now_millis_i64() -> i64 {
    millis_to_i64(epoch_millis())
}

/// The current time in seconds, cut to a signed 32-bit value (`seconds_to_i32` of the clock).
pub fn now_second_i32() -> i32 {
    seconds_to_i32(epoch_seconds())
}

/// The current time in seconds, cut to an unsigned 32-bit value (`seconds_to_u32` of the clock).
pub fn now_second_u32() -> u32 {
    seconds_to_u32(epoch_seconds())
}

/// The pattern timestamps are printed with: date, time to the millisecond, and
/// the offset from UTC, as in `2023-11-15T06:13:20.000+08:00`.
pub open spec fn timestamp_pattern() -> Seq<char> {
    "%Y-%m-%dT%H:%M:%S%.3f%:z"@
}

/// The text chrono's `format` prints with `pattern` for the time `millis`
/// milliseconds after the Unix epoch, seen `offset_secs` seconds east of UTC.
pub uninterp spec fn time_text(millis: i64, offset_secs: i32, pattern: Seq<char>) -> Seq<char>;

/// Makes the offset with `chrono::FixedOffset::east_opt`, the time with
/// `DateTime::<Utc>::from_timestamp_millis`, and prints it there with `format`.
/// Claimed: the text depends on the arguments alone (named `time_text`); nothing
/// comes back for an offset of a day or more (`east_opt` refuses it); a text comes
/// back for a valid offset and a time from the epoch up to 2^50 ms (far inside
/// chrono's range of years). How chrono prints is not stated here.
#[verifier::external_body]
fn format_time(millis: i64, offset_secs: i32, pattern: &str) -> (r: Option<String>)
    requires
        pattern@ == timestamp_pattern(),
    ensures
        r matches Some(t) ==> t@ == time_text(millis, offset_secs, pattern@),
        !(-86400 < offset_secs < 86400) ==> r is None,
        -86400 < offset_secs < 86400 && 0 <= millis < 0x4_0000_0000_0000 ==> r is Some,
{
    let offset = chrono::FixedOffset::east_opt(offset_secs)?;
    let time = chrono::DateTime::<chrono::Utc>::from_timestamp_millis(millis)?;
    Some(time.with_timezone(&offset).format(pattern).to_string())
}

/// The time `millis` (milliseconds since the epoch) printed with
/// `timestamp_pattern` as seen `offset_secs` seconds east of UTC; empty where
/// chrono cannot place it.
pub fn timestamp_str_at(millis: i64, offset_secs: i32) -> (r: String)
    ensures
        r@ == time_text(millis, offset_secs, timestamp_pattern()) || r@.len() == 0,
        -86400 < offset_secs < 86400 && 0 <= millis < 0x4_0000_0000_0000 ==> r@ == time_text(
            millis,
            offset_secs,
            timestamp_pattern(),
        ),
        !(-86400 < offset_secs < 86400) ==> r@.len() == 0,
{
    match format_time(millis, offset_secs, "%Y-%m-%dT%H:%M:%S%.3f%:z") {
        Some(t) => t,
        None => String::new(),
    }
}

/// The current time printed with `timestamp_pattern` as seen `offset_secs`
/// seconds east of UTC (`timestamp_str_at` of the clock).
pub fn get_now_timestamp_str(offset_secs: i32) -> (r: String)
    requires
        -86400 < offset_secs < 86400,
    ensures
        r@.len() == 0 || exists|m: i64| r@ == #[trigger] time_text(m, offset_secs, timestamp_pattern()),
{
    let m = now_millis_i64();
    let r = timestamp_str_at(m, offset_secs);
    proof {
        if r@.len() != 0 {
            assert(r@ == time_text(m, offset_secs, timestamp_pattern()));
        }
    }
    r
}

} // verus!
