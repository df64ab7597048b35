//! The system clock, and the timestamps that requests carry.

use crate::calendar::{format_unix_timestamp_utc, timestamp_text};
use crate::error::ToolError;
use std::time::{Duration, SystemTime, SystemTimeError, UNIX_EPOCH};
use vstd::prelude::*;

verus! {

/// `std::time::SystemTime`, a reading of the system clock.
#[verifier::external_type_specification]
#[verifier::external_body]
pub struct ExSystemTime(std::time::SystemTime);

/// `SystemTime::now` reads the clock. Nothing is claimed of what it reads.
pub assume_specification[ std::time::SystemTime::now ]() -> std::time::SystemTime
;

/// The time from 1970-01-01T00:00:00Z to a reading of the clock, or the error of
/// a reading before it.
pub uninterp spec fn since_epoch(now: std::time::SystemTime) -> Result<Duration, SystemTimeError>;

/// `SystemTime::duration_since`, from `UNIX_EPOCH`. What comes rests on the
/// reading alone.
#[verifier::external_body]
fn elapsed_since_epoch(now: SystemTime) -> (elapsed: Result<Duration, SystemTimeError>)
    ensures
        elapsed == since_epoch(now),
{
    now.duration_since(UNIX_EPOCH)
}

/// The whole seconds of a length of time.
pub uninterp spec fn whole_seconds(length: std::time::Duration) -> u64;

/// `Duration::as_secs` gives the whole seconds of a length of time.
pub assume_specification[ std::time::Duration::as_secs ](length: &std::time::Duration) -> (seconds:
    u64)
    ensures
        seconds == whole_seconds(*length),
;

/// The timestamp of a reading of the clock, or the error of a reading before
/// 1970.
pub open spec fn reading_timestamp(now: SystemTime) -> Result<Seq<char>, SystemTimeError> {
    match since_epoch(now) {
        Ok(elapsed) => Ok(timestamp_text(whole_seconds(elapsed) as nat)),
        Err(cause) => Err(cause),
    }
}

/// The timestamp of a second, or the error of a clock that stands before 1970.
pub fn timestamp_of_seconds(seconds: Result<u64, SystemTimeError>) -> (timestamp: Result<
    String,
    ToolError,
>)
    ensures
        match seconds {
            Ok(s) => timestamp matches Ok(text) && text@ == timestamp_text(s as nat),
            Err(cause) => timestamp == Err::<String, ToolError>(ToolError::ClockBeforeEpoch(cause)),
        },
{
    match seconds {
        Ok(s) => Ok(format_unix_timestamp_utc(s)),
        Err(cause) => Err(ToolError::ClockBeforeEpoch(cause)),
    }
}

/// The timestamp of a reading of the clock.
pub fn aliyun_timestamp(now: SystemTime) -> (timestamp: Result<String, ToolError>)
    ensures
        match reading_timestamp(now) {
            Ok(t) => timestamp matches Ok(text) && text@ == t,
            Err(cause) => timestamp == Err::<String, ToolError>(ToolError::ClockBeforeEpoch(cause)),
        },
        match since_epoch(now) {
            Ok(elapsed) => timestamp matches Ok(text) && text@ == timestamp_text(
                whole_seconds(elapsed) as nat,
            ),
            Err(cause) => timestamp == Err::<String, ToolError>(ToolError::ClockBeforeEpoch(cause)),
        },
{
    match elapsed_since_epoch(now) {
        Ok(elapsed) => timestamp_of_seconds(Ok(elapsed.as_secs())),
        Err(cause) => timestamp_of_seconds(Err(cause)),
    }
}

} // verus!
