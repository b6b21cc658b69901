//! Unix timestamps of system times, and back.
use vstd::prelude::*;

use std::io::Error;
use std::time::{Duration, SystemTime, UNIX_EPOCH};

use super::io::{invalid_timestamp_error, io_error_kind, IoErrorKind};

verus! {

#[verifier::external_type_specification]
#[verifier::external_body]
pub struct ExSystemTime(SystemTime);

/// The offset of a time from the Unix epoch in whole seconds: `Ok` for a
/// time at or after the epoch, `Err` for one before it.
pub uninterp spec fn epoch_offset(time: SystemTime) -> Result<u64, u64>;

/// The offset of a time `secs` whole seconds after the epoch.
pub open spec fn seconds_after(secs: u64) -> Result<u64, u64> {
    Ok(secs)
}

/// The offset of a time `secs` whole seconds before the epoch.
pub open spec fn seconds_before(secs: u64) -> Result<u64, u64> {
    Err(secs)
}

/// The offset of a time from the Unix epoch in whole seconds.
///
/// Trusted: calls `SystemTime::duration_since(UNIX_EPOCH)` and takes the
/// whole seconds (`Duration::as_secs`) of the span after the epoch, or of
/// the span before it that the error reports (`SystemTimeError::duration`).
/// The result is named `epoch_offset` of the time.
#[verifier::external_body]
fn epoch_offset_of(time: &SystemTime) -> (offset: Result<u64, u64>)
    ensures
        offset == epoch_offset(*time),
{
    match time.duration_since(UNIX_EPOCH) {
        Ok(duration) => Ok(duration.as_secs()),
        Err(error) => Err(error.duration().as_secs()),
    }
}

/// The time `secs` whole seconds after the epoch, when the platform can
/// represent it.
///
/// Trusted: calls `UNIX_EPOCH.checked_add` with `Duration::from_secs(secs)`.
/// A time it returns lies exactly `secs` seconds after the epoch, so its
/// offset from the epoch is `Ok(secs)`.
#[verifier::external_body]
fn epoch_after(secs: u64) -> (found: Option<SystemTime>)
    ensures
        found is Some ==> epoch_offset(found.unwrap()) == seconds_after(secs),
{
    UNIX_EPOCH.checked_add(Duration::from_secs(secs))
}

/// The time `secs` whole seconds before the epoch, when the platform can
/// represent it.
///
/// Trusted: calls `UNIX_EPOCH.checked_sub` with `Duration::from_secs(secs)`.
/// A time it returns lies exactly `secs` seconds (at least one) before the
/// epoch, so its offset from the epoch is `Err(secs)`.
#[verifier::external_body]
fn epoch_before(secs: u64) -> (found: Option<SystemTime>)
    requires
        secs > 0,
    ensures
        found is Some ==> epoch_offset(found.unwrap()) == seconds_before(secs),
{
    UNIX_EPOCH.checked_sub(Duration::from_secs(secs))
}

/// The Unix timestamp given by a time's whole seconds after the epoch
/// (`Ok`) or before it (`Err`), the conversions to `i64` wrapping.
pub open spec fn timestamp_of_offset(offset: Result<u64, u64>) -> i64 {
    match offset {
        Ok(secs) => secs as i64,
        Err(secs) => (0i64).wrapping_sub(secs as i64),
    }
}

/// The offset from the epoch that a Unix timestamp stands for.
pub open spec fn offset_of_timestamp(time: i64) -> Result<u64, u64> {
    if time >= 0 {
        Ok(time as u64)
    } else {
        Err((-time) as u64)
    }
}

/// The Unix timestamp given by a time's whole seconds after the epoch
/// (`Ok`) or before it (`Err`).
pub fn unix_timestamp_of_offset(offset: Result<u64, u64>) -> (timestamp: i64)
    ensures
        timestamp == timestamp_of_offset(offset),
{
    match offset {
        Ok(secs) => secs as i64,
        Err(secs) => (0i64).wrapping_sub(secs as i64),
    }
}

/// The Unix timestamp of a time in whole seconds, rounded toward the epoch
/// (negative before it).
pub fn as_unix_timestamp(time: SystemTime) -> (timestamp: i64)
    ensures
        timestamp == timestamp_of_offset(epoch_offset(time)),
{
    unix_timestamp_of_offset(epoch_offset_of(&time))
}

/// What a Unix timestamp asks of the platform's clock: `None` for
/// `i64::MIN`, whose distance from the epoch does not fit the arithmetic of
/// timestamps, else the whole seconds after (`Ok`) or before (`Err`) the
/// epoch at which the time lies.
pub fn epoch_request(time: i64) -> (request: Option<Result<u64, u64>>)
    ensures
        request == (if time == i64::MIN {
            None::<Result<u64, u64>>
        } else {
            Some(offset_of_timestamp(time))
        }),
{
    if time == i64::MIN {
        None
    } else if time < 0 {
        Some(Err((-time) as u64))
    } else {
        Some(Ok(time as u64))
    }
}

/// The answer to a timestamp's request: the time the platform found, or an
/// `InvalidInput` error naming the timestamp where it found none.
pub fn time_or_invalid(time: i64, found: Option<SystemTime>) -> (res: Result<SystemTime, Error>)
    ensures
        found matches Some(t) ==> (res matches Ok(u) && u == t),
        found is None ==> (res matches Err(e) && io_error_kind(e) == IoErrorKind::InvalidInput),
{
    match found {
        Some(t) => Ok(t),
        None => Err(invalid_timestamp_error(time)),
    }
}

/// The system time of a Unix timestamp, or an `InvalidInput` error where the
/// platform's system time cannot represent it (`i64::MIN` among them).
///
/// The seconds asked of the platform are those of `epoch_request`; the
/// time it returns, if any, is handed on as by `time_or_invalid`.
pub fn system_time_from_unix_timestamp(time: i64) -> (res: Result<SystemTime, Error>)
    ensures
        time == i64::MIN ==> res is Err,
        res matches Ok(t) ==> time != i64::MIN && epoch_offset(t) == offset_of_timestamp(time),
        res matches Err(e) ==> io_error_kind(e) == IoErrorKind::InvalidInput,
{
    let found = match epoch_request(time) {
        None => None,
        Some(Ok(secs)) => epoch_after(secs),
        Some(Err(secs)) => epoch_before(secs),
    };
    time_or_invalid(time, found)
}

/// Round trip of timestamps: a timestamp other than `i64::MIN` is the
/// timestamp of the offset it stands for, so the time that
/// `system_time_from_unix_timestamp` gives has that timestamp again.
pub proof fn lemma_timestamp_round_trip(time: i64)
    requires
        time != i64::MIN,
    ensures
        timestamp_of_offset(offset_of_timestamp(time)) == time,
{
}

} // verus!
