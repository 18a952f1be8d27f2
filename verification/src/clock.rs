//! The wall clock, read in whole milliseconds since the Unix epoch.

use std::time::Duration;
use std::time::SystemTime;
use std::time::SystemTimeError;
use std::time::UNIX_EPOCH;
use vstd::prelude::*;

verus! {

/// `std::time::SystemTime`, a point in time as the system clock tells it.
#[verifier::external_type_specification]
#[verifier::external_body]
pub struct ExSystemTime(std::time::SystemTime);

/// `std::time::SystemTimeError`, which `SystemTime::duration_since` returns
/// for a point in time that lies before the one it is compared with.
#[verifier::external_type_specification]
#[verifier::external_body]
pub struct ExSystemTimeError(std::time::SystemTimeError);

/// `SystemTime::now`: the current time of the system clock. Nothing is
/// known of the time it returns.
#[verifier::external_body]
fn system_now() -> SystemTime {
    SystemTime::now()
}

/// `SystemTime::duration_since`, with the Unix epoch as the earlier time:
/// the time that has passed since the epoch, or an error where `time` lies
/// before it. Nothing is claimed of the duration.
#[verifier::external_body]
fn since_epoch(time: &SystemTime) -> Result<Duration, SystemTimeError> {
    time.duration_since(UNIX_EPOCH)
}

/// `Duration::as_millis`: the whole milliseconds that a duration holds.
/// Nothing is claimed of their number.
#[verifier::external_body]
fn whole_millis(duration: &Duration) -> u128 {
    duration.as_millis()
}

/// A number of milliseconds as a number of 64 bits, where it fits.
pub open spec fn narrowed(millis: u128) -> Option<u64> {
    if millis <= u64::MAX {
        Some(millis as u64)
    } else {
        None
    }
}

/// Takes the milliseconds that a clock has counted as a number of 64 bits,
/// where they fit.
pub fn narrow(millis: u128) -> (r: Option<u64>)
    ensures
        r == narrowed(millis),
{
    if millis <= u64::MAX as u128 {
        Some(millis as u64)
    } else {
        None
    }
}

/// The milliseconds that have passed since the Unix epoch, or `None` where
/// the clock stands before the epoch or so far after it that their number
/// does not fit in 64 bits.
///
/// Nothing is known of the time that the clock tells: the result is what
/// `narrow` makes of it, whatever it is.
pub(crate) fn now_millis() -> Option<u64> {
    let now = system_now();
    match since_epoch(&now) {
        Ok(passed) => narrow(whole_millis(&passed)),
        Err(_) => None,
    }
}

} // verus!
