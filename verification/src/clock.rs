//! The wall clock, read as whole seconds since the Unix epoch.
//!
//! The records store their timestamps as `i64` seconds. Reading the clock is
//! the one thing in this crate whose result is not a function of its
//! arguments, so nothing is promised about the value read beyond its sign.

use vstd::prelude::*;
use std::time::{Duration, SystemTime, SystemTimeError, UNIX_EPOCH};

verus! {

/// `std::time::SystemTime`, carried from the clock to the subtraction.
#[verifier::external_type_specification]
#[verifier::external_body]
pub struct ExSystemTime(SystemTime);

/// `std::time::SystemTimeError`, the error of a clock that stands before the
/// epoch.
#[verifier::external_type_specification]
#[verifier::external_body]
pub struct ExSystemTimeError(SystemTimeError);

/// `SystemTime::now`: the current reading of the system clock. Nothing is
/// claimed about the reading.
pub assume_specification[ SystemTime::now ]() -> (now: SystemTime)
;

/// `Duration::as_secs`: the whole seconds of a duration. Nothing is claimed
/// about the number.
pub assume_specification[ Duration::as_secs ](duration: &Duration) -> (secs: u64)
;

/// `SystemTime::duration_since` with `UNIX_EPOCH` as the earlier instant: the
/// time elapsed since the epoch, or an error when `instant` lies before it.
/// Nothing is claimed about which of the two comes back.
#[verifier::external_body]
fn duration_since_epoch(instant: &SystemTime) -> (elapsed: Result<Duration, SystemTimeError>) {
    instant.duration_since(UNIX_EPOCH)
}

/// The timestamp for a clock that shows `secs` whole seconds since the epoch:
/// `secs` itself, or `i64::MAX` where `secs` does not fit.
pub fn timestamp_from_secs(secs: u64) -> (t: i64)
    ensures
        secs <= i64::MAX ==> t == secs,
        secs > i64::MAX ==> t == i64::MAX,
{
    if secs <= i64::MAX as u64 {
        secs as i64
    } else {
        i64::MAX
    }
}

/// The current time in whole seconds since the Unix epoch. A clock that
/// stands before the epoch reads as 0.
pub fn current_time() -> (t: i64)
    ensures
        t >= 0,
{
    let now = SystemTime::now();
    let reading = match duration_since_epoch(&now) {
        Ok(elapsed) => Some(elapsed.as_secs()),
        Err(_) => None,
    };
    timestamp_from_reading(reading)
}

/// The timestamp that a reading of the clock stands for. A reading is the
/// number of whole seconds since the epoch, or nothing when the clock stands
/// before the epoch: such a clock reads as 0, and seconds that do not fit
/// read as `i64::MAX`.
pub open spec fn timestamp_of(reading: Option<u64>) -> i64 {
    match reading {
        Some(secs) => if secs <= i64::MAX {
            secs as i64
        } else {
            i64::MAX
        },
        None => 0,
    }
}

/// The timestamp for a reading of the clock: the seconds read, `i64::MAX`
/// where they do not fit, and 0 where the clock stands before the epoch.
pub fn timestamp_from_reading(reading: Option<u64>) -> (t: i64)
    ensures
        t == timestamp_of(reading),
{
    match reading {
        Some(secs) => timestamp_from_secs(secs),
        None => 0,
    }
}

} // verus!
