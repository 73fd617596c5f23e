//! The system clock.

use std::time::{Duration, SystemTime, SystemTimeError};
use vstd::prelude::*;

verus! {

/// A reading of the system clock.
#[verifier::external_type_specification]
#[verifier::external_body]
pub struct ExSystemTime(std::time::SystemTime);

/// The error of a reading that lies before the time it is measured from.
#[verifier::external_type_specification]
#[verifier::external_body]
pub struct ExSystemTimeError(std::time::SystemTimeError);

/// `SystemTime::now` reads the clock. Nothing is claimed of the reading: the clock may stand still
/// or go back.
pub assume_specification[ std::time::SystemTime::now ]() -> std::time::SystemTime;

/// `SystemTime::duration_since`, measured from the Unix epoch. Nothing is claimed of a reading, so
/// nothing of how far it lies from the epoch either.
#[verifier::external_body]
fn since_epoch(reading: SystemTime) -> Result<Duration, SystemTimeError> {
    reading.duration_since(std::time::UNIX_EPOCH)
}

/// `Duration::as_millis` counts the whole milliseconds of a duration. No value is claimed of them,
/// as none is of the reading that the duration comes from.
pub assume_specification[ std::time::Duration::as_millis ](duration: &std::time::Duration) -> u128;

/// The milliseconds since the Unix epoch, cut to 64 bits; 0 where the clock stands before it.
pub(crate) fn unix_timestamp_millis() -> u64 {
    match since_epoch(SystemTime::now()) {
        Ok(duration) => #[verifier::truncate] (duration.as_millis() as u64),
        Err(_) => 0,
    }
}

} // verus!
