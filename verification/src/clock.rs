//! The time of day, for the stamps of progress reports.

use vstd::prelude::*;
use std::time::{Duration, SystemTime, SystemTimeError, UNIX_EPOCH};

verus! {

/// `SystemTime` of the standard library: a point in time, carried through
/// without a look inside.
#[verifier::external_type_specification]
#[verifier::external_body]
pub struct ExSystemTime(SystemTime);

/// `SystemTimeError` of the standard library: what `duration_since` fails
/// with, carried through without a look inside.
#[verifier::external_type_specification]
#[verifier::external_body]
pub struct ExSystemTimeError(SystemTimeError);

/// `SystemTime::now` of the standard library reads the clock of the machine;
/// nothing is claimed of what it reads.
pub assume_specification[ SystemTime::now ]() -> (now: SystemTime)
;

/// `SystemTime::duration_since` of the standard library gives the time that
/// passed since an earlier point, or an error; nothing is claimed of which.
pub assume_specification[ SystemTime::duration_since ](
    time: &SystemTime,
    earlier: SystemTime,
) -> (passed: Result<Duration, SystemTimeError>)
;

/// `Duration::as_secs` of the standard library gives the whole seconds of a
/// duration; nothing is claimed of their number.
pub assume_specification[ Duration::as_secs ](duration: &Duration) -> (seconds: u64)
;

/// `Duration::as_millis` of the standard library gives the whole
/// milliseconds of a duration; nothing is claimed of their number.
pub assume_specification[ Duration::as_millis ](duration: &Duration) -> (millis: u128)
;

/// The constant `UNIX_EPOCH` of the standard library.
#[verifier::external_body]
fn unix_epoch() -> (epoch: SystemTime) {
    UNIX_EPOCH
}

/// The time of day, in hours, minutes, seconds and milliseconds, of a point
/// in time given by the seconds and the milliseconds since the epoch.
pub open spec fn clock_fields(total_seconds: u64, total_millis: u128) -> (u64, u64, u64, u128) {
    (
        ((total_seconds / 3600) % 24) as u64,
        ((total_seconds / 60) % 60) as u64,
        (total_seconds % 60) as u64,
        (total_millis % 1000) as u128,
    )
}

/// Splits the seconds and the milliseconds since the epoch into the time of
/// day.
pub fn time_of_day(total_seconds: u64, total_millis: u128) -> (fields: (u64, u64, u64, u128))
    ensures
        fields == clock_fields(total_seconds, total_millis),
        fields.0 < 24,
        fields.1 < 60,
        fields.2 < 60,
        fields.3 < 1000,
{
    let hours: u64 = (total_seconds / 3600) % 24;
    let minutes: u64 = (total_seconds / 60) % 60;
    let seconds: u64 = total_seconds % 60;
    let milliseconds: u128 = total_millis % 1000;
    (hours, minutes, seconds, milliseconds)
}

/// The time of day by the clock of the machine: hours, minutes, seconds and
/// milliseconds. A clock that stands before the epoch reads as midnight.
pub fn timestamp() -> (fields: (u64, u64, u64, u128))
    ensures
        exists|total_seconds: u64, total_millis: u128|
            fields == clock_fields(total_seconds, total_millis),
        fields.0 < 24,
        fields.1 < 60,
        fields.2 < 60,
        fields.3 < 1000,
{
    let now: SystemTime = SystemTime::now();
    let (total_seconds, total_millis) = match now.duration_since(unix_epoch()) {
        Ok(passed) => (passed.as_secs(), passed.as_millis()),
        Err(_) => (0u64, 0u128),
    };
    time_of_day(total_seconds, total_millis)
}

} // verus!
