//! Wall-clock time, as the capture path stamps it on incoming messages.

use std::time::{Duration, SystemTime, SystemTimeError};
use vstd::prelude::*;

verus! {

/// `std::time::SystemTime`, a reading of the system clock. Nothing is known
/// of what a value holds.
#[verifier::external_type_specification]
#[verifier::external_body]
pub struct ExSystemTime(std::time::SystemTime);

/// `std::time::SystemTimeError`, returned when a reading lies before the one
/// it is measured from. Nothing is known of what a value holds.
#[verifier::external_type_specification]
#[verifier::external_body]
pub struct ExSystemTimeError(std::time::SystemTimeError);

/// `SystemTime::now` reads the system clock. Nothing is claimed of the
/// reading.
pub assume_specification[ SystemTime::now ]() -> (now: SystemTime)
;

/// `SystemTime::duration_since` measures from `earlier` to `this`, and fails
/// if `earlier` is the later of the two. Nothing is claimed of which it is.
pub assume_specification[ SystemTime::duration_since ](
    this: &SystemTime,
    earlier: SystemTime,
) -> (elapsed: Result<Duration, SystemTimeError>)
;

/// The most milliseconds that a `Duration` can hold: `u64::MAX` whole seconds
/// and 999 more.
pub const MILLIS_MAX: u128 = 18_446_744_073_709_551_615_999;

/// `Duration::as_millis` gives a duration in whole milliseconds. A duration
/// is a count of whole seconds that fits a `u64` and a fraction below one
/// second, so the number is at most [`MILLIS_MAX`]. No more is claimed of it.
pub assume_specification[ Duration::as_millis ](duration: &Duration) -> (millis: u128)
    ensures
        millis <= MILLIS_MAX,
;

/// `std::time::UNIX_EPOCH`, the instant that wall-clock time is counted from.
#[verifier::external_body]
fn unix_epoch() -> (epoch: SystemTime) {
    std::time::UNIX_EPOCH
}

/// What the clock reads, in milliseconds: the time by which it stands after
/// the Unix epoch, or 0 where it stands before it.
pub open spec fn reading_of(elapsed: Option<u128>) -> u128 {
    match elapsed {
        Some(millis) => millis,
        None => 0,
    }
}

/// The reading of a clock that stands `elapsed` milliseconds after the Unix
/// epoch, or before the epoch where `elapsed` is `None`.
pub fn millis_after_epoch(elapsed: Option<u128>) -> (millis: u128)
    ensures
        millis == reading_of(elapsed),
{
    match elapsed {
        Some(millis) => millis,
        None => 0,
    }
}

/// The time by which the system clock stands after the Unix epoch, in
/// milliseconds, or `None` where it is set before the epoch.
pub fn checked_time_millis() -> (elapsed: Option<u128>)
    ensures
        elapsed matches Some(millis) ==> millis <= MILLIS_MAX,
{
    match SystemTime::now().duration_since(unix_epoch()) {
        Ok(elapsed) => Some(elapsed.as_millis()),
        Err(_) => None,
    }
}

/// Current wall-clock time in milliseconds since the Unix epoch. A clock set
/// before the epoch reads as 0; [`checked_time_millis`] tells the two apart.
pub fn current_time_millis() -> (millis: u128)
    ensures
        millis <= MILLIS_MAX,
{
    millis_after_epoch(checked_time_millis())
}

} // verus!
