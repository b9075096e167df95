//! The wall clock, read as milliseconds since the Unix epoch.

use std::time::{Duration, SystemTimeError, UNIX_EPOCH};
use vstd::prelude::*;

verus! {

/// `std::time::SystemTimeError`: what comes of asking how long ago a time
/// was that has not come yet.
#[verifier::external_type_specification]
#[verifier::external_body]
pub struct ExSystemTimeError(SystemTimeError);

/// `SystemTime::elapsed`, asked of the Unix epoch: the time that has passed
/// since the epoch, or an error that holds by how much the clock stands
/// before it. Nothing is claimed of either: each call reads the clock anew.
#[verifier::external_body]
fn since_epoch() -> Result<Duration, SystemTimeError> {
    UNIX_EPOCH.elapsed()
}

/// `Duration::as_millis` gives the whole milliseconds of a duration.
pub assume_specification[ Duration::as_millis ](duration: &Duration) -> u128;

/// `SystemTimeError::duration` gives the distance between the two times
/// that were out of order.
pub assume_specification[ SystemTimeError::duration ](error: &SystemTimeError) -> Duration;

/// The current time in milliseconds since the Unix epoch, negative where
/// the clock stands before it, and held to the range of an `i64`.
pub fn unix_millis() -> i64 {
    match since_epoch() {
        Ok(elapsed) => signed_millis(elapsed.as_millis(), false),
        Err(early) => signed_millis(early.duration().as_millis(), true),
    }
}

/// The date that stands `millis` milliseconds behind the Unix epoch, or
/// before it: the number itself or its negative, and the nearest end of the
/// range of an `i64` where that is beyond it.
pub open spec fn spec_signed_millis(millis: u128, before: bool) -> i64 {
    if before {
        if millis <= 0x7fff_ffff_ffff_ffff {
            (-millis) as i64
        } else {
            i64::MIN
        }
    } else {
        if millis <= 0x7fff_ffff_ffff_ffff {
            millis as i64
        } else {
            i64::MAX
        }
    }
}

/// The date that stands `millis` milliseconds behind the Unix epoch, or
/// before it where `before` is set, held to the range of an `i64`.
pub fn signed_millis(millis: u128, before: bool) -> (date: i64)
    ensures
        date == spec_signed_millis(millis, before),
{
    if millis <= 0x7fff_ffff_ffff_ffff {
        if before {
            -(millis as i64)
        } else {
            millis as i64
        }
    } else if before {
        i64::MIN
    } else {
        i64::MAX
    }
}

} // verus!
