//! The wall clock.

use vstd::prelude::*;

verus! {

/// `std::time::SystemTime`, carried from reading the clock to its seconds.
#[verifier::external_type_specification]
#[verifier::external_body]
pub struct ExSystemTime(std::time::SystemTime);

/// `std::time::SystemTimeError`: a clock that stands before 1970.
#[verifier::external_type_specification]
#[verifier::external_body]
pub struct ExSystemTimeError(std::time::SystemTimeError);

/// `std::time::SystemTime::now`. Nothing is claimed of the time it gives.
#[verifier::external_body]
fn system_time() -> (r: std::time::SystemTime) {
    std::time::SystemTime::now()
}

/// `std::time::SystemTime::duration_since`, from the start of 1970 on; an error
/// when the time is before that. A time is opaque, so nothing is claimed of how
/// long it was, or of which times give an error.
#[verifier::external_body]
fn since_epoch(time: &std::time::SystemTime) -> (r: Result<
    core::time::Duration,
    std::time::SystemTimeError,
>) {
    time.duration_since(std::time::UNIX_EPOCH)
}

/// `core::time::Duration::as_secs`: the whole seconds of a duration. A duration
/// is opaque, so nothing is claimed of how many they are.
#[verifier::external_body]
fn whole_seconds(duration: &core::time::Duration) -> (r: u64) {
    duration.as_secs()
}

/// The time as whole seconds since 1970; nothing when the clock stands before
/// that. Nothing is claimed of the time.
pub(crate) fn seconds_since_epoch() -> (r: Option<u64>) {
    match since_epoch(&system_time()) {
        Ok(duration) => Some(whole_seconds(&duration)),
        Err(_) => None,
    }
}

/// The seconds that a reading of the clock gives; zero when it gives none.
pub fn seconds_or_zero(reading: Option<u64>) -> (r: u64)
    ensures
        r == match reading {
            Some(s) => s,
            None => 0,
        },
{
    match reading {
        Some(s) => s,
        None => 0,
    }
}

/// The time in Unix seconds; zero when the clock stands before 1970. Nothing is
/// claimed of the time; [`seconds_or_zero`] says what becomes of each reading.
pub(crate) fn now_unix() -> (r: u64) {
    seconds_or_zero(seconds_since_epoch())
}

} // verus!
