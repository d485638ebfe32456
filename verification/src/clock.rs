//! Trusted access to the process clock.
//!
//! The wall clock is inherently outside the logic: nothing can be promised
//! of the values it yields, so none of the items here carries an `ensures`.
//! Verified code takes the readings as arbitrary numbers and states what
//! holds of every outcome.

use vstd::prelude::*;

verus! {

#[verifier::external_type_specification]
#[verifier::external_body]
pub struct ExSystemTime(std::time::SystemTime);

/// Relies on std::time::SystemTime::now: the current wall-clock time.
#[verifier::external_body]
pub(crate) fn system_now() -> std::time::SystemTime {
    std::time::SystemTime::now()
}

/// Relies on std::time::UNIX_EPOCH: the clock's reference point.
#[verifier::external_body]
pub(crate) fn unix_epoch() -> std::time::SystemTime {
    std::time::UNIX_EPOCH
}

/// Relies on std::time::SystemTime::duration_since: the span from
/// `earlier` to `later`, or nothing when the clock moved backwards.
#[verifier::external_body]
pub(crate) fn duration_between(
    earlier: &std::time::SystemTime,
    later: &std::time::SystemTime,
) -> Option<std::time::Duration> {
    match later.duration_since(*earlier) {
        Ok(d) => Some(d),
        Err(_) => None,
    }
}

/// Relies on std::time::Duration::as_millis; the count is truncated to
/// the low 64 bits.
#[verifier::external_body]
pub(crate) fn duration_millis(d: &std::time::Duration) -> u64 {
    d.as_millis() as u64
}

/// Relies on std::time::Duration::as_nanos; the count is truncated to
/// the low 64 bits.
#[verifier::external_body]
pub(crate) fn duration_nanos(d: &std::time::Duration) -> u64 {
    d.as_nanos() as u64
}

/// Milliseconds elapsed from `earlier` to now, zero when the clock is
/// not usable. Nothing is promised of the value: it depends on the clock.
pub fn elapsed_millis(earlier: &std::time::SystemTime) -> u64 {
    let later = system_now();
    match duration_between(earlier, &later) {
        Some(d) => duration_millis(&d),
        None => 0,
    }
}

/// Nanoseconds between the epoch and now, truncated; zero when the clock
/// is not usable. Serves only as an entropy seed.
pub fn nanos_since_epoch() -> u64 {
    let epoch = unix_epoch();
    let later = system_now();
    match duration_between(&epoch, &later) {
        Some(d) => duration_nanos(&d),
        None => 0,
    }
}

} // verus!
