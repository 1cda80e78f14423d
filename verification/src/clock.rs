//! Trusted declarations for the standard library's clock types.
//!
//! The search engine's only time-awareness is a deadline computed once at
//! entry and polled periodically. Nothing can be promised about a clock
//! reading, so the wrappers below carry no `ensures`: the verified code
//! states what holds of every outcome of a poll.

use vstd::prelude::*;

verus! {

#[verifier::external_type_specification]
#[verifier::external_body]
pub struct ExInstant(std::time::Instant);

#[verifier::external_type_specification]
#[verifier::external_body]
pub struct ExSystemTime(std::time::SystemTime);

/// Relies on std::time::Instant::now: an opaque reading of the monotonic
/// clock; nothing is promised of its value.
#[verifier::external_body]
pub(crate) fn instant_now() -> std::time::Instant {
    std::time::Instant::now()
}

/// Relies on std::time::Instant::checked_add: `None` when the sum would
/// overflow the clock's range; nothing is promised of the value.
#[verifier::external_body]
pub(crate) fn instant_checked_add(
    t: &std::time::Instant,
    d: &core::time::Duration,
) -> Option<std::time::Instant> {
    t.checked_add(*d)
}

/// Relies on Instant's `PartialOrd`: whether `a` is at or past `b`; nothing
/// is promised of the answer.
#[verifier::external_body]
pub(crate) fn instant_ge(a: &std::time::Instant, b: &std::time::Instant) -> bool {
    *a >= *b
}

/// Relies on std::time::Duration::from_secs.
#[verifier::external_body]
pub(crate) fn duration_from_secs(secs: u64) -> core::time::Duration {
    core::time::Duration::from_secs(secs)
}

/// Relies on std::time::Duration::from_millis.
#[verifier::external_body]
pub(crate) fn duration_from_millis(millis: u64) -> core::time::Duration {
    core::time::Duration::from_millis(millis)
}

/// Relies on std::time::SystemTime::now: an opaque reading of the wall
/// clock; nothing is promised of its value.
#[verifier::external_body]
pub(crate) fn system_time_now() -> std::time::SystemTime {
    std::time::SystemTime::now()
}

/// Relies on std::time::SystemTime::duration_since: nanoseconds since the
/// Unix epoch, folded to 64 bits, or 0 for a clock before the epoch.
/// Nothing is promised of the value; it serves only as an entropy source.
#[verifier::external_body]
pub(crate) fn nanos_since_epoch(t: &std::time::SystemTime) -> u64 {
    match t.duration_since(std::time::UNIX_EPOCH) {
        Ok(d) => d.as_nanos() as u64,
        Err(_) => 0,
    }
}

} // verus!
