//! Readings of the monotonic clock and the durations measured on it. What a
//! reading returns depends on when it is taken, so nothing is stated of it;
//! the logic that uses a reading takes it as an argument.
use vstd::prelude::*;
use std::time::{Duration, Instant};

verus! {

#[verifier::external_type_specification]
#[verifier::external_body]
pub struct ExInstant(Instant);

/// The whole nanoseconds in a duration, as `Duration::as_nanos` reports
/// them.
pub uninterp spec fn spec_duration_nanos(d: Duration) -> u128;

/// `std::time::Instant::now`: the current reading of the monotonic clock.
#[verifier::external_body]
pub(crate) fn instant_now() -> Instant {
    Instant::now()
}

/// `std::time::Instant::elapsed`: the time since `since` by the monotonic
/// clock (zero when `since` lies in the future). Nothing is stated of it.
#[verifier::external_body]
pub(crate) fn elapsed_since(since: &Instant) -> Duration {
    since.elapsed()
}

/// `std::time::Duration::as_nanos`: the whole nanoseconds in `d`.
#[verifier::external_body]
pub(crate) fn duration_nanos(d: &Duration) -> (r: u128)
    ensures
        r == spec_duration_nanos(*d),
{
    d.as_nanos()
}

/// `std::time::Duration::from_secs`: a duration of `secs` whole seconds,
/// that is `secs` times one billion nanoseconds.
#[verifier::external_body]
pub(crate) fn duration_from_secs(secs: u64) -> (d: Duration)
    ensures
        spec_duration_nanos(d) == secs * 1_000_000_000,
{
    Duration::from_secs(secs)
}

/// `std::time::Instant::checked_add`: the instant `d` after `at`, or
/// `None` when the clock cannot represent it. Nothing is stated of the
/// instant itself.
#[verifier::external_body]
pub(crate) fn instant_checked_add(at: &Instant, d: &Duration) -> Option<Instant> {
    at.checked_add(*d)
}

/// `Instant < Instant`: whether `a` comes before `b`.
#[verifier::external_body]
pub(crate) fn is_before(a: &Instant, b: &Instant) -> bool {
    *a < *b
}

} // verus!
