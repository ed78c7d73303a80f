//! The wall clock, as far as the game's timer needs it.

use std::time::{Duration, Instant};
use vstd::prelude::*;

verus! {

#[verifier::external_type_specification]
#[verifier::external_body]
pub struct ExInstant(std::time::Instant);

/// The duration that `Duration::from_secs` builds from a number of seconds.
pub uninterp spec fn duration_of_secs(secs: u64) -> Duration;

/// Relies on `std::time::Instant::now`: the current instant of the
/// monotonic clock. Nothing is known of its value.
#[verifier::external_body]
pub(crate) fn instant_now() -> (r: Instant) {
    Instant::now()
}

/// Relies on `std::time::Instant::elapsed`: the time that has passed since
/// `t`. It depends on the clock, so nothing is known of its value.
#[verifier::external_body]
pub(crate) fn elapsed_since(t: &Instant) -> (r: Duration) {
    t.elapsed()
}

/// Relies on `std::time::Duration::from_secs`: the duration of `secs`
/// seconds, a function of `s` alone.
#[verifier::external_body]
pub(crate) fn duration_from_secs(s: u64) -> (r: Duration)
    ensures
        r == duration_of_secs(s),
{
    Duration::from_secs(s)
}

} // verus!
