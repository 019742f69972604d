//! Monotonic time for the few decisions that depend on it. `Instant` and `Duration` are opaque
//! here: every value comes from std, and only a span built from milliseconds is named.

use std::time::{Duration, Instant};
use vstd::prelude::*;

verus! {

#[verifier::external_type_specification]
#[verifier::external_body]
pub struct ExInstant(Instant);

/// `Instant::now`: the current monotonic time; nothing is stated of it.
#[verifier::external_body]
pub(crate) fn instant_now() -> (r: Instant) {
    Instant::now()
}

/// `Instant::duration_since`: the time from `earlier` to `now` (zero when `earlier` is later);
/// nothing is stated of the value.
#[verifier::external_body]
pub(crate) fn duration_since(now: &Instant, earlier: &Instant) -> (r: Duration) {
    now.duration_since(*earlier)
}

/// `Duration`'s `<`; nothing is stated of the value.
#[verifier::external_body]
pub(crate) fn duration_lt(a: &Duration, b: &Duration) -> (r: bool) {
    *a < *b
}

/// The span of `ms` milliseconds, as `Duration::from_millis` builds it.
pub uninterp spec fn millis_duration(ms: u64) -> Duration;

/// `Duration::from_millis`: the span of `ms` milliseconds, a function of `ms` alone (it cannot
/// overflow: a `u64` of milliseconds always fits).
#[verifier::external_body]
pub(crate) fn duration_from_millis(ms: u64) -> (r: Duration)
    ensures
        r == millis_duration(ms),
{
    Duration::from_millis(ms)
}

} // verus!
