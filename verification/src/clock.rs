//! Monotonic time. What `now` and `elapsed` return depends on when they are
//! called, so their contracts state nothing of it; the logic that uses them
//! takes the readings as arguments.
use vstd::prelude::*;
use std::time::{Duration, Instant};

verus! {

#[verifier::external_type_specification]
#[verifier::external_body]
pub struct ExInstant(Instant);

/// The length of a `Duration` in nanoseconds.
pub uninterp spec fn duration_nanos(d: Duration) -> u128;

/// `Instant::now`: the current moment.
#[verifier::external_body]
pub(crate) fn now() -> (t: Instant) {
    Instant::now()
}

/// `Instant::elapsed`: the time since `t`.
#[verifier::external_body]
pub(crate) fn elapsed(t: &Instant) -> (d: Duration) {
    t.elapsed()
}

/// `Duration::as_nanos`: the whole length in nanoseconds.
#[verifier::external_body]
pub(crate) fn as_nanos(d: &Duration) -> (nanos: u128)
    ensures
        nanos == duration_nanos(*d),
{
    d.as_nanos()
}

/// The nanoseconds since `t`.
pub(crate) fn nanos_since(t: &Instant) -> (nanos: u128) {
    let d = elapsed(t);
    as_nanos(&d)
}

} // verus!
