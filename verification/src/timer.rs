//! The fade-in timer.
use vstd::prelude::*;
use std::time::{Duration, Instant};
use crate::clock::{now, nanos_since, as_nanos};

verus! {

/// Whether a fade of `duration_nanos` is done after `elapsed_nanos`: the
/// elapsed fraction of the duration has reached one (a fade of no length is
/// done as soon as any time has passed).
pub open spec fn spec_fade_complete(elapsed_nanos: u128, duration_nanos: u128) -> bool {
    if duration_nanos == 0 {
        elapsed_nanos > 0
    } else {
        elapsed_nanos >= duration_nanos
    }
}

/// Whether a fade of `duration_nanos` is done after `elapsed_nanos`.
pub fn fade_complete(elapsed_nanos: u128, duration_nanos: u128) -> (done: bool)
    ensures
        done == spec_fade_complete(elapsed_nanos, duration_nanos),
{
    if duration_nanos == 0 {
        elapsed_nanos > 0
    } else {
        elapsed_nanos >= duration_nanos
    }
}

pub struct FadeTimer {
    duration: Duration,
    start_time: Instant,
}

impl FadeTimer {
    /// The length of the fade.
    pub closed spec fn spec_duration(&self) -> Duration {
        self.duration
    }

    /// When the fade started.
    pub closed spec fn spec_start(&self) -> Instant {
        self.start_time
    }

    /// A fade of length `duration` that starts now.
    pub fn new(duration: Duration) -> (timer: Self)
        ensures
            timer.spec_duration() == duration,
    {
        FadeTimer { duration, start_time: now() }
    }

    /// Whether the fade is complete: at least its duration has passed since it
    /// started (computed by `fade_complete` from the time elapsed now).
    pub fn update(&mut self) -> (done: bool)
        ensures
            *final(self) == *old(self),
    {
        let elapsed = nanos_since(&self.start_time);
        let total = as_nanos(&self.duration);
        fade_complete(elapsed, total)
    }

    /// The length of the fade.
    pub fn duration(&self) -> (d: Duration)
        ensures
            d == self.spec_duration(),
    {
        self.duration
    }

    /// When the fade started.
    pub fn start_time(&self) -> (t: Instant)
        ensures
            t == self.spec_start(),
    {
        self.start_time
    }
}

/// A fade of nonzero length is not complete before its whole length has
/// elapsed and is complete from then on; once complete, it stays complete as
/// more time passes.
pub proof fn lemma_fade_completes_after_its_duration(e1: u128, e2: u128, duration_nanos: u128)
    requires
        e1 <= e2,
    ensures
        duration_nanos > 0 && e1 < duration_nanos ==> !spec_fade_complete(e1, duration_nanos),
        duration_nanos > 0 && e1 >= duration_nanos ==> spec_fade_complete(e1, duration_nanos),
        spec_fade_complete(e1, duration_nanos) ==> spec_fade_complete(e2, duration_nanos),
        duration_nanos == 0 ==> (spec_fade_complete(e1, duration_nanos) <==> e1 > 0),
{
}

} // verus!
