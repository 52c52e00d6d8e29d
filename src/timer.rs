//! Interval timer over the high-resolution counter, in nanoseconds.
use vstd::prelude::*;

verus! {

/// Relies on `time::precise_time_ns`: a reading of the high-resolution
/// performance counter, in nanoseconds since an unspecified epoch. Nothing is
/// assumed of the value.
#[verifier::external_body]
fn precise_now_ns() -> (r: u64) {
    time::precise_time_ns()
}

/// Nanoseconds from `start` to `now`; zero if the counter reads lower.
pub open spec fn elapsed_ns(start: u64, now: u64) -> u64 {
    if now >= start {
        (now - start) as u64
    } else {
        0
    }
}

/// Measures the time between successive resets.
#[derive(Debug)]
pub struct Timer {
    start_ns: u64,
}

impl Timer {
    /// The counter reading at the last start or reset.
    pub closed spec fn started(&self) -> u64 {
        self.start_ns
    }

    /// A timer started now.
    pub fn new() -> (t: Timer) {
        Timer { start_ns: precise_now_ns() }
    }

    /// A timer started at counter reading `now`.
    pub fn started_at(now: u64) -> (t: Timer)
        ensures
            t.started() == now,
    {
        Timer { start_ns: now }
    }

    /// Restarts the timer at counter reading `now` and returns the
    /// nanoseconds since the previous start.
    pub fn reset_at(&mut self, now: u64) -> (r: u64)
        ensures
            final(self).started() == now,
            r == elapsed_ns(old(self).started(), now),
    {
        let delta = now.saturating_sub(self.start_ns);
        self.start_ns = now;
        delta
    }

    /// Restarts the timer now and returns the nanoseconds since the previous
    /// start.
    pub fn reset(&mut self) -> (r: u64)
        ensures
            r == elapsed_ns(old(self).started(), final(self).started()),
    {
        let now = precise_now_ns();
        self.reset_at(now)
    }
}

} // verus!
