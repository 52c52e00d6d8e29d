//! Latency tracker: a falling edge of the digital flag arms it, a rising
//! edge disarms it, and the smoothed analog channel dropping below the
//! threshold while armed fires it and reports the time since the edge.
//! The smoothing itself is done by the caller, which hands over whether the
//! smoothed value is below the threshold.
use vstd::prelude::*;

verus! {

/// The time from `start` to `now`, counting across one wraparound of the
/// 32-bit timestamp.
pub open spec fn elapsed(start: u32, now: u32) -> u32 {
    if now >= start {
        (now - start) as u32
    } else {
        (now + 0x1_0000_0000 - start) as u32
    }
}

/// Tracker state.
#[derive(Clone, Copy, Debug)]
pub struct LatencyTracker {
    /// The digital flag of the previous sample.
    pub last_digital: bool,
    /// Armed: a falling edge was seen and no rising edge or crossing since.
    pub measuring: bool,
    /// Timestamp of the falling edge that armed the tracker.
    pub event_start: u32,
    /// The most recent latency measured, if any.
    pub latest: Option<u32>,
}

/// The state after observing one sample, and the latency it reports.
pub open spec fn observe_step(t: LatencyTracker, digital: bool, below: bool, timestamp: u32) -> (
    LatencyTracker,
    Option<u32>,
) {
    let falling = t.last_digital && !digital;
    let start = if falling {
        timestamp
    } else {
        t.event_start
    };
    let armed = (t.measuring || falling) && !digital;
    let report = if armed && below {
        Some(elapsed(start, timestamp))
    } else {
        None
    };
    (
        LatencyTracker {
            last_digital: digital,
            measuring: armed && !below,
            event_start: start,
            latest: if report is Some {
                report
            } else {
                t.latest
            },
        },
        report,
    )
}

impl LatencyTracker {
    /// Idle, with the digital flag low and nothing measured.
    pub fn new() -> (t: LatencyTracker)
        ensures
            !t.last_digital,
            !t.measuring,
            t.event_start == 0,
            t.latest is None,
    {
        LatencyTracker { last_digital: false, measuring: false, event_start: 0, latest: None }
    }

    /// Feeds one sample: its digital flag, whether the smoothed analog value
    /// is below the threshold, and its timestamp. Returns the latency when
    /// this sample completes a measurement.
    pub fn observe(&mut self, digital: bool, below: bool, timestamp: u32) -> (r: Option<u32>)
        ensures
            (*final(self), r) == observe_step(*old(self), digital, below, timestamp),
    {
        if self.last_digital && !digital {
            self.event_start = timestamp;
            self.measuring = true;
        }
        if self.measuring && digital {
            self.measuring = false;
        }
        let mut report: Option<u32> = None;
        if self.measuring && below {
            self.measuring = false;
            let latency = timestamp.wrapping_sub(self.event_start);
            report = Some(latency);
            self.latest = report;
        }
        self.last_digital = digital;
        report
    }

    /// The most recent latency measured.
    pub fn current_latency(&self) -> (r: Option<u32>)
        ensures
            r == self.latest,
    {
        self.latest
    }
}

} // verus!
