use plotter::tracker::LatencyTracker;

fn run(digital: &[bool], analog: &[f64], timestamps: &[u32], k: f64, threshold: f64) -> Vec<Option<u32>> {
    let mut t = LatencyTracker::new();
    let mut smoothed = 0.0f64;
    let mut out = Vec::new();
    for i in 0..digital.len() {
        smoothed = smoothed * k + analog[i] * (1.0 - k);
        out.push(t.observe(digital[i], smoothed < threshold, timestamps[i]));
    }
    out
}

#[test]
fn falling_edge_then_crossing_reports_latency() {
    let digital = [true, true, false, false, false];
    let analog = [1000.0, 1000.0, 1000.0, 0.0, 0.0];
    let ts = [100u32, 200, 300, 400, 500];
    let out = run(&digital, &analog, &ts, 0.5, 500.0);
    assert_eq!(out, vec![None, None, None, Some(ts[3] - ts[2]), None]);
}

#[test]
fn tracker_returns_to_idle_after_firing() {
    let mut t = LatencyTracker::new();
    assert_eq!(t.observe(true, false, 10), None);
    assert_eq!(t.observe(false, false, 20), None);
    assert_eq!(t.observe(false, true, 50), Some(30));
    assert!(!t.measuring);
    assert_eq!(t.observe(false, true, 60), None);
    assert_eq!(t.current_latency(), Some(30));
}

#[test]
fn rising_edge_before_crossing_aborts() {
    let mut t = LatencyTracker::new();
    assert_eq!(t.observe(true, false, 10), None);
    assert_eq!(t.observe(false, false, 20), None);
    assert_eq!(t.observe(true, true, 30), None);
    assert_eq!(t.observe(true, true, 40), None);
    assert_eq!(t.current_latency(), None);
}

#[test]
fn crossing_on_the_edge_sample_reports_zero() {
    let mut t = LatencyTracker::new();
    assert_eq!(t.observe(true, true, 10), None);
    assert_eq!(t.observe(false, true, 25), Some(0));
}

#[test]
fn latency_counts_across_wraparound() {
    let mut t = LatencyTracker::new();
    t.observe(true, false, 0);
    t.observe(false, false, 0xffff_fff0);
    assert_eq!(t.observe(false, true, 0x20), Some(0x30));
}

#[test]
fn no_edge_no_report() {
    let mut t = LatencyTracker::new();
    for i in 0..10u32 {
        assert_eq!(t.observe(false, true, i), None);
    }
    assert_eq!(t.current_latency(), None);
}
