use debug_overlay::history::FrameTimeHistory;

#[test]
fn average_and_max_of_example_window() {
    // Frame durations 16.0, 16.0, 16.0, 33.0 ms with window cap 300.
    let mut h = FrameTimeHistory::new(300);
    h.record(16_000);
    h.record(16_000);
    h.record(16_000);
    h.record(33_000);
    let avg = h.average_us().unwrap();
    let max = h.max_us().unwrap();
    assert_eq!(avg, 20_250);
    assert_eq!(avg as f64 / 1000.0, 20.25);
    assert_eq!(max, 33_000);
    assert_eq!(max as f64 / 1000.0, 33.0);
}

#[test]
fn empty_window_has_no_average_or_max() {
    let h = FrameTimeHistory::new(300);
    assert_eq!(h.average_us(), None);
    assert_eq!(h.max_us(), None);
    assert_eq!(h.len(), 0);
}

#[test]
fn window_never_exceeds_capacity_and_sum_tracks_it() {
    // More samples than the cap: the window keeps the most recent 300 and
    // the running sum (hence the average) reflects exactly those.
    let mut h = FrameTimeHistory::new(300);
    for i in 0..310u64 {
        h.record(1_000 + i);
    }
    assert_eq!(h.len(), 300);
    // Retained samples are 1_010..=1_309; their mean is 1_159.5.
    let expected_sum: u64 = (10..310).map(|i| 1_000 + i).sum();
    assert_eq!(h.average_us(), Some(expected_sum / 300));
    assert_eq!(h.max_us(), Some(1_309));
}

#[test]
fn oldest_sample_is_evicted_first() {
    let mut h = FrameTimeHistory::new(2);
    h.record(10);
    h.record(20);
    h.record(30);
    assert_eq!(h.len(), 2);
    assert_eq!(h.average_us(), Some(25));
    assert_eq!(h.max_us(), Some(30));
}

#[test]
fn fps_rate_uses_most_recent_samples_up_to_budget() {
    // Four samples of 100 ms; a 250 ms budget is covered by the three most
    // recent, so the rate is 3 frames / 0.3 s = 10 fps.
    let mut h = FrameTimeHistory::new(300);
    for _ in 0..4 {
        h.record(100_000);
    }
    assert_eq!(h.fps_rate(250_000), Some(10));
}

#[test]
fn fps_rate_degrades_gracefully_below_budget() {
    // A single 500 ms sample covers the budget alone: 1 frame / 0.5 s
    // rounds from 2.5 to 2.
    let mut h = FrameTimeHistory::new(300);
    h.record(500_000);
    assert_eq!(h.fps_rate(250_000), Some(2));
}

#[test]
fn fps_rate_is_unset_without_elapsed_time() {
    let mut h = FrameTimeHistory::new(300);
    assert_eq!(h.fps_rate(250_000), None);
    h.record(0);
    h.record(0);
    assert_eq!(h.fps_rate(250_000), None);
}

#[test]
fn budget_window_walks_backward() {
    let mut h = FrameTimeHistory::new(300);
    h.record(200_000);
    h.record(100_000);
    h.record(100_000);
    let (frames, elapsed) = h.budget_window(250_000);
    // 100 + 100 < 250, adding the 200 ms sample reaches it.
    assert_eq!(frames, 3);
    assert_eq!(elapsed, 400_000);
    let (frames, elapsed) = h.budget_window(150_000);
    assert_eq!(frames, 2);
    assert_eq!(elapsed, 200_000);
}
