use debug_overlay::history::FrameTimeHistory;
use debug_overlay::level::DebugLevel;
use debug_overlay::render::{barchart_bars, fps_display, stats_display, BarSpec, StatsDisplay};
use debug_overlay::{FPS_AVG_WINDOW_US, FRAME_DELTA_WINDOW};

#[test]
fn stats_show_a_placeholder_on_an_empty_window() {
    let h = FrameTimeHistory::new(FRAME_DELTA_WINDOW);
    assert_eq!(stats_display(&h, DebugLevel::Full), Some(StatsDisplay::Placeholder));
}

#[test]
fn stats_show_window_average_and_maximum() {
    let mut h = FrameTimeHistory::new(FRAME_DELTA_WINDOW);
    h.record(16_000);
    h.record(16_000);
    h.record(16_000);
    h.record(33_000);
    assert_eq!(
        stats_display(&h, DebugLevel::Full),
        Some(StatsDisplay::Values { avg_us: 20_250, max_us: 33_000 })
    );
}

#[test]
fn bar_heights_scale_against_the_window_maximum() {
    let mut h = FrameTimeHistory::new(FRAME_DELTA_WINDOW);
    h.record(10_000);
    h.record(20_000);
    let bars = barchart_bars(&h, DebugLevel::Full, FRAME_DELTA_WINDOW);
    // avg = 15000, max = 20000.
    // First bar: half the maximum; below average: red = 10000*200/15000.
    // Second bar: full height; a third above average: red = 200 + 5000*800/15000.
    assert_eq!(
        bars,
        vec![
            BarSpec { height_permille: 500, red_permille: 133 },
            BarSpec { height_permille: 1000, red_permille: 466 },
        ]
    );
}

#[test]
fn bar_red_fraction_saturates_at_twice_the_average() {
    let mut h = FrameTimeHistory::new(FRAME_DELTA_WINDOW);
    h.record(1_000);
    h.record(1_000);
    h.record(100_000);
    let bars = barchart_bars(&h, DebugLevel::Full, FRAME_DELTA_WINDOW);
    // The spike is far more than twice the average: fully red.
    assert_eq!(bars[2].red_permille, 1000);
    assert_eq!(bars[2].height_permille, 1000);
}

#[test]
fn bar_chart_takes_only_the_most_recent_samples() {
    let mut h = FrameTimeHistory::new(FRAME_DELTA_WINDOW);
    h.record(10_000);
    h.record(20_000);
    h.record(40_000);
    let bars = barchart_bars(&h, DebugLevel::Full, 2);
    assert_eq!(bars.len(), 2);
    // Heights are still graded against the full window's maximum.
    assert_eq!(bars[0].height_permille, 500);
    assert_eq!(bars[1].height_permille, 1000);
}

#[test]
fn bar_chart_degenerates_safely() {
    let h = FrameTimeHistory::new(FRAME_DELTA_WINDOW);
    assert!(barchart_bars(&h, DebugLevel::Full, FRAME_DELTA_WINDOW).is_empty());
    let mut h = FrameTimeHistory::new(FRAME_DELTA_WINDOW);
    h.record(0);
    assert!(barchart_bars(&h, DebugLevel::Full, FRAME_DELTA_WINDOW).is_empty());
}

#[test]
fn fps_line_waits_for_the_sampling_budget() {
    let mut h = FrameTimeHistory::new(FRAME_DELTA_WINDOW);
    // 0.1 s of samples: less than the 0.25 s budget, so the line keeps its
    // placeholder even though a rate could be estimated.
    h.record(100_000);
    assert_eq!(fps_display(&h, DebugLevel::Full, FPS_AVG_WINDOW_US), None);
    h.record(100_000);
    assert_eq!(fps_display(&h, DebugLevel::Full, FPS_AVG_WINDOW_US), None);
    // 0.3 s covers the budget: 3 frames / 0.3 s = 10 fps.
    h.record(100_000);
    assert_eq!(fps_display(&h, DebugLevel::Full, FPS_AVG_WINDOW_US), Some(10));
}

#[test]
fn fps_budget_constant_is_a_quarter_second() {
    assert_eq!(FPS_AVG_WINDOW_US, 250_000);
    assert_eq!(FRAME_DELTA_WINDOW, 300);
}
