use debug_overlay::history::FrameTimeHistory;
use debug_overlay::level::{
    needs_visibility_write, DebugLevel, Visibility, VisibilityController,
};
use debug_overlay::render::{barchart_bars, fps_display, stats_display};

#[test]
fn level_defaults_to_full() {
    assert_eq!(DebugLevel::default(), DebugLevel::Full);
}

#[test]
fn toggle_cycles_through_the_three_levels() {
    let l = DebugLevel::Hidden;
    let l = l.cycle();
    assert_eq!(l, DebugLevel::FpsOnly);
    let l = l.cycle();
    assert_eq!(l, DebugLevel::Full);
    let l = l.cycle();
    assert_eq!(l, DebugLevel::Hidden);
}

#[test]
fn hidden_level_hides_everything_but_history_keeps_running() {
    // Setting the level to Hidden hides the FPS text and all keyed debug
    // entries, and suppresses the stats, gizmo and bar-chart draws.
    let targets = DebugLevel::Hidden.targets();
    assert_eq!(targets.fps, Visibility::Hidden);
    assert_eq!(targets.stats, Visibility::Hidden);
    assert_eq!(targets.entries, Visibility::Hidden);
    assert!(!DebugLevel::Hidden.overlays_enabled());

    let mut h = FrameTimeHistory::new(300);
    h.record(16_000);
    assert_eq!(fps_display(&h, DebugLevel::Hidden, 250_000), None);
    assert_eq!(stats_display(&h, DebugLevel::Hidden), None);
    assert!(barchart_bars(&h, DebugLevel::Hidden, 300).is_empty());

    // History updates run unaffected by the level.
    h.record(16_000);
    assert_eq!(h.len(), 2);
    assert_eq!(h.average_us(), Some(16_000));
}

#[test]
fn fps_only_level_shows_the_fps_line_alone() {
    let targets = DebugLevel::FpsOnly.targets();
    assert_eq!(targets.fps, Visibility::Inherited);
    assert_eq!(targets.stats, Visibility::Hidden);
    assert_eq!(targets.entries, Visibility::Hidden);
    let mut h = FrameTimeHistory::new(300);
    h.record(500_000);
    assert_eq!(fps_display(&h, DebugLevel::FpsOnly, 250_000), Some(2));
    assert_eq!(stats_display(&h, DebugLevel::FpsOnly), None);
    assert!(barchart_bars(&h, DebugLevel::FpsOnly, 300).is_empty());
}

#[test]
fn full_level_shows_everything() {
    let targets = DebugLevel::Full.targets();
    assert_eq!(targets.fps, Visibility::Inherited);
    assert_eq!(targets.stats, Visibility::Inherited);
    assert_eq!(targets.entries, Visibility::Inherited);
    assert!(DebugLevel::Full.overlays_enabled());
    assert!(DebugLevel::Full.fps_update_enabled());
}

#[test]
fn visibility_application_is_edge_triggered() {
    let mut c = VisibilityController::new();
    // The first check always applies.
    assert!(c.check(DebugLevel::Full).is_some());
    // An unchanged level applies nothing.
    assert_eq!(c.check(DebugLevel::Full), None);
    assert_eq!(c.check(DebugLevel::Full), None);
    // A change applies the new level's targets once.
    let targets = c.check(DebugLevel::Hidden).unwrap();
    assert_eq!(targets.fps, Visibility::Hidden);
    assert_eq!(c.check(DebugLevel::Hidden), None);
}

#[test]
fn writes_to_elements_already_at_target_are_skipped() {
    assert!(!needs_visibility_write(Visibility::Hidden, Visibility::Hidden));
    assert!(needs_visibility_write(Visibility::Inherited, Visibility::Hidden));
    assert!(needs_visibility_write(Visibility::Hidden, Visibility::Inherited));
    assert!(!needs_visibility_write(Visibility::Inherited, Visibility::Inherited));
}
