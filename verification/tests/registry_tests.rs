use debug_overlay::level::DebugLevel;
use debug_overlay::registry::{DebugTextWriter, WriteEffect};

#[test]
fn writing_same_key_twice_keeps_one_entry_and_one_slot() {
    // write("hp", "100") then write("hp", "90") within the same frame:
    // exactly one visual entity, displaying "90".
    let mut r = DebugTextWriter::new();
    let e1 = r.write("hp".to_string(), "100".to_string(), DebugLevel::Full, 7);
    let e2 = r.write("hp".to_string(), "90".to_string(), DebugLevel::Full, 8);
    assert_eq!(e1, WriteEffect::Spawned { slot: 0, visible: true });
    assert_eq!(e2, WriteEffect::Updated { entity: 7 });
    assert_eq!(r.entries.len(), 1);
    assert_eq!(r.entries[0].0, "hp");
    assert_eq!(r.entries[0].1.message, "90");
    assert_eq!(r.entries[0].1.entity, 7);
    assert_eq!(r.line_lookup.len(), 1);
    assert_eq!(r.next_line, 1);
}

#[test]
fn ephemeral_entry_unrefreshed_two_frames_is_evicted() {
    let mut r = DebugTextWriter::new();
    r.write("a".to_string(), "x".to_string(), DebugLevel::Full, 1);
    // One missed frame is tolerated.
    let despawned = r.cleanup_stale_debug_texts();
    assert!(despawned.is_empty());
    assert_eq!(r.entries.len(), 1);
    // A second missed frame is not.
    let despawned = r.cleanup_stale_debug_texts();
    assert_eq!(despawned, vec![1]);
    assert!(r.entries.is_empty());
    // The slot assignment survives the eviction.
    assert_eq!(r.line_lookup.len(), 1);
}

#[test]
fn refreshed_ephemeral_entry_stays() {
    let mut r = DebugTextWriter::new();
    r.write("a".to_string(), "x".to_string(), DebugLevel::Full, 1);
    for _ in 0..5 {
        assert!(r.cleanup_stale_debug_texts().is_empty());
        r.write("a".to_string(), "x".to_string(), DebugLevel::Full, 99);
    }
    assert_eq!(r.entries.len(), 1);
    assert_eq!(r.entries[0].1.entity, 1);
}

#[test]
fn persistent_entry_is_never_auto_removed() {
    let mut r = DebugTextWriter::new();
    r.write_with_persistence("keep".to_string(), "x".to_string(), true, DebugLevel::Full, 1);
    for _ in 0..10 {
        assert!(r.cleanup_stale_debug_texts().is_empty());
    }
    assert_eq!(r.entries.len(), 1);
}

#[test]
fn persistence_is_sticky_once_marked() {
    let mut r = DebugTextWriter::new();
    r.write_with_persistence("k".to_string(), "x".to_string(), true, DebugLevel::Full, 1);
    // A later ephemeral write must not clear the flag.
    r.write("k".to_string(), "y".to_string(), DebugLevel::Full, 2);
    assert!(r.entries[0].1.persistent);
    assert!(r.cleanup_stale_debug_texts().is_empty());
    assert!(r.cleanup_stale_debug_texts().is_empty());
    assert_eq!(r.entries.len(), 1);
    assert_eq!(r.entries[0].1.message, "y");
}

#[test]
fn slots_are_unique_and_never_reused_for_other_keys() {
    let mut r = DebugTextWriter::new();
    r.write("a".to_string(), "x".to_string(), DebugLevel::Full, 1);
    r.write("b".to_string(), "x".to_string(), DebugLevel::Full, 2);
    assert_eq!(r.entries[0].1.line, 0);
    assert_eq!(r.entries[1].1.line, 1);
    // Evict "a" and "b", then write a new key: it gets a fresh slot.
    r.cleanup_stale_debug_texts();
    r.cleanup_stale_debug_texts();
    assert!(r.entries.is_empty());
    let e = r.write("c".to_string(), "x".to_string(), DebugLevel::Full, 3);
    assert_eq!(e, WriteEffect::Spawned { slot: 2, visible: true });
    // A returning key reuses its own old slot, not anyone else's.
    let e = r.write("a".to_string(), "x".to_string(), DebugLevel::Full, 4);
    assert_eq!(e, WriteEffect::Spawned { slot: 0, visible: true });
    let lines: Vec<usize> = r.entries.iter().map(|p| p.1.line).collect();
    assert_eq!(lines, vec![2, 0]);
}

#[test]
fn new_entries_are_hidden_unless_level_is_full() {
    let mut r = DebugTextWriter::new();
    let e = r.write("a".to_string(), "x".to_string(), DebugLevel::Hidden, 1);
    assert_eq!(e, WriteEffect::Spawned { slot: 0, visible: false });
    let e = r.write("b".to_string(), "x".to_string(), DebugLevel::FpsOnly, 2);
    assert_eq!(e, WriteEffect::Spawned { slot: 1, visible: false });
    let e = r.write("c".to_string(), "x".to_string(), DebugLevel::Full, 3);
    assert_eq!(e, WriteEffect::Spawned { slot: 2, visible: true });
}

#[test]
fn update_refreshes_last_touched_frame() {
    let mut r = DebugTextWriter::new();
    r.write("a".to_string(), "x".to_string(), DebugLevel::Full, 1);
    assert_eq!(r.entries[0].1.last_frame, 0);
    r.cleanup_stale_debug_texts();
    r.write("a".to_string(), "y".to_string(), DebugLevel::Full, 2);
    assert_eq!(r.entries[0].1.last_frame, 1);
    assert_eq!(r.entries[0].1.entity, 1);
}
