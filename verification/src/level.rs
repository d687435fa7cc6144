//! Verbosity level and the visibility it dictates.
//!
//! A tri-state level gates which overlay elements are shown. Visibility is
//! recomputed only when the level changes (edge-triggered), and a write to
//! an element already at its target is skipped.

use vstd::prelude::*;

verus! {

/// Global overlay verbosity: nothing, the FPS line only, or everything.
#[derive(Clone, Copy, Debug, PartialEq, Eq, Structural)]
pub enum DebugLevel {
    Hidden,
    FpsOnly,
    Full,
}

/// Visibility state of one tracked visual element.
#[derive(Clone, Copy, Debug, PartialEq, Eq, Structural)]
pub enum Visibility {
    Inherited,
    Hidden,
}

impl Default for DebugLevel {
    /// The level an overlay starts at when nothing toggles it.
    fn default() -> (r: Self)
        ensures
            r == DebugLevel::Full,
    {
        DebugLevel::Full
    }
}

/// Target visibility of each tracked element group under one level.
#[derive(Clone, Copy, Debug, PartialEq, Eq, Structural)]
pub struct VisibilityTargets {
    /// The FPS counter line.
    pub fps: Visibility,
    /// The frame-time average and maximum lines.
    pub stats: Visibility,
    /// Every keyed debug-text line.
    pub entries: Visibility,
}

/// What each level shows: Hidden shows nothing, FpsOnly only the FPS line,
/// Full everything.
pub open spec fn targets_of(level: DebugLevel) -> VisibilityTargets {
    match level {
        DebugLevel::Hidden => VisibilityTargets {
            fps: Visibility::Hidden,
            stats: Visibility::Hidden,
            entries: Visibility::Hidden,
        },
        DebugLevel::FpsOnly => VisibilityTargets {
            fps: Visibility::Inherited,
            stats: Visibility::Hidden,
            entries: Visibility::Hidden,
        },
        DebugLevel::Full => VisibilityTargets {
            fps: Visibility::Inherited,
            stats: Visibility::Inherited,
            entries: Visibility::Inherited,
        },
    }
}

impl DebugLevel {
    /// The next level on an external toggle signal:
    /// Hidden, FpsOnly, Full, and back to Hidden.
    pub fn cycle(self) -> (r: DebugLevel)
        ensures
            r == (match self {
                DebugLevel::Hidden => DebugLevel::FpsOnly,
                DebugLevel::FpsOnly => DebugLevel::Full,
                DebugLevel::Full => DebugLevel::Hidden,
            }),
    {
        match self {
            DebugLevel::Hidden => DebugLevel::FpsOnly,
            DebugLevel::FpsOnly => DebugLevel::Full,
            DebugLevel::Full => DebugLevel::Hidden,
        }
    }

    /// Visibility of each element group under this level.
    pub fn targets(self) -> (r: VisibilityTargets)
        ensures
            r == targets_of(self),
    {
        match self {
            DebugLevel::Hidden => VisibilityTargets {
                fps: Visibility::Hidden,
                stats: Visibility::Hidden,
                entries: Visibility::Hidden,
            },
            DebugLevel::FpsOnly => VisibilityTargets {
                fps: Visibility::Inherited,
                stats: Visibility::Hidden,
                entries: Visibility::Hidden,
            },
            DebugLevel::Full => VisibilityTargets {
                fps: Visibility::Inherited,
                stats: Visibility::Inherited,
                entries: Visibility::Inherited,
            },
        }
    }

    /// Whether the axis gizmo, the bar chart and the frame-time stats are
    /// drawn: only at the Full level.
    pub fn overlays_enabled(self) -> (r: bool)
        ensures
            r == (self == DebugLevel::Full),
    {
        match self {
            DebugLevel::Full => true,
            _ => false,
        }
    }

    /// Whether the FPS line is updated this frame: at every level but Hidden.
    pub fn fps_update_enabled(self) -> (r: bool)
        ensures
            r == (self != DebugLevel::Hidden),
    {
        match self {
            DebugLevel::Hidden => false,
            _ => true,
        }
    }
}

/// Whether a tracked element needs a visibility write: only when it is not
/// already at its target, so redundant writes are skipped.
pub fn needs_visibility_write(current: Visibility, target: Visibility) -> (r: bool)
    ensures
        r == (current != target),
{
    current != target
}

/// Edge-triggered visibility application: remembers the last level it acted
/// on and hands out targets only when the level has changed since.
pub struct VisibilityController {
    /// The level most recently applied; `None` before the first application.
    pub last_applied: Option<DebugLevel>,
}

impl VisibilityController {
    /// A controller that has applied nothing yet, so the first check
    /// always yields targets.
    pub fn new() -> (r: Self)
        ensures
            r.last_applied is None,
    {
        VisibilityController { last_applied: None }
    }

    /// Yields the visibility targets to apply when `level` differs from the
    /// last applied level (or none was applied yet); `None` otherwise.
    pub fn check(&mut self, level: DebugLevel) -> (r: Option<VisibilityTargets>)
        ensures
            final(self).last_applied == Some(level),
            r == if old(self).last_applied == Some(level) {
                None::<VisibilityTargets>
            } else {
                Some(targets_of(level))
            },
    {
        let changed = match self.last_applied {
            Some(prev) => prev != level,
            None => true,
        };
        self.last_applied = Some(level);
        if changed {
            Some(level.targets())
        } else {
            None
        }
    }
}

} // verus!
