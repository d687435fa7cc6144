//! A verified core for a runtime debug-visualization overlay.
//!
//! The library holds the overlay's own logic: a bounded window of recent
//! frame durations with a running sum, a keyed registry of on-screen debug
//! text lines with slot assignment and staleness eviction, a FIFO submission
//! queue, a verbosity level controller, and the fixed-point arithmetic
//! behind the frame-time bar chart. Durations are carried as integer
//! microseconds so that every sum, average and ratio is exact.
//!
//! Rendering, windowing and scene-graph work belong to a host engine and
//! stay outside: the library takes plain values (durations, keys, messages,
//! entity handles as integers) and returns plain values and effect
//! descriptions that a thin host layer carries out.

pub mod history;
pub mod level;
pub mod queue;
pub mod registry;
pub mod render;

use vstd::prelude::*;

verus! {

/// Capacity of the frame-time window: how many recent samples are retained.
pub const FRAME_DELTA_WINDOW: usize = 300;

/// Time budget, in microseconds, over which the short-horizon FPS rate is
/// estimated: the most recent samples covering this much elapsed time.
pub const FPS_AVG_WINDOW_US: u64 = 250000;

} // verus!
