//! Per-frame display computations for the overlay renderers.
//!
//! These are the decisions behind the FPS line, the frame-time stats lines
//! and the bar chart, on plain integer values. Ratios are fixed-point,
//! in permille (thousandths), so a host can scale bar heights and blend
//! colors without the library touching its drawing primitives.

use crate::history::{
    budget_frame_count, lemma_frame_count_bounds, max_of, sum_of, FrameTimeHistory,
};
use crate::level::DebugLevel;
use vstd::prelude::*;

verus! {

/// What the frame-time stats lines show this frame.
#[derive(Clone, Copy, Debug, PartialEq, Eq, Structural)]
pub enum StatsDisplay {
    /// The window is empty: show the placeholder label.
    Placeholder,
    /// Mean and maximum duration over the full window, in microseconds.
    Values { avg_us: u64, max_us: u64 },
}

/// One bar of the frame-time chart.
#[derive(Clone, Copy, Debug, PartialEq, Eq, Structural)]
pub struct BarSpec {
    /// Bar height as a fraction of the tallest bar, in permille of the
    /// chart's full height, clamped to at most one.
    pub height_permille: u32,
    /// Red fraction of the bar's color, in permille; the green fraction is
    /// its complement.
    pub red_permille: u32,
}

/// Red fraction, in permille, of a bar for `sample` against the window
/// average `avg`: at or below the average it grows linearly up to 200; above
/// the average it maps into 200..=1000, scaled by how far above the average
/// the sample lies, clamped at twice the average.
pub open spec fn red_permille_of(sample: u64, avg: u64) -> int
    recommends
        avg > 0,
{
    if sample > avg {
        let over = (sample - avg) * 800 / avg as int;
        200 + if over > 800 {
            800int
        } else {
            over
        }
    } else {
        sample * 200 / avg as int
    }
}

/// Height fraction, in permille, of a bar for `sample` against the window
/// maximum `maxv`, clamped to at most one.
pub open spec fn height_permille_of(sample: u64, maxv: u64) -> int
    recommends
        maxv > 0,
{
    let h = sample * 1000 / maxv as int;
    if h > 1000 {
        1000int
    } else {
        h
    }
}

/// The bar drawn for one sample.
pub open spec fn bar_of(sample: u64, avg: u64, maxv: u64) -> BarSpec {
    BarSpec {
        height_permille: height_permille_of(sample, maxv) as u32,
        red_permille: red_permille_of(sample, avg) as u32,
    }
}

/// A window whose maximum is zero holds only zero samples.
proof fn lemma_max_zero_sum_zero(s: Seq<u64>)
    requires
        max_of(s) == 0,
    ensures
        sum_of(s) == 0,
    decreases s.len(),
{
    if s.len() > 0 {
        lemma_max_zero_sum_zero(s.drop_last());
    }
}

/// What the frame-time stats lines show: nothing unless the level is Full;
/// the placeholder on an empty window; else the window's mean and maximum.
pub fn stats_display(history: &FrameTimeHistory, level: DebugLevel) -> (r: Option<StatsDisplay>)
    requires
        history.wf(),
    ensures
        r is Some <==> level == DebugLevel::Full,
        level == DebugLevel::Full ==> r == Some(
            if history.window().len() == 0 {
                StatsDisplay::Placeholder
            } else {
                StatsDisplay::Values {
                    avg_us: (sum_of(history.window()) / history.window().len() as int) as u64,
                    max_us: max_of(history.window()),
                }
            },
        ),
{
    if !level.overlays_enabled() {
        return None;
    }
    let avg = history.average_us();
    let max = history.max_us();
    match (avg, max) {
        (Some(a), Some(m)) => Some(StatsDisplay::Values { avg_us: a, max_us: m }),
        _ => Some(StatsDisplay::Placeholder),
    }
}

/// What the FPS line shows this frame, as a function of the window and the
/// budget: the short-horizon rate once the window's most recent samples
/// cover the whole budget, and nothing (the line keeps its placeholder)
/// before that.
pub open spec fn fps_display_spec(s: Seq<u64>, budget_us: u64) -> Option<u128> {
    let k = budget_frame_count(s, budget_us as int);
    let e = sum_of(s.skip(s.len() - k));
    if e == 0 || e < budget_us {
        None
    } else {
        Some(((k * 1000000 + e / 2) / e) as u128)
    }
}

/// What the FPS line shows: nothing (leave the line as it is) when the
/// level is Hidden or the windowed elapsed time has not yet reached the
/// sampling budget; else the short-horizon rate over `budget_us`.
pub fn fps_display(history: &FrameTimeHistory, level: DebugLevel, budget_us: u64) -> (r: Option<
    u128,
>)
    requires
        history.wf(),
    ensures
        r == if level == DebugLevel::Hidden {
            None::<u128>
        } else {
            fps_display_spec(history.window(), budget_us)
        },
{
    if !level.fps_update_enabled() {
        return None;
    }
    let (frames, elapsed) = history.budget_window(budget_us);
    if elapsed == 0 || elapsed < budget_us as u128 {
        None
    } else {
        proof {
            lemma_frame_count_bounds(history.window(), budget_us as int);
        }
        Some((frames as u128 * 1000000 + elapsed / 2) / elapsed)
    }
}

/// The bars of the frame-time chart: one per sample among the most recent
/// `max_bars`, in window order, each scaled against the full window's
/// maximum and color-graded against its average. Empty when the window is
/// empty or its mean rounds to zero microseconds (nothing sensible to
/// grade against), or when the level is not Full.
pub fn barchart_bars(history: &FrameTimeHistory, level: DebugLevel, max_bars: usize) -> (r: Vec<
    BarSpec,
>)
    requires
        history.wf(),
    ensures
        ({
            let w = history.window();
            if level != DebugLevel::Full || w.len() == 0 || sum_of(w) / w.len() as int == 0 {
                r@ =~= Seq::<BarSpec>::empty()
            } else {
                let start = if w.len() > max_bars {
                    w.len() - max_bars
                } else {
                    0int
                };
                &&& r@.len() == w.len() - start
                &&& forall|i: int|
                    0 <= i < r@.len() ==> r@[i] == bar_of(
                        w[start + i],
                        (sum_of(w) / w.len() as int) as u64,
                        max_of(w),
                    )
            }
        }),
{
    let mut bars: Vec<BarSpec> = Vec::new();
    if !level.overlays_enabled() {
        return bars;
    }
    let avg = match history.average_us() {
        Some(a) => a,
        None => {
            return bars;
        },
    };
    if avg == 0 {
        return bars;
    }
    let max = match history.max_us() {
        Some(m) => m,
        None => {
            return bars;
        },
    };
    proof {
        if max_of(history.window()) == 0 {
            lemma_max_zero_sum_zero(history.window());
            assert(sum_of(history.window()) / history.window().len() as int == 0);
        }
    }
    let len = history.len();
    let start = if len > max_bars {
        len - max_bars
    } else {
        0
    };
    let mut i: usize = start;
    while i < len
        invariant
            start <= i <= len,
            len == history.window().len(),
            history.wf(),
            avg == sum_of(history.window()) / history.window().len() as int,
            avg > 0,
            max == max_of(history.window()),
            max > 0,
            bars@.len() == i - start,
            forall|j: int|
                0 <= j < bars@.len() ==> bars@[j] == bar_of(
                    history.window()[start + j],
                    avg,
                    max,
                ),
        decreases len - i,
    {
        let sample = history.frame_times_us[i];
        let over: u128 = if sample > avg {
            let o = (sample - avg) as u128 * 800 / avg as u128;
            if o > 800 {
                800
            } else {
                o
            }
        } else {
            0
        };
        proof {
            assert(sample <= avg ==> sample as int * 200 / avg as int <= 200)
                by (nonlinear_arith)
                requires
                    avg > 0,
            ;
        }
        let red: u32 = if sample > avg {
            200 + over as u32
        } else {
            (sample as u128 * 200 / avg as u128) as u32
        };
        let height_raw: u128 = sample as u128 * 1000 / max as u128;
        let height: u32 = if height_raw > 1000 {
            1000
        } else {
            height_raw as u32
        };
        proof {
            assert(red == red_permille_of(sample, avg));
            assert(height == height_permille_of(sample, max));
        }
        bars.push(BarSpec { height_permille: height, red_permille: red });
        i = i + 1;
    }
    bars
}

} // verus!
