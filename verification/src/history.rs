//! Bounded window of recent frame durations with a running sum.
//!
//! Durations are integer microseconds. The window is capped at a fixed
//! capacity chosen at construction; recording a sample once the window is
//! full evicts the oldest sample, and the running sum is kept exactly equal
//! to the sum of the retained window.

use std::collections::VecDeque;
use vstd::prelude::*;

verus! {

/// Sum of a sequence of duration samples, as an unbounded integer.
pub open spec fn sum_of(s: Seq<u64>) -> int
    decreases s.len(),
{
    if s.len() == 0 {
        0
    } else {
        sum_of(s.drop_last()) + s.last()
    }
}

/// Maximum of a sequence of duration samples; 0 for the empty sequence.
pub open spec fn max_of(s: Seq<u64>) -> u64
    decreases s.len(),
{
    if s.len() == 0 {
        0
    } else if s.last() >= max_of(s.drop_last()) {
        s.last()
    } else {
        max_of(s.drop_last())
    }
}

/// Number of samples, counted from the most recent backward, needed to
/// accumulate at least `budget` microseconds of elapsed time; the whole
/// window when it does not cover the budget.
pub open spec fn budget_frame_count(s: Seq<u64>, budget: int) -> int
    decreases s.len(),
{
    if s.len() == 0 {
        0
    } else if s.last() >= budget {
        1
    } else {
        1 + budget_frame_count(s.drop_last(), budget - s.last())
    }
}

pub proof fn lemma_sum_nonneg(s: Seq<u64>)
    ensures
        sum_of(s) >= 0,
    decreases s.len(),
{
    if s.len() > 0 {
        lemma_sum_nonneg(s.drop_last());
    }
}

pub proof fn lemma_sum_bound(s: Seq<u64>)
    ensures
        sum_of(s) <= s.len() * u64::MAX,
    decreases s.len(),
{
    if s.len() > 0 {
        lemma_sum_bound(s.drop_last());
    }
}

pub proof fn lemma_sum_push(s: Seq<u64>, x: u64)
    ensures
        sum_of(s.push(x)) == sum_of(s) + x,
{
    assert(s.push(x).drop_last() =~= s);
}

/// Splitting a nonempty sequence's sum at its first element.
pub proof fn lemma_sum_first(s: Seq<u64>)
    requires
        s.len() > 0,
    ensures
        sum_of(s) == s[0] + sum_of(s.drop_first()),
    decreases s.len(),
{
    if s.len() == 1 {
        assert(s.drop_last() =~= Seq::<u64>::empty());
        assert(s.drop_first() =~= Seq::<u64>::empty());
    } else {
        lemma_sum_first(s.drop_last());
        assert(s.drop_last().drop_first() =~= s.drop_first().drop_last());
        assert(s.drop_first().last() == s.last());
    }
}

pub proof fn lemma_frame_count_bounds(s: Seq<u64>, budget: int)
    ensures
        0 <= budget_frame_count(s, budget) <= s.len(),
        s.len() > 0 ==> budget_frame_count(s, budget) >= 1,
    decreases s.len(),
{
    if s.len() > 0 && s.last() < budget {
        lemma_frame_count_bounds(s.drop_last(), budget - s.last());
    }
}

/// Short-horizon frame rate derived from the window: the samples covering
/// the budget, divided by the elapsed time they cover, rounded to the
/// nearest integer (half up); `None` while no elapsed time is covered.
pub open spec fn fps_rate_spec(s: Seq<u64>, budget_us: u64) -> Option<u128> {
    let k = budget_frame_count(s, budget_us as int);
    let e = sum_of(s.skip(s.len() - k));
    if e == 0 {
        None
    } else {
        Some(((k * 1000000 + e / 2) / e) as u128)
    }
}

/// Rolling window of the most recent frame durations, in microseconds,
/// together with a running sum that always equals the sum of the window.
pub struct FrameTimeHistory {
    /// Retained samples, oldest first.
    pub frame_times_us: VecDeque<u64>,
    /// Running sum of the retained samples.
    pub sum_us: u128,
    /// Fixed window capacity.
    pub cap: usize,
}

impl FrameTimeHistory {
    /// The retained window, oldest sample first.
    pub open spec fn window(&self) -> Seq<u64> {
        self.frame_times_us@
    }

    /// The window never exceeds its capacity and the running sum is exactly
    /// the sum of the retained samples.
    pub open spec fn wf(&self) -> bool {
        &&& self.cap >= 1
        &&& self.window().len() <= self.cap
        &&& self.sum_us as int == sum_of(self.window())
    }

    /// An empty history with the given window capacity.
    pub fn new(cap: usize) -> (r: Self)
        requires
            cap >= 1,
        ensures
            r.wf(),
            r.cap == cap,
            r.window() =~= Seq::<u64>::empty(),
    {
        FrameTimeHistory { frame_times_us: VecDeque::new(), sum_us: 0, cap }
    }

    /// How many samples are currently retained.
    pub fn len(&self) -> (r: usize)
        ensures
            r == self.window().len(),
    {
        self.frame_times_us.len()
    }

    /// Append one sample; once the window is full, the oldest sample is
    /// evicted first, so the window holds the most recent `cap` samples.
    pub fn record(&mut self, duration_us: u64)
        requires
            old(self).wf(),
        ensures
            final(self).wf(),
            final(self).cap == old(self).cap,
            final(self).window() == if old(self).window().len() < old(self).cap {
                old(self).window().push(duration_us)
            } else {
                old(self).window().drop_first().push(duration_us)
            },
    {
        proof {
            lemma_sum_nonneg(self.window());
            lemma_sum_bound(self.window());
            lemma_sum_push(self.window(), duration_us);
            assert(self.window().len() * u64::MAX <= u128::MAX - u64::MAX) by (nonlinear_arith)
                requires
                    self.window().len() <= usize::MAX,
            ;
        }
        self.frame_times_us.push_back(duration_us);
        self.sum_us = self.sum_us + duration_us as u128;
        if self.frame_times_us.len() > self.cap {
            proof {
                lemma_sum_first(self.window());
                lemma_sum_nonneg(self.window().drop_first());
            }
            let removed = self.frame_times_us.pop_front();
            match removed {
                Some(d) => {
                    self.sum_us = self.sum_us - d as u128;
                    proof {
                        assert(self.window() =~= old(self).window().drop_first().push(
                            duration_us,
                        ));
                    }
                },
                None => {},
            }
        }
    }

    /// Mean duration over the retained window, `None` when it is empty.
    pub fn average_us(&self) -> (r: Option<u64>)
        requires
            self.wf(),
        ensures
            r is Some <==> self.window().len() > 0,
            r matches Some(v) ==> v == sum_of(self.window()) / self.window().len() as int,
    {
        let len = self.frame_times_us.len();
        if len == 0 {
            None
        } else {
            proof {
                lemma_sum_nonneg(self.window());
                lemma_sum_bound(self.window());
                assert(sum_of(self.window()) / self.window().len() as int <= u64::MAX)
                    by (nonlinear_arith)
                    requires
                        self.window().len() >= 1,
                        sum_of(self.window()) <= self.window().len() * u64::MAX,
                        sum_of(self.window()) >= 0,
                ;
            }
            Some((self.sum_us / len as u128) as u64)
        }
    }

    /// Largest duration in the retained window, `None` when it is empty.
    pub fn max_us(&self) -> (r: Option<u64>)
        ensures
            r == if self.window().len() == 0 {
                None::<u64>
            } else {
                Some(max_of(self.window()))
            },
    {
        let len = self.frame_times_us.len();
        if len == 0 {
            return None;
        }
        let mut m: u64 = 0;
        let mut i: usize = 0;
        while i < len
            invariant
                i <= len,
                len == self.window().len(),
                m == max_of(self.window().take(i as int)),
            decreases len - i,
        {
            let d = self.frame_times_us[i];
            proof {
                assert(self.window().take(i + 1).drop_last() =~= self.window().take(i as int));
                assert(self.window().take(i + 1).last() == self.window()[i as int]);
            }
            if d > m {
                m = d;
            }
            i = i + 1;
        }
        proof {
            assert(self.window().take(len as int) =~= self.window());
        }
        Some(m)
    }

    /// Walk the window from the most recent sample backward, accumulating
    /// elapsed time until at least `budget_us` is covered or the window is
    /// exhausted. Returns the number of samples consumed and the elapsed
    /// time they cover.
    pub fn budget_window(&self, budget_us: u64) -> (r: (usize, u128))
        requires
            self.wf(),
        ensures
            r.0 == budget_frame_count(self.window(), budget_us as int),
            r.1 == sum_of(self.window().skip(self.window().len() - r.0)),
    {
        let len = self.frame_times_us.len();
        let ghost w = self.window();
        let mut k: usize = 0;
        let mut elapsed: u128 = 0;
        proof {
            assert(w.skip(len as int) =~= Seq::<u64>::empty());
            assert(w.take(len as int) =~= w);
        }
        while k < len
            invariant_except_break
                k <= len,
                len == w.len(),
                self.wf(),
                w == self.window(),
                elapsed == sum_of(w.skip(len - k)),
                k == 0 || elapsed < budget_us,
                budget_frame_count(w, budget_us as int) == k + budget_frame_count(
                    w.take(len - k),
                    budget_us - elapsed,
                ),
            ensures
                k <= len,
                elapsed == sum_of(w.skip(len - k)),
                budget_frame_count(w, budget_us as int) == k,
            decreases len - k,
        {
            let d = self.frame_times_us[len - 1 - k];
            proof {
                lemma_sum_nonneg(w.skip(len - k));
                let pre = w.take(len - k);
                assert(pre.len() == len - k);
                assert(pre.last() == w[len - 1 - k]);
                assert(pre.drop_last() =~= w.take(len - (k + 1)));
                assert(w.skip(len - (k + 1)).drop_first() =~= w.skip(len - k));
                assert(w.skip(len - (k + 1))[0] == w[len - 1 - k]);
                lemma_sum_first(w.skip(len - (k + 1)));
            }
            elapsed = elapsed + d as u128;
            k = k + 1;
            if elapsed >= budget_us as u128 {
                proof {
                    let pre = w.take(len - (k - 1));
                    assert(pre.last() == w[len - k]);
                    assert(pre.last() >= budget_us - (elapsed - d));
                    assert(budget_frame_count(pre, budget_us - (elapsed - d)) == 1);
                }
                break;
            }
            proof {
                let pre = w.take(len - (k - 1));
                assert(pre.last() == w[len - k]);
                assert(pre.last() < budget_us - (elapsed - d));
                assert(budget_frame_count(pre, budget_us - (elapsed - d)) == 1
                    + budget_frame_count(w.take(len - k), budget_us - elapsed));
            }
        }
        proof {
            if k == len {
                assert(w.take(0) =~= Seq::<u64>::empty());
            }
        }
        (k, elapsed)
    }

    /// Short-horizon FPS estimate: samples covering the budget divided by
    /// the elapsed time they cover, rounded half up. Degrades gracefully
    /// when the window holds less than the budget's worth of samples;
    /// `None` only while the window covers no elapsed time at all.
    pub fn fps_rate(&self, budget_us: u64) -> (r: Option<u128>)
        requires
            self.wf(),
        ensures
            r == fps_rate_spec(self.window(), budget_us),
    {
        let (frames, elapsed) = self.budget_window(budget_us);
        if elapsed == 0 {
            None
        } else {
            proof {
                lemma_frame_count_bounds(self.window(), budget_us as int);
            }
            Some((frames as u128 * 1000000 + elapsed / 2) / elapsed)
        }
    }
}

} // verus!
