//! Observability: the bounded rolling history behind the cycle-score
//! heuristic, and the normalized foraging-efficiency ratio.  The score
//! is a coarse oscillation proxy — a lagged absolute-difference
//! average, clipped to `[0, 1]` — not a spectral estimate.

use vstd::prelude::*;

verus! {

use crate::fixed::FP_ONE;
use crate::fixed::clamped;
use crate::fixed::lemma_tdiv_abs;
use crate::fixed::tdiv;

/// Samples needed before the score is meaningful.
pub const CYCLE_MIN_SAMPLES: usize = 50;

/// Largest lag window of the score.
pub const CYCLE_WINDOW: usize = 20;

/// Bound on the rolling history.
pub const HISTORY_MAX: usize = 200;

/// Sum of absolute first differences between the last sample and each
/// of the `window` lagged samples.
pub open spec fn lag_diff_sum(hist: Seq<u32>, window: int) -> int
    decreases window,
{
    if window <= 0 {
        0
    } else {
        let last = hist[hist.len() - 1] as int;
        let lagged = hist[hist.len() - 1 - window] as int;
        lag_diff_sum(hist, window - 1) + if last >= lagged {
            last - lagged
        } else {
            lagged - last
        }
    }
}

/// The cycle score of a history: zero below the sample floor, else
/// the mean lagged variation normalized by 100 and clipped to one.
pub open spec fn cycle_score_spec(hist: Seq<u32>) -> int {
    if hist.len() < CYCLE_MIN_SAMPLES {
        0
    } else {
        let window = if (hist.len() as int) / 2 < CYCLE_WINDOW {
            (hist.len() as int) / 2
        } else {
            CYCLE_WINDOW as int
        };
        let avg = tdiv(lag_diff_sum(hist, window), window);
        clamped(tdiv(avg * FP_ONE, 100), 0, FP_ONE as int)
    }
}

/// The normalized foraging efficiency: mean energy per mean speed,
/// divided by ten, clipped to one; zero when nothing moves.
pub open spec fn foraging_spec(mean_energy: int, mean_velocity: int) -> int {
    if mean_velocity > 0 {
        clamped(tdiv(tdiv(mean_energy * FP_ONE, mean_velocity), 10), 0, FP_ONE as int)
    } else {
        0
    }
}

/// Bounded rolling history of alive counts and mean energies, for the
/// cycle-score heuristic.
pub struct MetricsHistory {
    pub herbivore_history: Vec<u32>,
    pub energy_history: Vec<i64>,
    pub step_count: u32,
}

impl MetricsHistory {
    pub open spec fn wf(&self) -> bool {
        &&& self.herbivore_history@.len() <= HISTORY_MAX
        &&& self.energy_history@.len() == self.herbivore_history@.len()
    }

    pub fn new() -> (r: MetricsHistory)
        ensures
            r.wf(),
            r.herbivore_history@.len() == 0,
            r.step_count == 0,
    {
        MetricsHistory { herbivore_history: Vec::new(), energy_history: Vec::new(), step_count: 0 }
    }

    /// Number of sampled rows recorded so far.
    pub fn step_count(&self) -> (r: u32)
        ensures
            r == self.step_count,
    {
        self.step_count
    }

    /// Appends one sample, dropping the oldest entry once the bound is
    /// reached: the history never outgrows `HISTORY_MAX`.
    pub fn record(&mut self, alive: u32, mean_energy: i64)
        requires
            old(self).wf(),
            old(self).step_count < 0xffff_ffff,
        ensures
            final(self).wf(),
            final(self).step_count == old(self).step_count + 1,
            final(self).herbivore_history@ == (if old(self).herbivore_history@.len()
                < HISTORY_MAX {
                old(self).herbivore_history@.push(alive)
            } else {
                old(self).herbivore_history@.push(alive).skip(1)
            }),
    {
        self.herbivore_history.push(alive);
        self.energy_history.push(mean_energy);
        if self.herbivore_history.len() > HISTORY_MAX {
            self.herbivore_history.remove(0);
            self.energy_history.remove(0);
            proof {
                assert(self.herbivore_history@ =~= old(self).herbivore_history@.push(
                    alive,
                ).skip(1));
            }
        }
        self.step_count = self.step_count + 1;
    }

    /// The cycle score over the current history, in fixed point,
    /// always inside `[0, 1]`.
    pub fn compute_cycle_score(&self) -> (r: i64)
        requires
            self.wf(),
        ensures
            r == cycle_score_spec(self.herbivore_history@),
            0 <= r <= FP_ONE,
    {
        let n = self.herbivore_history.len();
        if n < CYCLE_MIN_SAMPLES {
            return 0;
        }
        let window: usize = if n / 2 < CYCLE_WINDOW {
            n / 2
        } else {
            CYCLE_WINDOW
        };
        let last = self.herbivore_history[n - 1];
        let mut sum: i64 = 0;
        let mut lag: usize = 0;
        while lag < window
            invariant
                self.wf(),
                n == self.herbivore_history@.len(),
                CYCLE_MIN_SAMPLES <= n,
                window <= n / 2,
                window <= CYCLE_WINDOW,
                lag <= window,
                last == self.herbivore_history@[n - 1],
                sum == lag_diff_sum(self.herbivore_history@, lag as int),
                0 <= sum <= lag * 0xffff_ffff,
            decreases window - lag,
        {
            let lagged = self.herbivore_history[n - 1 - (lag + 1)];
            let d: i64 = if last >= lagged {
                (last as i64) - (lagged as i64)
            } else {
                (lagged as i64) - (last as i64)
            };
            sum = sum + d;
            lag = lag + 1;
        }
        let avg = sum / (window as i64);
        proof {
            lemma_tdiv_abs(sum as int, window as int, sum as int);
            crate::fixed::lemma_mul_abs_bound(
                avg as int,
                FP_ONE as int,
                0x7fff_ffff_ffff,
                FP_ONE as int,
            );
            lemma_tdiv_abs(avg as int * FP_ONE as int, 100, 0x7fff_ffff_ffff * FP_ONE as int);
        }
        let scaled = crate::fixed::fp_scale(avg, FP_ONE, 100);
        crate::fixed::fp_clamp(scaled, 0, FP_ONE)
    }
}

/// Executable normalized foraging efficiency.
pub fn compute_enhanced_foraging_efficiency(mean_energy: i64, mean_velocity: i64) -> (r: i64)
    requires
        0 <= mean_energy <= crate::params::ENERGY_MAX,
        0 <= mean_velocity,
    ensures
        r == foraging_spec(mean_energy as int, mean_velocity as int),
        0 <= r <= FP_ONE,
{
    if mean_velocity > 0 {
        proof {
            crate::fixed::lemma_mul_abs_bound(
                mean_energy as int,
                FP_ONE as int,
                crate::params::ENERGY_MAX as int,
                FP_ONE as int,
            );
            lemma_tdiv_abs(
                mean_energy as int * FP_ONE as int,
                mean_velocity as int,
                crate::params::ENERGY_MAX as int * FP_ONE as int,
            );
        }
        let base = crate::fixed::fp_scale(mean_energy, FP_ONE, mean_velocity);
        let tenth = base / 10;
        proof {
            lemma_tdiv_abs(base as int, 10, base as int);
        }
        crate::fixed::fp_clamp(tenth, 0, FP_ONE)
    } else {
        0
    }
}

} // verus!
