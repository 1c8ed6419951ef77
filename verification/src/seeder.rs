//! Procedural seeder: a deterministic, seed-driven initial resource
//! field.  One central gaussian source, a handful of cluster blobs, a
//! scatter of small sources, and a gentle directional ramp, summed and
//! clamped to non-negative values.  Every random draw comes from the
//! ChaCha8 word stream, so the grid is a pure function of size and
//! seed.

use vstd::prelude::*;

verus! {

use crate::field::FieldData;
use crate::field::FieldManager;
use crate::field::cell_ok;
use crate::field::grid_wf;
use crate::fixed::FP_ONE;
use crate::fixed::clamped;
use crate::fixed::fp_clamp;
use crate::fixed::fp_scale;
use crate::fixed::isqrt;
use crate::fixed::lemma_mul_abs_bound;
use crate::fixed::lemma_sqrt_floor_bounds;
use crate::fixed::lemma_sqrt_floor_le;
use crate::fixed::lemma_tdiv_abs;
use crate::fixed::lemma_tdiv_exact;
use crate::fixed::lemma_tdiv_monotone;
use crate::fixed::lemma_tdiv_shrinks;
use crate::fixed::sqrt_floor;
use crate::fixed::tdiv;
use crate::params::CELL_MAX;
use crate::params::side_ok;
use crate::rng::chacha_stream;
use crate::rng::chacha_words;
use crate::rng::ranged;
use crate::rng::word_in_range;

/// Arguments at or above this value have a negligible falloff weight.
pub const FALLOFF_CUT: i64 = 20_000_000;

/// Fixed-point falloff weight `exp(-x)`, computed as a cubic on
/// `x / 16` squared back up four times; exact spec of the executable
/// computation below.
pub open spec fn exp_neg_spec(x: int) -> int
    recommends
        0 <= x < FALLOFF_CUT,
{
    let y = tdiv(x, 16);
    let ysq = tdiv(y * y, FP_ONE as int);
    let t2 = tdiv(ysq, 2);
    let t3 = tdiv(tdiv(ysq * y, FP_ONE as int), 6);
    let e0 = clamped(FP_ONE - y + t2 - t3, 0, FP_ONE as int);
    let e1 = tdiv(e0 * e0, FP_ONE as int);
    let e2 = tdiv(e1 * e1, FP_ONE as int);
    let e3 = tdiv(e2 * e2, FP_ONE as int);
    tdiv(e3 * e3, FP_ONE as int)
}

/// The falloff weight lies in `[0, 1]`, and is exactly 1 at 0.
pub proof fn lemma_exp_neg_bounds(x: int)
    requires
        0 <= x < FALLOFF_CUT,
    ensures
        0 <= exp_neg_spec(x) <= FP_ONE,
        x == 0 ==> exp_neg_spec(x) == FP_ONE,
{
    let y = tdiv(x, 16);
    let ysq = tdiv(y * y, FP_ONE as int);
    let t2 = tdiv(ysq, 2);
    let t3 = tdiv(tdiv(ysq * y, FP_ONE as int), 6);
    let e0 = clamped(FP_ONE - y + t2 - t3, 0, FP_ONE as int);
    lemma_sq_step(e0);
    let e1 = tdiv(e0 * e0, FP_ONE as int);
    lemma_sq_step(e1);
    let e2 = tdiv(e1 * e1, FP_ONE as int);
    lemma_sq_step(e2);
    let e3 = tdiv(e2 * e2, FP_ONE as int);
    lemma_sq_step(e3);
    if x == 0 {
        crate::fixed::lemma_tdiv_zero(16);
        assert(y == 0);
        assert(y * y == 0) by (nonlinear_arith)
            requires y == 0;
        crate::fixed::lemma_tdiv_zero(FP_ONE as int);
        crate::fixed::lemma_tdiv_zero(2);
        crate::fixed::lemma_tdiv_zero(6);
        assert(e0 == FP_ONE);
    }
}

/// One fixed-point squaring keeps `[0, 1]`, and fixes 1.
proof fn lemma_sq_step(e: int)
    requires
        0 <= e <= FP_ONE,
    ensures
        0 <= tdiv(e * e, FP_ONE as int) <= FP_ONE,
        e == FP_ONE ==> tdiv(e * e, FP_ONE as int) == FP_ONE,
{
    assert(0 <= e * e <= FP_ONE as int * FP_ONE as int) by (nonlinear_arith)
        requires 0 <= e <= FP_ONE;
    lemma_tdiv_monotone(e * e, FP_ONE as int * FP_ONE as int, FP_ONE as int);
    lemma_tdiv_monotone(0, e * e, FP_ONE as int);
    lemma_tdiv_exact(FP_ONE as int, FP_ONE as int);
}

/// Executable falloff weight.
pub fn exp_neg(x: i64) -> (r: i64)
    requires
        0 <= x < FALLOFF_CUT,
    ensures
        r == exp_neg_spec(x as int),
        0 <= r <= FP_ONE,
{
    let y = x / 16;
    proof {
        lemma_tdiv_monotone(0, x as int, 16);
        lemma_tdiv_monotone(x as int, FALLOFF_CUT as int, 16);
        lemma_mul_abs_bound(y as int, y as int, 1_250_000, 1_250_000);
        lemma_tdiv_abs(y as int * y as int, FP_ONE as int, 1_562_500_000_000);
    }
    let ysq = fp_scale(y, y, FP_ONE);
    proof {
        lemma_tdiv_monotone(0, y as int * y as int, FP_ONE as int);
        lemma_tdiv_monotone(y as int * y as int, 1_562_500_000_000, FP_ONE as int);
        lemma_mul_abs_bound(ysq as int, y as int, 1_562_500, 1_250_000);
        lemma_tdiv_abs(ysq as int * y as int, FP_ONE as int, 1_953_125_000_000);
    }
    let t2 = ysq / 2;
    let t3 = fp_scale(ysq, y, FP_ONE) / 6;
    proof {
        lemma_tdiv_abs(ysq as int, 2, 1_562_500);
        lemma_tdiv_abs(tdiv(ysq as int * y as int, FP_ONE as int), 6, 1_953_125);
    }
    let e0 = fp_clamp(FP_ONE - y + t2 - t3, 0, FP_ONE);
    proof {
        lemma_sq_step(e0 as int);
        lemma_mul_abs_bound(e0 as int, e0 as int, FP_ONE as int, FP_ONE as int);
    }
    let e1 = fp_scale(e0, e0, FP_ONE);
    proof {
        lemma_sq_step(e1 as int);
        lemma_mul_abs_bound(e1 as int, e1 as int, FP_ONE as int, FP_ONE as int);
    }
    let e2 = fp_scale(e1, e1, FP_ONE);
    proof {
        lemma_sq_step(e2 as int);
        lemma_mul_abs_bound(e2 as int, e2 as int, FP_ONE as int, FP_ONE as int);
    }
    let e3 = fp_scale(e2, e2, FP_ONE);
    proof {
        lemma_sq_step(e3 as int);
        lemma_mul_abs_bound(e3 as int, e3 as int, FP_ONE as int, FP_ONE as int);
    }
    fp_scale(e3, e3, FP_ONE)
}

/// Contribution of one gaussian source with amplitude `amp` and squared
/// width `sig2` (in millionths of a squared pixel) at pixel offset
/// `(dx, dy)` from its center.
pub open spec fn gauss_spec(dx: int, dy: int, amp: int, sig2: int) -> int
    recommends
        2_250_000 <= sig2,
        0 <= amp <= FP_ONE,
{
    let d2 = dx * dx + dy * dy;
    let r2 = tdiv(d2 * FP_ONE * FP_ONE, 2 * sig2);
    if r2 >= FALLOFF_CUT {
        0
    } else {
        tdiv(amp * exp_neg_spec(r2), FP_ONE as int)
    }
}

/// A gaussian contribution is between 0 and its amplitude, and exactly
/// the amplitude at its center.
pub proof fn lemma_gauss_bounds(dx: int, dy: int, amp: int, sig2: int)
    requires
        -4096 <= dx <= 4096,
        -4096 <= dy <= 4096,
        2_250_000 <= sig2 <= 82_208_358_400,
        0 <= amp <= FP_ONE,
    ensures
        0 <= gauss_spec(dx, dy, amp, sig2) <= amp,
        dx == 0 && dy == 0 ==> gauss_spec(dx, dy, amp, sig2) == amp,
{
    assert(0 <= dx * dx <= 16_777_216 && 0 <= dy * dy <= 16_777_216) by (nonlinear_arith)
        requires -4096 <= dx <= 4096, -4096 <= dy <= 4096;
    let d2 = dx * dx + dy * dy;
    let p = d2 * FP_ONE * FP_ONE;
    let r2 = tdiv(p, 2 * sig2);
    lemma_tdiv_monotone(0, p, 2 * sig2);
    crate::fixed::lemma_tdiv_zero(2 * sig2);
    if r2 < FALLOFF_CUT {
        lemma_exp_neg_bounds(r2);
        let e = exp_neg_spec(r2);
        assert(0 <= amp * e <= amp * FP_ONE) by (nonlinear_arith)
            requires 0 <= amp, 0 <= e <= FP_ONE;
        lemma_tdiv_monotone(0, amp * e, FP_ONE as int);
        lemma_tdiv_monotone(amp * e, amp * FP_ONE, FP_ONE as int);
        lemma_tdiv_exact(amp, FP_ONE as int);
    }
    if dx == 0 && dy == 0 {
        assert(p == 0);
        lemma_exp_neg_bounds(0);
        lemma_tdiv_exact(amp, FP_ONE as int);
        assert(amp * FP_ONE == amp * (FP_ONE as int));
    }
}

/// Executable gaussian contribution.
pub fn gauss_at(dx: i64, dy: i64, amp: i64, sig2: i64) -> (r: i64)
    requires
        -4096 <= dx <= 4096,
        -4096 <= dy <= 4096,
        2_250_000 <= sig2 <= 82_208_358_400,
        0 <= amp <= FP_ONE,
    ensures
        r == gauss_spec(dx as int, dy as int, amp as int, sig2 as int),
        0 <= r <= amp,
{
    proof {
        assert(0 <= dx * dx <= 16_777_216 && 0 <= dy * dy <= 16_777_216) by (nonlinear_arith)
            requires -4096 <= dx <= 4096, -4096 <= dy <= 4096;
    }
    let d2 = dx * dx + dy * dy;
    let a = d2 * FP_ONE;
    proof {
        assert(a as int * FP_ONE as int <= 7_456_540_749_511int * 4_500_000)
            by (nonlinear_arith)
            requires 0 <= (a as int) <= 33_554_432_000_000;
        assert(a as int * FP_ONE as int >= 0) by (nonlinear_arith)
            requires 0 <= (a as int);
        lemma_tdiv_shrinks(a as int * FP_ONE as int, 2 * sig2 as int, 4_500_000, 7_456_540_749_511);
    }
    let r2 = fp_scale(a, FP_ONE, 2 * sig2);
    proof {
        lemma_gauss_bounds(dx as int, dy as int, amp as int, sig2 as int);
    }
    if r2 >= FALLOFF_CUT {
        0
    } else {
        let e = exp_neg(r2);
        proof {
            lemma_mul_abs_bound(amp as int, e as int, FP_ONE as int, FP_ONE as int);
            lemma_tdiv_abs(amp as int * e as int, FP_ONE as int, FP_ONE as int * FP_ONE as int);
        }
        fp_scale(amp, e, FP_ONE)
    }
}

/// Smaller of the two grid sides.
pub open spec fn min_dim(w: int, h: int) -> int {
    if w < h {
        w
    } else {
        h
    }
}

/// Number of cluster blobs: 4 on small worlds, 8 on large ones.
pub open spec fn cluster_count(md: int) -> int {
    if md < 192 {
        4
    } else {
        8
    }
}

/// Number of small scattered sources: 8 on small worlds, 15 on large.
pub open spec fn scatter_count(md: int) -> int {
    if md < 192 {
        8
    } else {
        15
    }
}

/// Random words one seeding pass consumes: three per blob, two for the
/// ramp direction.
pub open spec fn words_for(md: int) -> int {
    3 * (cluster_count(md) + scatter_count(md)) + 2
}

/// Squared source width: `pct` thousandths of the smaller side, with a
/// floor, in milli-pixels, squared.
pub open spec fn sigma2_of(md: int, pct: int, floor_milli: int) -> int {
    let s = if md * pct > floor_milli {
        md * pct
    } else {
        floor_milli
    };
    s * s
}

pub proof fn lemma_sigma2_bounds(md: int, pct: int, floor_milli: int)
    by (nonlinear_arith)
    requires
        32 <= md <= 4096,
        1 <= pct <= 70,
        1500 <= floor_milli <= 2000,
    ensures
        2_250_000 <= sigma2_of(md, pct, floor_milli) <= 82_208_358_400,
{
}

/// Executable squared source width.
pub fn sigma2_px(md: u32, pct: i64, floor_milli: i64) -> (r: i64)
    requires
        32 <= md <= 4096,
        1 <= pct <= 70,
        1500 <= floor_milli <= 2000,
    ensures
        r == sigma2_of(md as int, pct as int, floor_milli as int),
        2_250_000 <= r <= 82_208_358_400,
{
    proof {
        lemma_sigma2_bounds(md as int, pct as int, floor_milli as int);
        lemma_mul_abs_bound(md as int, pct as int, 4096, 70);
    }
    let s0 = (md as i64) * pct;
    let s = if s0 > floor_milli {
        s0
    } else {
        floor_milli
    };
    proof {
        lemma_mul_abs_bound(s as int, s as int, 286_720, 286_720);
    }
    s * s
}

/// Percent span of a side, in pixels: `[lo, hi)`, replaced by a two
/// pixel window around the middle if it would be empty.
pub open spec fn span_of(size: int, lo_pct: int, hi_pct: int) -> (int, int) {
    let lo = size * lo_pct / 100;
    let hi = size * hi_pct / 100;
    if hi <= lo {
        (size / 2 - 1, size / 2 + 1)
    } else {
        (lo, hi)
    }
}

pub proof fn lemma_span_bounds(size: int, lo_pct: int, hi_pct: int)
    requires
        32 <= size <= 4096,
        0 <= lo_pct,
        hi_pct <= 100,
    ensures
        0 <= span_of(size, lo_pct, hi_pct).0,
        span_of(size, lo_pct, hi_pct).0 < span_of(size, lo_pct, hi_pct).1,
        span_of(size, lo_pct, hi_pct).1 <= size,
{
    let lo = size * lo_pct / 100;
    let hi = size * hi_pct / 100;
    assert(0 <= size * lo_pct && size * hi_pct <= size * 100) by (nonlinear_arith)
        requires 0 <= lo_pct, hi_pct <= 100, 0 <= size;
    vstd::arithmetic::div_mod::lemma_div_pos_is_pos(size * lo_pct, 100);
    vstd::arithmetic::div_mod::lemma_div_is_ordered(size * hi_pct, size * 100, 100);
    vstd::arithmetic::div_mod::lemma_div_by_multiple(size, 100);
}

/// Executable percent span.
pub fn span_px(size: u32, lo_pct: i64, hi_pct: i64) -> (r: (i64, i64))
    requires
        32 <= size <= 4096,
        0 <= lo_pct <= 100,
        0 <= hi_pct <= 100,
    ensures
        (r.0 as int, r.1 as int) == span_of(size as int, lo_pct as int, hi_pct as int),
        0 <= r.0 < r.1 <= size,
{
    proof {
        lemma_span_bounds(size as int, lo_pct as int, hi_pct as int);
        lemma_mul_abs_bound(size as int, lo_pct as int, 4096, 100);
        lemma_mul_abs_bound(size as int, hi_pct as int, 4096, 100);
        vstd::arithmetic::div_mod::lemma_div_pos_is_pos((size as int) * (lo_pct as int), 100);
        vstd::arithmetic::div_mod::lemma_div_pos_is_pos((size as int) * (hi_pct as int), 100);
        lemma_tdiv_abs((size as int) * (lo_pct as int), 100, 409_600);
        lemma_tdiv_abs((size as int) * (hi_pct as int), 100, 409_600);
    }
    let lo = (size as i64) * lo_pct / 100;
    let hi = (size as i64) * hi_pct / 100;
    if hi <= lo {
        ((size / 2) as i64 - 1, (size / 2) as i64 + 1)
    } else {
        (lo, hi)
    }
}

/// Contribution of the `j`-th cluster blob at cell `(x, y)`.
pub open spec fn cluster_term(w: int, h: int, words: Seq<u64>, x: int, y: int, j: int) -> int {
    let xs = span_of(w, 15, 85);
    let ys = span_of(h, 15, 85);
    let cx = ranged(words[3 * j], xs.0, xs.1);
    let cy = ranged(words[3 * j + 1], ys.0, ys.1);
    let amp = ranged(words[3 * j + 2], 300_000, 700_000);
    gauss_spec(x - cx, y - cy, amp, sigma2_of(min_dim(w, h), 50, 2000))
}

/// Sum of the first `k` cluster contributions.
pub open spec fn cluster_sum(w: int, h: int, words: Seq<u64>, x: int, y: int, k: int) -> int
    decreases k,
{
    if k <= 0 {
        0
    } else {
        cluster_sum(w, h, words, x, y, k - 1) + cluster_term(w, h, words, x, y, k - 1)
    }
}

/// Contribution of the `j`-th scattered source at cell `(x, y)`.
pub open spec fn scatter_term(w: int, h: int, words: Seq<u64>, x: int, y: int, j: int) -> int {
    let base = 3 * cluster_count(min_dim(w, h));
    let xs = span_of(w, 5, 95);
    let ys = span_of(h, 5, 95);
    let cx = ranged(words[base + 3 * j], xs.0, xs.1);
    let cy = ranged(words[base + 3 * j + 1], ys.0, ys.1);
    let amp = ranged(words[base + 3 * j + 2], 200_000, 500_000);
    gauss_spec(x - cx, y - cy, amp, sigma2_of(min_dim(w, h), 20, 1500))
}

/// Sum of the first `k` scattered contributions.
pub open spec fn scatter_sum(w: int, h: int, words: Seq<u64>, x: int, y: int, k: int) -> int
    decreases k,
{
    if k <= 0 {
        0
    } else {
        scatter_sum(w, h, words, x, y, k - 1) + scatter_term(w, h, words, x, y, k - 1)
    }
}

/// Ramp direction in milli-units, never the zero vector.
pub open spec fn ramp_dir(words: Seq<u64>, base: int) -> (int, int) {
    let rx = ranged(words[base], -1000, 1001);
    let ry = ranged(words[base + 1], -1000, 1001);
    if rx == 0 && ry == 0 {
        (1000, 0)
    } else {
        (rx, ry)
    }
}

/// The gentle directional ramp at cell `(x, y)`: the projection on a
/// random direction, normalized by the smaller side, clamped to a half
/// unit either way, at 15 percent of the primary amplitude.
pub open spec fn ramp_term(w: int, h: int, words: Seq<u64>, x: int, y: int) -> int {
    let base = 3 * (cluster_count(min_dim(w, h)) + scatter_count(min_dim(w, h)));
    let d = ramp_dir(words, base);
    let norm = sqrt_floor(d.0 * d.0 + d.1 * d.1);
    let proj = (x - w / 2) * d.0 + (y - h / 2) * d.1;
    let factor = clamped(tdiv(proj * FP_ONE, min_dim(w, h) * norm), -500_000, 500_000);
    tdiv(factor * 120_000, FP_ONE as int)
}

/// Value of the seeded grid at cell `(x, y)`: the summed sources and
/// ramp, clamped to the representable non-negative band.
pub open spec fn seeded_cell(w: int, h: int, words: Seq<u64>, x: int, y: int) -> FieldData {
    let md = min_dim(w, h);
    let primary = gauss_spec(x - w / 2, y - h / 2, 800_000, sigma2_of(md, 70, 2000));
    let cl = cluster_sum(w, h, words, x, y, cluster_count(md));
    let sc = scatter_sum(w, h, words, x, y, scatter_count(md));
    let rp = ramp_term(w, h, words, x, y);
    FieldData { R: clamped(primary + cl + sc + rp, 0, CELL_MAX as int) as i64, W: 0 }
}

/// The whole seeded grid for a given size and seed: a pure function of
/// both, with the random words drawn from the ChaCha8 stream.
pub open spec fn seed_grid(w: int, h: int, seed: u64) -> Seq<FieldData> {
    let words = chacha_stream(seed, words_for(min_dim(w, h)));
    Seq::new((w * h) as nat, |i: int| seeded_cell(w, h, words, i % w, i / w))
}

/// Each cluster contribution is a bounded gaussian.
pub proof fn lemma_cluster_term_bounds(w: int, h: int, words: Seq<u64>, x: int, y: int, j: int)
    requires
        side_ok(w),
        side_ok(h),
        0 <= x < w,
        0 <= y < h,
    ensures
        0 <= cluster_term(w, h, words, x, y, j) <= 700_000,
{
    lemma_span_bounds(w, 15, 85);
    lemma_span_bounds(h, 15, 85);
    let xs = span_of(w, 15, 85);
    let ys = span_of(h, 15, 85);
    crate::rng::lemma_ranged_bounds(words[3 * j], xs.0, xs.1);
    crate::rng::lemma_ranged_bounds(words[3 * j + 1], ys.0, ys.1);
    crate::rng::lemma_ranged_bounds(words[3 * j + 2], 300_000, 700_000);
    lemma_sigma2_bounds(min_dim(w, h), 50, 2000);
    lemma_gauss_bounds(
        x - ranged(words[3 * j], xs.0, xs.1),
        y - ranged(words[3 * j + 1], ys.0, ys.1),
        ranged(words[3 * j + 2], 300_000, 700_000),
        sigma2_of(min_dim(w, h), 50, 2000),
    );
}

/// The cluster sum is non-negative and at most `k` amplitudes.
pub proof fn lemma_cluster_sum_bounds(w: int, h: int, words: Seq<u64>, x: int, y: int, k: int)
    requires
        side_ok(w),
        side_ok(h),
        0 <= x < w,
        0 <= y < h,
        0 <= k,
    ensures
        0 <= cluster_sum(w, h, words, x, y, k) <= k * 700_000,
    decreases k,
{
    if k > 0 {
        lemma_cluster_sum_bounds(w, h, words, x, y, k - 1);
        lemma_cluster_term_bounds(w, h, words, x, y, k - 1);
    }
}

/// Each scattered contribution is a bounded gaussian.
pub proof fn lemma_scatter_term_bounds(w: int, h: int, words: Seq<u64>, x: int, y: int, j: int)
    requires
        side_ok(w),
        side_ok(h),
        0 <= x < w,
        0 <= y < h,
    ensures
        0 <= scatter_term(w, h, words, x, y, j) <= 500_000,
{
    let base = 3 * cluster_count(min_dim(w, h));
    lemma_span_bounds(w, 5, 95);
    lemma_span_bounds(h, 5, 95);
    let xs = span_of(w, 5, 95);
    let ys = span_of(h, 5, 95);
    crate::rng::lemma_ranged_bounds(words[base + 3 * j], xs.0, xs.1);
    crate::rng::lemma_ranged_bounds(words[base + 3 * j + 1], ys.0, ys.1);
    crate::rng::lemma_ranged_bounds(words[base + 3 * j + 2], 200_000, 500_000);
    lemma_sigma2_bounds(min_dim(w, h), 20, 1500);
    lemma_gauss_bounds(
        x - ranged(words[base + 3 * j], xs.0, xs.1),
        y - ranged(words[base + 3 * j + 1], ys.0, ys.1),
        ranged(words[base + 3 * j + 2], 200_000, 500_000),
        sigma2_of(min_dim(w, h), 20, 1500),
    );
}

/// The scatter sum is non-negative and at most `k` amplitudes.
pub proof fn lemma_scatter_sum_bounds(w: int, h: int, words: Seq<u64>, x: int, y: int, k: int)
    requires
        side_ok(w),
        side_ok(h),
        0 <= x < w,
        0 <= y < h,
        0 <= k,
    ensures
        0 <= scatter_sum(w, h, words, x, y, k) <= k * 500_000,
    decreases k,
{
    if k > 0 {
        lemma_scatter_sum_bounds(w, h, words, x, y, k - 1);
        lemma_scatter_term_bounds(w, h, words, x, y, k - 1);
    }
}

/// The ramp moves a cell by at most 0.06 either way.
pub proof fn lemma_ramp_bounds(w: int, h: int, words: Seq<u64>, x: int, y: int)
    requires
        side_ok(w),
        side_ok(h),
    ensures
        -60_000 <= ramp_term(w, h, words, x, y) <= 60_000,
{
    let base = 3 * (cluster_count(min_dim(w, h)) + scatter_count(min_dim(w, h)));
    crate::rng::lemma_ranged_bounds(words[base], -1000, 1001);
    crate::rng::lemma_ranged_bounds(words[base + 1], -1000, 1001);
    let d = ramp_dir(words, base);
    let factor = clamped(
        tdiv((x - w / 2) * d.0 + (y - h / 2) * d.1, min_dim(w, h) * sqrt_floor(
            d.0 * d.0 + d.1 * d.1,
        )),
        -500_000,
        500_000,
    );
    let f = clamped(
        tdiv(((x - w / 2) * d.0 + (y - h / 2) * d.1) * FP_ONE, min_dim(w, h) * sqrt_floor(
            d.0 * d.0 + d.1 * d.1,
        )),
        -500_000,
        500_000,
    );
    lemma_mul_abs_bound(f, 120_000, 500_000, 120_000);
    lemma_tdiv_monotone(f * 120_000, 500_000int * 120_000, FP_ONE as int);
    lemma_tdiv_monotone((-500_000int) * 120_000, f * 120_000, FP_ONE as int);
    lemma_tdiv_exact(60_000, FP_ONE as int);
    lemma_tdiv_exact(-60_000, FP_ONE as int);
    assert(60_000 * (FP_ONE as int) == 500_000 * 120_000int);
    assert((-60_000) * (FP_ONE as int) == (-500_000) * 120_000int);
}

/// The summed cluster contributions at one cell.
#[verifier::loop_isolation(false)]
fn cluster_pass(width: u32, height: u32, words: &Vec<u64>, x: u32, y: u32) -> (r: i64)
    requires
        side_ok(width as int),
        side_ok(height as int),
        x < width,
        y < height,
        words@.len() == words_for(min_dim(width as int, height as int)),
    ensures
        r == cluster_sum(
            width as int,
            height as int,
            words@,
            x as int,
            y as int,
            cluster_count(min_dim(width as int, height as int)),
        ),
        0 <= r <= 5_600_000,
{
    let md: u32 = if width < height {
        width
    } else {
        height
    };
    let nc: usize = if md < 192 {
        4
    } else {
        8
    };
    let xs = span_px(width, 15, 85);
    let ys = span_px(height, 15, 85);
    let sig2 = sigma2_px(md, 50, 2000);
    let xi = x as i64;
    let yi = y as i64;
    let mut acc: i64 = 0;
    let mut j: usize = 0;
    while j < nc
        invariant
            j <= nc,
            acc == cluster_sum(width as int, height as int, words@, xi as int, yi as int, j as int),
            0 <= acc <= j * 700_000,
        decreases nc - j,
    {
        let cxj = word_in_range(words[3 * j], xs.0, xs.1);
        let cyj = word_in_range(words[3 * j + 1], ys.0, ys.1);
        let ampj = word_in_range(words[3 * j + 2], 300_000, 700_000);
        let g = gauss_at(xi - cxj, yi - cyj, ampj, sig2);
        acc = acc + g;
        j = j + 1;
    }
    acc
}

/// The summed scattered contributions at one cell.
#[verifier::loop_isolation(false)]
fn scatter_pass(width: u32, height: u32, words: &Vec<u64>, x: u32, y: u32) -> (r: i64)
    requires
        side_ok(width as int),
        side_ok(height as int),
        x < width,
        y < height,
        words@.len() == words_for(min_dim(width as int, height as int)),
    ensures
        r == scatter_sum(
            width as int,
            height as int,
            words@,
            x as int,
            y as int,
            scatter_count(min_dim(width as int, height as int)),
        ),
        0 <= r <= 7_500_000,
{
    let md: u32 = if width < height {
        width
    } else {
        height
    };
    let nc: usize = if md < 192 {
        4
    } else {
        8
    };
    let ns: usize = if md < 192 {
        8
    } else {
        15
    };
    let xs = span_px(width, 5, 95);
    let ys = span_px(height, 5, 95);
    let sig2 = sigma2_px(md, 20, 1500);
    let xi = x as i64;
    let yi = y as i64;
    let mut acc: i64 = 0;
    let mut j: usize = 0;
    while j < ns
        invariant
            j <= ns,
            acc == scatter_sum(width as int, height as int, words@, xi as int, yi as int, j as int),
            0 <= acc <= j * 500_000,
        decreases ns - j,
    {
        let cxj = word_in_range(words[3 * nc + 3 * j], xs.0, xs.1);
        let cyj = word_in_range(words[3 * nc + 3 * j + 1], ys.0, ys.1);
        let ampj = word_in_range(words[3 * nc + 3 * j + 2], 200_000, 500_000);
        let g = gauss_at(xi - cxj, yi - cyj, ampj, sig2);
        acc = acc + g;
        j = j + 1;
    }
    acc
}

/// The directional ramp contribution at one cell.
fn ramp_at(width: u32, height: u32, words: &Vec<u64>, x: u32, y: u32) -> (r: i64)
    requires
        side_ok(width as int),
        side_ok(height as int),
        x < width,
        y < height,
        words@.len() == words_for(min_dim(width as int, height as int)),
    ensures
        r == ramp_term(width as int, height as int, words@, x as int, y as int),
        -60_000 <= r <= 60_000,
{
    let md: u32 = if width < height {
        width
    } else {
        height
    };
    let base: usize = if md < 192 {
        36
    } else {
        69
    };
    let rx = word_in_range(words[base], -1000, 1001);
    let ry = word_in_range(words[base + 1], -1000, 1001);
    let dirx: i64 = if rx == 0 && ry == 0 {
        1000
    } else {
        rx
    };
    let diry: i64 = if rx == 0 && ry == 0 {
        0
    } else {
        ry
    };
    proof {
        assert((dirx as int, diry as int) == ramp_dir(words@, base as int));
        assert(0 <= dirx * dirx <= 1_000_000 && 0 <= diry * diry <= 1_000_000)
            by (nonlinear_arith)
            requires
                -1000 <= dirx <= 1000,
                -1000 <= diry <= 1000;
        assert(1 <= dirx * dirx + diry * diry) by (nonlinear_arith)
            requires
                -1000 <= dirx <= 1000,
                -1000 <= diry <= 1000,
                !(dirx == 0 && diry == 0);
    }
    let d2dir = dirx * dirx + diry * diry;
    let norm64 = isqrt(d2dir as u128);
    proof {
        lemma_sqrt_floor_bounds(d2dir as int);
        lemma_sqrt_floor_le(d2dir as int, 1415);
        crate::fixed::lemma_sqrt_floor_pos(d2dir as int);
    }
    let norm = norm64 as i64;
    let cx0 = (width / 2) as i64;
    let cy0 = (height / 2) as i64;
    proof {
        assert(32 <= (md as int) * (norm as int) <= 5_795_840) by (nonlinear_arith)
            requires
                32 <= (md as int) <= 4096,
                1 <= (norm as int) <= 1415;
    }
    let mdiv = (md as i64) * norm;
    let xi = x as i64;
    let yi = y as i64;
    proof {
        lemma_mul_abs_bound((xi - cx0) as int, dirx as int, 4096, 1000);
        lemma_mul_abs_bound((yi - cy0) as int, diry as int, 4096, 1000);
    }
    let proj = (xi - cx0) * dirx + (yi - cy0) * diry;
    proof {
        lemma_mul_abs_bound(proj as int, FP_ONE as int, 8_192_000, FP_ONE as int);
        lemma_tdiv_shrinks(proj as int * FP_ONE as int, mdiv as int, 32, 256_000_000_000);
    }
    let praw = fp_scale(proj, FP_ONE, mdiv);
    let factor = fp_clamp(praw, -500_000, 500_000);
    proof {
        lemma_mul_abs_bound(factor as int, 120_000, 500_000, 120_000);
        lemma_tdiv_abs(factor as int * 120_000, FP_ONE as int, 60_000_000_000);
        lemma_ramp_bounds(width as int, height as int, words@, xi as int, yi as int);
    }
    fp_scale(factor, 120_000, FP_ONE)
}

/// Value of one seeded cell, computed from the word stream.
pub fn seeded_cell_at(width: u32, height: u32, words: &Vec<u64>, x: u32, y: u32) -> (r: FieldData)
    requires
        side_ok(width as int),
        side_ok(height as int),
        x < width,
        y < height,
        words@.len() == words_for(min_dim(width as int, height as int)),
    ensures
        r == seeded_cell(width as int, height as int, words@, x as int, y as int),
        cell_ok(r),
{
    let md: u32 = if width < height {
        width
    } else {
        height
    };
    let sig2_p = sigma2_px(md, 70, 2000);
    let cx0 = (width / 2) as i64;
    let cy0 = (height / 2) as i64;
    let xi = x as i64;
    let yi = y as i64;
    let primary = gauss_at(xi - cx0, yi - cy0, 800_000, sig2_p);
    let cl = cluster_pass(width, height, words, x, y);
    let sc = scatter_pass(width, height, words, x, y);
    let rv = ramp_at(width, height, words, x, y);
    let val = fp_clamp(primary + cl + sc + rv, 0, CELL_MAX);
    FieldData { R: val, W: 0 }
}

/// Builds the seeded grid for a given size and seed.
pub fn seeded_grid(width: u32, height: u32, seed: u64) -> (r: Vec<FieldData>)
    requires
        side_ok(width as int),
        side_ok(height as int),
    ensures
        r@ == seed_grid(width as int, height as int, seed),
        grid_wf(r@, width as int, height as int),
{
    let md: u32 = if width < height {
        width
    } else {
        height
    };
    let nw: usize = if md < 192 {
        38
    } else {
        71
    };
    let words = chacha_words(seed, nw);
    proof {
        crate::field::lemma_flat_index_in_range(
            (width - 1) as int,
            (height - 1) as int,
            width as int,
            height as int,
        );
    }
    let n: usize = (width as usize) * (height as usize);
    let mut out: Vec<FieldData> = Vec::new();
    let mut i: usize = 0;
    while i < n
        invariant
            side_ok(width as int),
            side_ok(height as int),
            n == (width as int) * (height as int),
            n <= 16_777_216,
            words@ == chacha_stream(seed, words_for(min_dim(width as int, height as int))),
            words@.len() == words_for(min_dim(width as int, height as int)),
            out@.len() == i,
            i <= n,
            forall|k: int|
                0 <= k < i ==> #[trigger] out@[k] == seeded_cell(
                    width as int,
                    height as int,
                    words@,
                    k % (width as int),
                    k / (width as int),
                ) && cell_ok(out@[k]),
        decreases n - i,
    {
        let w_us = width as usize;
        let x = i % w_us;
        let y = i / w_us;
        proof {
            vstd::arithmetic::div_mod::lemma_mod_bound(i as int, w_us as int);
            vstd::arithmetic::div_mod::lemma_fundamental_div_mod(i as int, w_us as int);
            vstd::arithmetic::div_mod::lemma_div_pos_is_pos(i as int, w_us as int);
            assert((y as int) < height as int) by (nonlinear_arith)
                requires
                    (i as int) == (w_us as int) * (y as int) + (x as int),
                    0 <= (x as int) < (w_us as int),
                    (i as int) < (w_us as int) * (height as int),
                    (w_us as int) >= 1,
                    0 <= (y as int);
        }
        let c = seeded_cell_at(width, height, &words, x as u32, y as u32);
        out.push(c);
        i = i + 1;
    }
    proof {
        assert(out@ =~= seed_grid(width as int, height as int, seed));
    }
    out
}

impl FieldManager {
    /// Replaces the grid contents with the seeded initial resource
    /// field: a pure function of grid size and seed.
    pub fn seed_resources(&mut self, seed: u64)
        requires
            old(self).wf(),
        ensures
            final(self).wf(),
            final(self).width == old(self).width && final(self).height == old(self).height,
            final(self).stats == old(self).stats,
            final(self).data@ == seed_grid(old(self).width as int, old(self).height as int, seed),
    {
        let g = seeded_grid(self.width, self.height, seed);
        self.data = g;
    }

    /// Adds bounded uniform noise to the resource component, clamped
    /// back into the representable band; a no-op for `sigma <= 0`.
    pub fn add_noise(&mut self, sigma: i64, seed: u64)
        requires
            old(self).wf(),
            sigma <= FP_ONE,
        ensures
            final(self).wf(),
            final(self).width == old(self).width && final(self).height == old(self).height,
            final(self).stats == old(self).stats,
            sigma <= 0 ==> final(self).data@ == old(self).data@,
            sigma > 0 ==> final(self).data@ == noised_grid(
                old(self).data@,
                chacha_stream(seed, old(self).data@.len() as int),
                sigma as int,
            ),
    {
        if sigma <= 0 {
            return ;
        }
        let n = self.data.len();
        let words = chacha_words(seed, n);
        let mut out: Vec<FieldData> = Vec::new();
        let mut i: usize = 0;
        while i < n
            invariant
                0 < sigma <= FP_ONE,
                n == self.data@.len(),
                words@.len() == n,
                words@ == chacha_stream(seed, n as int),
                self.data@ == old(self).data@,
                grid_wf(self.data@, self.width as int, self.height as int),
                out@.len() == i,
                i <= n,
                forall|k: int|
                    0 <= k < i ==> #[trigger] out@[k] == noised_cell(
                        old(self).data@[k],
                        words@[k],
                        sigma as int,
                    ),
            decreases n - i,
        {
            let c = self.data[i];
            let noise = word_in_range(words[i], -sigma, sigma);
            let val = fp_clamp(c.R + noise, 0, CELL_MAX);
            out.push(FieldData { R: val, W: c.W });
            i = i + 1;
        }
        self.data = out;
        proof {
            assert(self.data@ =~= noised_grid(
                old(self).data@,
                chacha_stream(seed, old(self).data@.len() as int),
                sigma as int,
            ));
            assert(forall|k: int|
                0 <= k < self.data@.len() ==> cell_ok(#[trigger] self.data@[k]));
        }
    }
}

/// One cell with bounded noise added to its resource and clamped.
pub open spec fn noised_cell(c: FieldData, word: u64, sigma: int) -> FieldData
    recommends
        sigma > 0,
{
    FieldData { R: clamped(c.R + ranged(word, -sigma, sigma), 0, CELL_MAX as int) as i64, W: c.W }
}

/// The whole grid with per-cell noise.
pub open spec fn noised_grid(cells: Seq<FieldData>, words: Seq<u64>, sigma: int) -> Seq<FieldData> {
    Seq::new(cells.len(), |i: int| noised_cell(cells[i], words[i], sigma))
}

/// Seeding is deterministic: two grids seeded with the same size and
/// seed are identical, cell for cell.
pub proof fn lemma_seed_deterministic(
    w: int,
    h: int,
    seed: u64,
    g1: Seq<FieldData>,
    g2: Seq<FieldData>,
)
    requires
        g1 == seed_grid(w, h, seed),
        g2 == seed_grid(w, h, seed),
    ensures
        g1 == g2,
{
}

/// The seeded central cell holds at least the primary amplitude less
/// the worst-case ramp: strictly positive resource at the center, and
/// with it at least one strictly positive cell in every seeded grid.
pub proof fn lemma_seed_center_positive(w: int, h: int, seed: u64)
    requires
        side_ok(w),
        side_ok(h),
    ensures
        0 <= h / 2 * w + w / 2 < seed_grid(w, h, seed).len(),
        seed_grid(w, h, seed)[h / 2 * w + w / 2].R >= 740_000,
{
    let words = chacha_stream(seed, words_for(min_dim(w, h)));
    let x = w / 2;
    let y = h / 2;
    vstd::arithmetic::div_mod::lemma_div_pos_is_pos(w, 2);
    vstd::arithmetic::div_mod::lemma_div_pos_is_pos(h, 2);
    vstd::arithmetic::div_mod::lemma_div_is_ordered(w, 2 * w, 2);
    assert(w / 2 < w && h / 2 < h) by {
        vstd::arithmetic::div_mod::lemma_div_is_strictly_smaller(w, 2);
        vstd::arithmetic::div_mod::lemma_div_is_strictly_smaller(h, 2);
    }
    crate::field::lemma_flat_index_in_range(x, y, w, h);
    let i = y * w + x;
    vstd::arithmetic::div_mod::lemma_fundamental_div_mod_converse(i, w, y, x);
    lemma_sigma2_bounds(min_dim(w, h), 70, 2000);
    lemma_gauss_bounds(x - w / 2, y - h / 2, 800_000, sigma2_of(min_dim(w, h), 70, 2000));
    lemma_cluster_sum_bounds(w, h, words, x, y, cluster_count(min_dim(w, h)));
    lemma_scatter_sum_bounds(w, h, words, x, y, scatter_count(min_dim(w, h)));
    lemma_ramp_bounds(w, h, words, x, y);
}

} // verus!
