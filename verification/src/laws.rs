//! Grid- and population-level consequences of the kernel laws: the
//! degenerate-parameter regimes in which the reaction-diffusion step
//! provably grows, spreads or shrinks the resource, and in which
//! damping provably slows every agent.

use vstd::prelude::*;

verus! {

use crate::field::FieldData;
use crate::field::grid_wf;
use crate::field::max_r;
use crate::field::min_r;
use crate::field::sum_r;
use crate::fixed::FP_ONE;
use crate::fixed::lemma_tdiv_exact;
use crate::fixed::lemma_tdiv_monotone;
use crate::fixed::lemma_tdiv_zero;
use crate::fixed::tdiv;
use crate::kernels::rd_cell_spec;
use crate::params::AGENTS_MAX;
use crate::params::CELL_MAX;
use crate::params::H_SCALE;
use crate::params::RDParams;
use crate::params::rd_params_wf;

/// The grid one reaction-diffusion pass produces.
pub open spec fn rd_grid_spec(cells: Seq<FieldData>, occ: Seq<u32>, p: RDParams) -> Seq<FieldData> {
    Seq::new(cells.len(), |i: int| rd_cell_spec(cells, occ, p, i))
}

/// A configuration with neither diffusion, decay nor uptake of the
/// resource: only replenishment acts on `R`.
pub open spec fn reaction_only(p: RDParams) -> bool {
    &&& p.D_R == 0
    &&& p.lambda_R == 0
    &&& p.alpha_H == 0
}

/// A configuration in which only diffusion acts on the resource.
pub open spec fn diffusion_only(p: RDParams) -> bool {
    &&& p.sigma_R == 0
    &&& p.lambda_R == 0
    &&& p.alpha_H == 0
}

/// A configuration with no replenishment and no resource diffusion:
/// only uptake and decay act on `R`.
pub open spec fn uptake_only(p: RDParams) -> bool {
    &&& p.sigma_R == 0
    &&& p.D_R == 0
}

/// The replenishment a cell at or below half capacity receives.
pub open spec fn repl_floor(p: RDParams) -> int {
    tdiv(tdiv(p.sigma_R * (FP_ONE as int / 2), FP_ONE as int) * p.dt, FP_ONE as int)
}

/// The uptake factor a singly-occupied cell sees.
pub open spec fn uptake_floor(p: RDParams) -> int {
    let f1 = tdiv(tdiv(p.alpha_H * (H_SCALE as int), FP_ONE as int) * p.dt, FP_ONE as int);
    if f1 > FP_ONE {
        FP_ONE as int
    } else {
        f1
    }
}

/// In a reaction-only configuration no cell ever loses resource, and
/// a cell at or below half capacity gains at least the replenishment
/// floor.
pub proof fn lemma_reaction_only_cell(cells: Seq<FieldData>, occ: Seq<u32>, p: RDParams, i: int)
    requires
        rd_params_wf(p),
        grid_wf(cells, p.width as int, p.height as int),
        occ.len() == cells.len(),
        0 <= i < cells.len(),
        reaction_only(p),
    ensures
        rd_cell_spec(cells, occ, p, i).R >= cells[i].R,
        cells[i].R <= FP_ONE / 2 ==> rd_cell_spec(cells, occ, p, i).R >= cells[i].R + repl_floor(
            p,
        ),
        repl_floor(p) >= 0,
{
    let c = cells[i];
    let fp = FP_ONE as int;
    assert(0int * p.dt == 0 && p.D_R as int * p.dt as int == 0 && p.lambda_R as int * c.R as int
        == 0 && p.alpha_H as int * (occ[i] * H_SCALE) == 0 && 0int * p.dt as int == 0)
        by (nonlinear_arith)
        requires p.D_R == 0, p.lambda_R == 0, p.alpha_H == 0;
    lemma_tdiv_zero(fp);
    let c1r = tdiv(p.D_R * p.dt, fp);
    assert(c1r == 0);
    assert(c1r * (crate::kernels::at(cells, p.width as int, p.height as int, i % (p.width as int)
        - 1, i / (p.width as int)).R + crate::kernels::at(
        cells,
        p.width as int,
        p.height as int,
        i % (p.width as int) + 1,
        i / (p.width as int),
    ).R + crate::kernels::at(
        cells,
        p.width as int,
        p.height as int,
        i % (p.width as int),
        i / (p.width as int) - 1,
    ).R + crate::kernels::at(
        cells,
        p.width as int,
        p.height as int,
        i % (p.width as int),
        i / (p.width as int) + 1,
    ).R - 4 * c.R) == 0) by (nonlinear_arith)
        requires c1r == 0;
    let urate = tdiv(p.alpha_H * (occ[i] * H_SCALE), fp);
    assert(urate == 0);
    assert(urate * p.dt == 0) by (nonlinear_arith)
        requires urate == 0;
    assert(c.R as int * 0 == 0) by (nonlinear_arith);
    let room = if c.R < FP_ONE {
        fp - c.R
    } else {
        0int
    };
    assert(0 <= p.sigma_R * room <= fp * fp) by (nonlinear_arith)
        requires 0 <= p.sigma_R <= fp, 0 <= room <= fp;
    lemma_tdiv_monotone(0, p.sigma_R * room, fp);
    lemma_tdiv_monotone(p.sigma_R * room, fp * fp, fp);
    lemma_tdiv_exact(fp, fp);
    let repl0 = tdiv(p.sigma_R * room, fp);
    assert(0 <= repl0 * p.dt <= fp * fp) by (nonlinear_arith)
        requires 0 <= repl0 <= fp, 0 < p.dt <= fp;
    lemma_tdiv_monotone(0, repl0 * p.dt, fp);
    lemma_tdiv_monotone(repl0 * p.dt, fp * fp, fp);
    let repl = tdiv(repl0 * p.dt, fp);
    assert(0 <= repl <= fp);
    // the floor is itself non-negative
    assert(0 <= p.sigma_R * (fp / 2)) by (nonlinear_arith)
        requires p.sigma_R >= 0, fp / 2 > 0;
    lemma_tdiv_monotone(0, p.sigma_R * (fp / 2), fp);
    let f0 = tdiv(p.sigma_R * (fp / 2), fp);
    assert(0 <= f0 * p.dt) by (nonlinear_arith)
        requires f0 >= 0, p.dt > 0;
    lemma_tdiv_monotone(0, f0 * p.dt, fp);
    if c.R <= FP_ONE / 2 {
        assert(room >= fp / 2);
        assert(p.sigma_R * room >= p.sigma_R * (fp / 2)) by (nonlinear_arith)
            requires p.sigma_R >= 0, room >= fp / 2;
        lemma_tdiv_monotone(p.sigma_R * (fp / 2), p.sigma_R * room, fp);
        assert(repl0 >= f0);
        assert(repl0 * p.dt >= f0 * p.dt) by (nonlinear_arith)
            requires repl0 >= f0, p.dt > 0;
        lemma_tdiv_monotone(f0 * p.dt, repl0 * p.dt, fp);
        assert(repl >= repl_floor(p));
    }
}

/// Pointwise dominance carries over to the resource sum, with any
/// surplus at one index carried along.
pub proof fn lemma_sum_r_dominates(c1: Seq<FieldData>, c2: Seq<FieldData>, n: int)
    requires
        n <= c1.len(),
        n <= c2.len(),
        forall|i: int| 0 <= i < n ==> c1[i].R <= c2[i].R,
    ensures
        sum_r(c1, n) <= sum_r(c2, n),
    decreases n,
{
    if n > 0 {
        lemma_sum_r_dominates(c1, c2, n - 1);
    }
}

/// Strict form: a gap of `d` at one index survives into the sums.
pub proof fn lemma_sum_r_dominates_plus(c1: Seq<FieldData>, c2: Seq<FieldData>, n: int, j: int, d: int)
    requires
        n <= c1.len(),
        n <= c2.len(),
        forall|i: int| 0 <= i < n ==> c1[i].R <= c2[i].R,
        0 <= j < n,
        c1[j].R + d <= c2[j].R,
    ensures
        sum_r(c1, n) + d <= sum_r(c2, n),
    decreases n,
{
    if j == n - 1 {
        lemma_sum_r_dominates(c1, c2, n - 1);
    } else {
        lemma_sum_r_dominates_plus(c1, c2, n - 1, j, d);
    }
}

/// Reaction-only regime: the total resource never falls, and rises by
/// at least the replenishment floor if some cell is at or below half
/// capacity.
pub proof fn lemma_reaction_only_grows(cells: Seq<FieldData>, occ: Seq<u32>, p: RDParams)
    requires
        rd_params_wf(p),
        grid_wf(cells, p.width as int, p.height as int),
        occ.len() == cells.len(),
        reaction_only(p),
    ensures
        sum_r(rd_grid_spec(cells, occ, p), cells.len() as int) >= sum_r(
            cells,
            cells.len() as int,
        ),
        (exists|j: int| 0 <= j < cells.len() && (#[trigger] cells[j].R) <= FP_ONE / 2) ==> sum_r(
            rd_grid_spec(cells, occ, p),
            cells.len() as int,
        ) >= sum_r(cells, cells.len() as int) + repl_floor(p),
{
    let next = rd_grid_spec(cells, occ, p);
    let n = cells.len() as int;
    assert forall|i: int| 0 <= i < n implies cells[i].R <= next[i].R by {
        lemma_reaction_only_cell(cells, occ, p, i);
    }
    lemma_sum_r_dominates(cells, next, n);
    if exists|j: int| 0 <= j < cells.len() && (#[trigger] cells[j].R) <= FP_ONE / 2 {
        let j = choose|j: int| 0 <= j < cells.len() && (#[trigger] cells[j].R) <= FP_ONE / 2;
        lemma_reaction_only_cell(cells, occ, p, j);
        lemma_sum_r_dominates_plus(cells, next, n, j, repl_floor(p));
    }
}

/// The largest resource in a prefix bounds each cell and is itself
/// bounded by any pointwise bound.
pub proof fn lemma_max_r_le(cells: Seq<FieldData>, n: int, m: int)
    requires
        n <= cells.len(),
        0 <= m,
        forall|i: int| 0 <= i < n ==> cells[i].R <= m,
    ensures
        max_r(cells, n) <= m,
    decreases n,
{
    if n > 0 {
        lemma_max_r_le(cells, n - 1, m);
    }
}

pub proof fn lemma_max_r_ge(cells: Seq<FieldData>, n: int, i: int)
    requires
        0 <= i < n <= cells.len(),
    ensures
        cells[i].R <= max_r(cells, n),
    decreases n,
{
    if i < n - 1 {
        lemma_max_r_ge(cells, n - 1, i);
    }
}

pub proof fn lemma_min_r_ge(cells: Seq<FieldData>, n: int, m: int)
    requires
        n <= cells.len(),
        m <= CELL_MAX,
        forall|i: int| 0 <= i < n ==> cells[i].R >= m,
    ensures
        min_r(cells, n) >= m,
    decreases n,
{
    if n > 0 {
        lemma_min_r_ge(cells, n - 1, m);
    }
}

pub proof fn lemma_min_r_le(cells: Seq<FieldData>, n: int, i: int)
    requires
        0 <= i < n <= cells.len(),
    ensures
        min_r(cells, n) <= cells[i].R,
    decreases n,
{
    if i < n - 1 {
        lemma_min_r_le(cells, n - 1, i);
    }
}

/// Diffusion-only regime, one cell: the new value is a clamped convex
/// mixture of the old cell and its neighbours, so it stays between
/// the old grid extremes.
pub proof fn lemma_diffusion_only_cell(cells: Seq<FieldData>, occ: Seq<u32>, p: RDParams, i: int)
    requires
        rd_params_wf(p),
        grid_wf(cells, p.width as int, p.height as int),
        occ.len() == cells.len(),
        0 <= i < cells.len(),
        diffusion_only(p),
    ensures
        rd_cell_spec(cells, occ, p, i).R <= max_r(cells, cells.len() as int),
        rd_cell_spec(cells, occ, p, i).R >= min_r(cells, cells.len() as int),
        rd_cell_spec(cells, occ, p, i).R == cells[i].R + tdiv(
            tdiv(p.D_R * p.dt, FP_ONE as int) * lap_at(cells, p.width as int, p.height as int, i),
            FP_ONE as int,
        ),
{
    let fp = FP_ONE as int;
    let w = p.width as int;
    let h = p.height as int;
    let n = cells.len() as int;
    let x = i % w;
    let y = i / w;
    let c = cells[i];
    vstd::arithmetic::div_mod::lemma_mod_bound(i, w);
    vstd::arithmetic::div_mod::lemma_fundamental_div_mod(i, w);
    vstd::arithmetic::div_mod::lemma_div_pos_is_pos(i, w);
    assert(y < h) by (nonlinear_arith)
        requires i == w * y + x, 0 <= x < w, i < w * h, w >= 1, 0 <= y;
    let il = crate::kernels::coord(y, h - 1) * w + crate::kernels::coord(x - 1, w - 1);
    let ir = crate::kernels::coord(y, h - 1) * w + crate::kernels::coord(x + 1, w - 1);
    let iu = crate::kernels::coord(y - 1, h - 1) * w + crate::kernels::coord(x, w - 1);
    let id = crate::kernels::coord(y + 1, h - 1) * w + crate::kernels::coord(x, w - 1);
    crate::field::lemma_flat_index_in_range(
        crate::kernels::coord(x - 1, w - 1),
        crate::kernels::coord(y, h - 1),
        w,
        h,
    );
    crate::field::lemma_flat_index_in_range(
        crate::kernels::coord(x + 1, w - 1),
        crate::kernels::coord(y, h - 1),
        w,
        h,
    );
    crate::field::lemma_flat_index_in_range(
        crate::kernels::coord(x, w - 1),
        crate::kernels::coord(y - 1, h - 1),
        w,
        h,
    );
    crate::field::lemma_flat_index_in_range(
        crate::kernels::coord(x, w - 1),
        crate::kernels::coord(y + 1, h - 1),
        w,
        h,
    );
    let mx = max_r(cells, n);
    let mn = min_r(cells, n);
    lemma_max_r_ge(cells, n, i);
    lemma_max_r_ge(cells, n, il);
    lemma_max_r_ge(cells, n, ir);
    lemma_max_r_ge(cells, n, iu);
    lemma_max_r_ge(cells, n, id);
    lemma_min_r_le(cells, n, i);
    lemma_min_r_le(cells, n, il);
    lemma_min_r_le(cells, n, ir);
    lemma_min_r_le(cells, n, iu);
    lemma_min_r_le(cells, n, id);
    lemma_max_r_le(cells, n, CELL_MAX as int);
    lemma_min_r_ge(cells, n, 0);
    let lap = cells[il].R + cells[ir].R + cells[iu].R + cells[id].R - 4 * c.R;
    let c1r = tdiv(p.D_R * p.dt, fp);
    // 0 <= 4 c1 <= 1 from the stability requirement
    assert(0 <= p.D_R * p.dt && 4 * (p.D_R as int * p.dt as int) == 4 * p.dt as int
        * p.D_R as int) by (nonlinear_arith)
        requires p.D_R >= 0, p.dt > 0;
    lemma_tdiv_monotone(0, p.D_R * p.dt, fp);
    lemma_tdiv_monotone(p.D_R * p.dt, fp * fp / 4, fp);
    lemma_tdiv_zero(fp);
    assert(tdiv(fp * fp / 4, fp) == fp / 4) by {
        lemma_tdiv_exact(fp / 4, fp);
        assert(fp * fp / 4 == (fp / 4) * fp);
    }
    assert(0 <= c1r && 4 * c1r <= fp);
    // upper bound
    assert(lap <= 4 * (mx - c.R));
    assert(c1r * lap <= c1r * (4 * (mx - c.R))) by (nonlinear_arith)
        requires c1r >= 0, lap <= 4 * (mx - c.R);
    assert(c1r * (4 * (mx - c.R)) <= fp * (mx - c.R)) by (nonlinear_arith)
        requires 0 <= 4 * c1r <= fp, mx - c.R >= 0;
    lemma_tdiv_monotone(c1r * lap, fp * (mx - c.R), fp);
    lemma_tdiv_exact(mx - c.R, fp);
    assert(fp * (mx - c.R) == (mx - c.R) * fp) by (nonlinear_arith);
    // lower bound
    assert(lap >= 4 * (mn - c.R));
    assert(c1r * lap >= c1r * (4 * (mn - c.R))) by (nonlinear_arith)
        requires c1r >= 0, lap >= 4 * (mn - c.R);
    assert(c1r * (4 * (mn - c.R)) >= fp * (mn - c.R)) by (nonlinear_arith)
        requires 0 <= 4 * c1r <= fp, mn - c.R <= 0;
    lemma_tdiv_monotone(fp * (mn - c.R), c1r * lap, fp);
    lemma_tdiv_exact(mn - c.R, fp);
    assert(fp * (mn - c.R) == (mn - c.R) * fp) by (nonlinear_arith);
    // the remaining terms vanish
    assert(p.sigma_R as int * (if c.R < FP_ONE {
        fp - c.R
    } else {
        0int
    }) == 0 && p.lambda_R as int * c.R as int == 0 && p.alpha_H as int * (occ[i] * H_SCALE) == 0)
        by (nonlinear_arith)
        requires p.sigma_R == 0, p.lambda_R == 0, p.alpha_H == 0;
    assert(tdiv(0, fp) == 0);
    assert(0int * p.dt as int == 0) by (nonlinear_arith);
    let urate = tdiv(p.alpha_H * (occ[i] * H_SCALE), fp);
    assert(urate == 0);
    assert(urate * p.dt == 0) by (nonlinear_arith)
        requires urate == 0;
    let f_raw = tdiv(urate * p.dt, fp);
    assert(f_raw == 0);
    assert(c.R as int * 0 == 0) by (nonlinear_arith);
}

/// Diffusion-only regime, whole grid: the largest resource never
/// rises, the smallest never falls.
pub proof fn lemma_diffusion_only_extremes(cells: Seq<FieldData>, occ: Seq<u32>, p: RDParams)
    requires
        rd_params_wf(p),
        grid_wf(cells, p.width as int, p.height as int),
        occ.len() == cells.len(),
        diffusion_only(p),
    ensures
        max_r(rd_grid_spec(cells, occ, p), cells.len() as int) <= max_r(
            cells,
            cells.len() as int,
        ),
        min_r(rd_grid_spec(cells, occ, p), cells.len() as int) >= min_r(
            cells,
            cells.len() as int,
        ),
{
    let next = rd_grid_spec(cells, occ, p);
    let n = cells.len() as int;
    assert forall|i: int| 0 <= i < n implies next[i].R <= max_r(cells, n) && next[i].R >= min_r(
        cells,
        n,
    ) by {
        lemma_diffusion_only_cell(cells, occ, p, i);
    }
    lemma_min_r_ge(cells, n, 0);
    lemma_max_r_le(cells, n, CELL_MAX as int);
    if n > 0 {
        lemma_max_r_ge(cells, n, 0);
        lemma_min_r_le(cells, n, 0);
    }
    lemma_max_r_le(next, n, max_r(cells, n));
    lemma_min_r_ge(next, n, min_r(cells, n));
}

/// Uptake-only regime, one cell: no cell ever gains resource, and a
/// cell at or above one unit with at least one occupant loses at
/// least the uptake floor.
pub proof fn lemma_uptake_only_cell(cells: Seq<FieldData>, occ: Seq<u32>, p: RDParams, i: int)
    requires
        rd_params_wf(p),
        grid_wf(cells, p.width as int, p.height as int),
        occ.len() == cells.len(),
        forall|j: int| 0 <= j < occ.len() ==> #[trigger] occ[j] <= 3 * AGENTS_MAX,
        0 <= i < cells.len(),
        uptake_only(p),
    ensures
        rd_cell_spec(cells, occ, p, i).R <= cells[i].R,
        occ[i] >= 1 && cells[i].R >= FP_ONE && uptake_floor(p) >= 1 ==> rd_cell_spec(
            cells,
            occ,
            p,
            i,
        ).R + uptake_floor(p) <= cells[i].R,
{
    let fp = FP_ONE as int;
    let c = cells[i];
    assert(p.D_R as int * p.dt as int == 0 && p.sigma_R as int * (if c.R < FP_ONE {
        fp - c.R
    } else {
        0int
    }) == 0) by (nonlinear_arith)
        requires p.D_R == 0, p.sigma_R == 0;
    lemma_tdiv_zero(fp);
    let c1r = tdiv(p.D_R * p.dt, fp);
    assert(c1r == 0);
    assert(c1r * (crate::kernels::at(cells, p.width as int, p.height as int, i % (p.width as int)
        - 1, i / (p.width as int)).R + crate::kernels::at(
        cells,
        p.width as int,
        p.height as int,
        i % (p.width as int) + 1,
        i / (p.width as int),
    ).R + crate::kernels::at(
        cells,
        p.width as int,
        p.height as int,
        i % (p.width as int),
        i / (p.width as int) - 1,
    ).R + crate::kernels::at(
        cells,
        p.width as int,
        p.height as int,
        i % (p.width as int),
        i / (p.width as int) + 1,
    ).R - 4 * c.R) == 0) by (nonlinear_arith)
        requires c1r == 0;
    assert(0int * p.dt as int == 0) by (nonlinear_arith);
    // decay and removal are non-negative and bounded by the cell
    assert(0 <= p.lambda_R * c.R <= c.R as int * fp) by (nonlinear_arith)
        requires 0 <= p.lambda_R <= fp, c.R >= 0;
    lemma_tdiv_monotone(0, p.lambda_R * c.R, fp);
    let d0 = tdiv(p.lambda_R * c.R, fp);
    assert(0 <= d0 * p.dt) by (nonlinear_arith)
        requires d0 >= 0, p.dt > 0;
    lemma_tdiv_monotone(0, d0 * p.dt, fp);
    let ov = occ[i] as int;
    assert(ov * (H_SCALE as int) >= 0) by (nonlinear_arith)
        requires ov >= 0, H_SCALE > 0;
    let density = ov * H_SCALE;
    assert(p.alpha_H * density >= 0) by (nonlinear_arith)
        requires p.alpha_H >= 0, density >= 0;
    lemma_tdiv_monotone(0, p.alpha_H * density, fp);
    let urate = tdiv(p.alpha_H * density, fp);
    assert(urate * p.dt >= 0) by (nonlinear_arith)
        requires urate >= 0, p.dt > 0;
    lemma_tdiv_monotone(0, urate * p.dt, fp);
    let f_raw = tdiv(urate * p.dt, fp);
    let f = if f_raw > FP_ONE {
        fp
    } else {
        f_raw
    };
    assert(0 <= c.R * f) by (nonlinear_arith)
        requires c.R >= 0, f >= 0;
    lemma_tdiv_monotone(0, c.R * f, fp);
    if occ[i] >= 1 && c.R >= FP_ONE && uptake_floor(p) >= 1 {
        // the factor grows with occupancy, and removal with the cell
        assert(ov * (H_SCALE as int) >= H_SCALE as int) by (nonlinear_arith)
            requires ov >= 1, H_SCALE > 0;
        assert(p.alpha_H * density >= p.alpha_H * (H_SCALE as int)) by (nonlinear_arith)
            requires p.alpha_H >= 0, density >= H_SCALE as int;
        lemma_tdiv_monotone(p.alpha_H * (H_SCALE as int), p.alpha_H * density, fp);
        let u1 = tdiv(p.alpha_H * (H_SCALE as int), fp);
        assert(u1 * p.dt <= urate * p.dt) by (nonlinear_arith)
            requires u1 <= urate, p.dt > 0;
        lemma_tdiv_monotone(u1 * p.dt, urate * p.dt, fp);
        assert(f >= uptake_floor(p));
        assert(c.R * f >= fp * uptake_floor(p)) by (nonlinear_arith)
            requires c.R >= fp, f >= uptake_floor(p), uptake_floor(p) >= 0, fp > 0;
        lemma_tdiv_monotone(fp * uptake_floor(p), c.R * f, fp);
        lemma_tdiv_exact(uptake_floor(p), fp);
        assert(fp * uptake_floor(p) == uptake_floor(p) * fp) by (nonlinear_arith);
    }
}

/// Uptake-only regime, whole grid: the total resource never rises,
/// and falls by at least the uptake floor if some occupied cell holds
/// at least one unit.
pub proof fn lemma_uptake_only_shrinks(cells: Seq<FieldData>, occ: Seq<u32>, p: RDParams)
    requires
        rd_params_wf(p),
        grid_wf(cells, p.width as int, p.height as int),
        occ.len() == cells.len(),
        forall|j: int| 0 <= j < occ.len() ==> #[trigger] occ[j] <= 3 * AGENTS_MAX,
        uptake_only(p),
        uptake_floor(p) >= 1,
    ensures
        sum_r(rd_grid_spec(cells, occ, p), cells.len() as int) <= sum_r(
            cells,
            cells.len() as int,
        ),
        (exists|j: int|
            0 <= j < cells.len() && (#[trigger] occ[j]) >= 1 && cells[j].R >= FP_ONE) ==> sum_r(
            rd_grid_spec(cells, occ, p),
            cells.len() as int,
        ) + uptake_floor(p) <= sum_r(cells, cells.len() as int),
{
    let next = rd_grid_spec(cells, occ, p);
    let n = cells.len() as int;
    assert forall|i: int| 0 <= i < n implies next[i].R <= cells[i].R by {
        lemma_uptake_only_cell(cells, occ, p, i);
    }
    lemma_sum_r_dominates(next, cells, n);
    if exists|j: int| 0 <= j < cells.len() && (#[trigger] occ[j]) >= 1 && cells[j].R >= FP_ONE {
        let j = choose|j: int|
            0 <= j < cells.len() && (#[trigger] occ[j]) >= 1 && cells[j].R >= FP_ONE;
        lemma_uptake_only_cell(cells, occ, p, j);
        lemma_sum_r_dominates_plus(next, cells, n, j, uptake_floor(p));
    }
}


/// The front grid one completed tick leaves behind is exactly one
/// reaction-diffusion pass of the grid it started from.
pub proof fn lemma_tick_front_is_rd_grid(
    old_sim: crate::sim::Simulation,
    new_sim: crate::sim::Simulation,
)
    requires
        old_sim.wf(),
        new_sim.wf(),
        crate::sim::tick_post(old_sim, new_sim),
    ensures
        new_sim.field.front() == rd_grid_spec(
            old_sim.field.front(),
            new_sim.occupancy@,
            crate::params::rd_params_of(old_sim.config),
        ),
{
    let cells = old_sim.field.front();
    let next = rd_grid_spec(cells, new_sim.occupancy@, crate::params::rd_params_of(old_sim.config));
    assert(new_sim.field.front() =~= next);
}

/// Reaction-only through a whole tick: the total front resource never
/// falls, and rises by at least the replenishment floor while some
/// cell is at or below half capacity.
pub proof fn lemma_tick_reaction_only_grows(
    old_sim: crate::sim::Simulation,
    new_sim: crate::sim::Simulation,
)
    requires
        old_sim.wf(),
        new_sim.wf(),
        crate::sim::tick_post(old_sim, new_sim),
        reaction_only(crate::params::rd_params_of(old_sim.config)),
    ensures
        sum_r(new_sim.field.front(), new_sim.field.front().len() as int) >= sum_r(
            old_sim.field.front(),
            old_sim.field.front().len() as int,
        ),
        (exists|j: int|
            0 <= j < old_sim.field.front().len() && (#[trigger] old_sim.field.front()[j].R)
                <= FP_ONE / 2) ==> sum_r(new_sim.field.front(), new_sim.field.front().len() as int)
            >= sum_r(old_sim.field.front(), old_sim.field.front().len() as int) + repl_floor(
            crate::params::rd_params_of(old_sim.config),
        ),
{
    let p = crate::params::rd_params_of(old_sim.config);
    crate::params::lemma_derived_params_wf(old_sim.config);
    lemma_tick_front_is_rd_grid(old_sim, new_sim);
    lemma_reaction_only_grows(old_sim.field.front(), new_sim.occupancy@, p);
}

/// Diffusion-only through a whole tick: the largest front resource
/// never rises, the smallest never falls.
pub proof fn lemma_tick_diffusion_only_extremes(
    old_sim: crate::sim::Simulation,
    new_sim: crate::sim::Simulation,
)
    requires
        old_sim.wf(),
        new_sim.wf(),
        crate::sim::tick_post(old_sim, new_sim),
        diffusion_only(crate::params::rd_params_of(old_sim.config)),
    ensures
        max_r(new_sim.field.front(), new_sim.field.front().len() as int) <= max_r(
            old_sim.field.front(),
            old_sim.field.front().len() as int,
        ),
        min_r(new_sim.field.front(), new_sim.field.front().len() as int) >= min_r(
            old_sim.field.front(),
            old_sim.field.front().len() as int,
        ),
{
    let p = crate::params::rd_params_of(old_sim.config);
    crate::params::lemma_derived_params_wf(old_sim.config);
    lemma_tick_front_is_rd_grid(old_sim, new_sim);
    lemma_diffusion_only_extremes(old_sim.field.front(), new_sim.occupancy@, p);
}

/// Uptake-only through a whole tick: the total front resource never
/// rises, and falls by at least the uptake floor while some occupied
/// cell holds at least one unit.
pub proof fn lemma_tick_uptake_only_shrinks(
    old_sim: crate::sim::Simulation,
    new_sim: crate::sim::Simulation,
)
    requires
        old_sim.wf(),
        new_sim.wf(),
        crate::sim::tick_post(old_sim, new_sim),
        uptake_only(crate::params::rd_params_of(old_sim.config)),
        uptake_floor(crate::params::rd_params_of(old_sim.config)) >= 1,
    ensures
        sum_r(new_sim.field.front(), new_sim.field.front().len() as int) <= sum_r(
            old_sim.field.front(),
            old_sim.field.front().len() as int,
        ),
        (exists|j: int|
            0 <= j < old_sim.field.front().len() && (#[trigger] new_sim.occupancy@[j]) >= 1
                && old_sim.field.front()[j].R >= FP_ONE) ==> sum_r(
            new_sim.field.front(),
            new_sim.field.front().len() as int,
        ) + uptake_floor(crate::params::rd_params_of(old_sim.config)) <= sum_r(
            old_sim.field.front(),
            old_sim.field.front().len() as int,
        ),
{
    let p = crate::params::rd_params_of(old_sim.config);
    let occ = new_sim.occupancy@;
    crate::params::lemma_derived_params_wf(old_sim.config);
    lemma_tick_front_is_rd_grid(old_sim, new_sim);
    assert forall|j: int| 0 <= j < occ.len() implies #[trigger] occ[j] <= 3 * AGENTS_MAX by {
        crate::kernels::lemma_occ_count_le(
            new_sim.agents.agents@,
            new_sim.agents.agents@.len() as int,
            j,
            old_sim.config.world.width as int,
            old_sim.config.world.height as int,
        );
    }
    lemma_uptake_only_shrinks(old_sim.field.front(), occ, p);
}

/// Damping-only through a whole tick: no agent's speed rises.
pub proof fn lemma_tick_damping_only_slows(
    old_sim: crate::sim::Simulation,
    new_sim: crate::sim::Simulation,
)
    requires
        old_sim.wf(),
        new_sim.wf(),
        crate::sim::tick_post(old_sim, new_sim),
        old_sim.config.chemotaxis.chi_R == 0,
        old_sim.config.chemotaxis.chi_W == 0,
    ensures
        forall|k: int|
            0 <= k < new_sim.agents.agents@.len() ==> crate::agents::speed_of(
                #[trigger] new_sim.agents.agents@[k],
            ) <= crate::agents::speed_of(old_sim.agents.agents@[k]),
{
    let agp = crate::params::agent_params_of(old_sim.config);
    crate::params::lemma_derived_params_wf(old_sim.config);
    assert forall|k: int| 0 <= k < new_sim.agents.agents@.len() implies crate::agents::speed_of(
        #[trigger] new_sim.agents.agents@[k],
    ) <= crate::agents::speed_of(old_sim.agents.agents@[k]) by {
        crate::kernels::lemma_damping_only_slows(
            old_sim.agents.agents@[k],
            old_sim.field.front(),
            agp,
        );
    }
}


/// The discrete Laplacian of the resource at flat index `i`, with
/// clamped edge reads: exactly the diffusion stencil of the kernel.
pub open spec fn lap_at(cells: Seq<FieldData>, w: int, h: int, i: int) -> int {
    let x = i % w;
    let y = i / w;
    crate::kernels::at(cells, w, h, x - 1, y).R + crate::kernels::at(cells, w, h, x + 1, y).R
        + crate::kernels::at(cells, w, h, x, y - 1).R + crate::kernels::at(
        cells,
        w,
        h,
        x,
        y + 1,
    ).R - 4 * cells[i].R
}

/// Sum of the Laplacian over the first `n` cells.
pub open spec fn lap_sum(cells: Seq<FieldData>, w: int, h: int, n: int) -> int
    decreases n,
{
    if n <= 0 {
        0
    } else {
        lap_sum(cells, w, h, n - 1) + lap_at(cells, w, h, n - 1)
    }
}

/// Resource sum of the first `k` cells of row `t`.
pub open spec fn row_r(cells: Seq<FieldData>, w: int, t: int, k: int) -> int
    decreases k,
{
    if k <= 0 {
        0
    } else {
        row_r(cells, w, t, k - 1) + cells[t * w + (k - 1)].R
    }
}

/// Horizontal stencil part at cell `(x, t)`.
pub open spec fn h_term(cells: Seq<FieldData>, w: int, h: int, t: int, x: int) -> int {
    crate::kernels::at(cells, w, h, x - 1, t).R + crate::kernels::at(cells, w, h, x + 1, t).R - 2
        * cells[t * w + x].R
}

/// Sum of the horizontal parts over the first `k` cells of row `t`.
pub open spec fn hpart(cells: Seq<FieldData>, w: int, h: int, t: int, k: int) -> int
    decreases k,
{
    if k <= 0 {
        0
    } else {
        hpart(cells, w, h, t, k - 1) + h_term(cells, w, h, t, k - 1)
    }
}

/// Vertical stencil part at cell `(x, t)`.
pub open spec fn v_term(cells: Seq<FieldData>, w: int, h: int, t: int, x: int) -> int {
    crate::kernels::at(cells, w, h, x, t - 1).R + crate::kernels::at(cells, w, h, x, t + 1).R - 2
        * cells[t * w + x].R
}

/// Sum of the vertical parts over the first `k` cells of row `t`.
pub open spec fn vpart(cells: Seq<FieldData>, w: int, h: int, t: int, k: int) -> int
    decreases k,
{
    if k <= 0 {
        0
    } else {
        vpart(cells, w, h, t, k - 1) + v_term(cells, w, h, t, k - 1)
    }
}

/// Sum of the full-row horizontal parts of the first `t` rows.
pub open spec fn hparts(cells: Seq<FieldData>, w: int, h: int, t: int) -> int
    decreases t,
{
    if t <= 0 {
        0
    } else {
        hparts(cells, w, h, t - 1) + hpart(cells, w, h, t - 1, w)
    }
}

/// Sum of the full-row vertical parts of the first `t` rows.
pub open spec fn vparts(cells: Seq<FieldData>, w: int, h: int, t: int) -> int
    decreases t,
{
    if t <= 0 {
        0
    } else {
        vparts(cells, w, h, t - 1) + vpart(cells, w, h, t - 1, w)
    }
}

/// Partial horizontal parts telescope to a difference of neighbours.
proof fn lemma_hpart_partial(cells: Seq<FieldData>, w: int, h: int, t: int, k: int)
    requires
        2 <= w,
        2 <= h,
        0 <= t < h,
        1 <= k <= w - 1,
    ensures
        hpart(cells, w, h, t, k) == cells[t * w + k].R - cells[t * w + (k - 1)].R,
    decreases k,
{
    assert(hpart(cells, w, h, t, k) == hpart(cells, w, h, t, k - 1) + h_term(cells, w, h, t, k - 1));
    if k == 1 {
        assert(hpart(cells, w, h, t, 0) == 0);
        assert(crate::kernels::coord(0int - 1, w - 1) == 0);
        assert(crate::kernels::coord(0int + 1, w - 1) == 1);
        assert(crate::kernels::coord(t, h - 1) == t);
        assert(h_term(cells, w, h, t, 0) == cells[t * w + 0].R + cells[t * w + 1].R - 2 * cells[t
            * w + 0].R);
    } else {
        lemma_hpart_partial(cells, w, h, t, k - 1);
        assert(crate::kernels::coord((k - 1) - 1, w - 1) == k - 2);
        assert(crate::kernels::coord((k - 1) + 1, w - 1) == k);
        assert(crate::kernels::coord(t, h - 1) == t);
        assert(h_term(cells, w, h, t, k - 1) == cells[t * w + (k - 2)].R + cells[t * w + k].R - 2
            * cells[t * w + (k - 1)].R);
    }
}

/// A full row's horizontal parts cancel exactly.
proof fn lemma_hpart_full(cells: Seq<FieldData>, w: int, h: int, t: int)
    requires
        2 <= w,
        2 <= h,
        0 <= t < h,
    ensures
        hpart(cells, w, h, t, w) == 0,
{
    lemma_hpart_partial(cells, w, h, t, w - 1);
    assert(hpart(cells, w, h, t, w) == hpart(cells, w, h, t, w - 1) + h_term(cells, w, h, t, w - 1));
    assert(crate::kernels::coord((w - 1) - 1, w - 1) == w - 2);
    assert(crate::kernels::coord((w - 1) + 1, w - 1) == w - 1);
    assert(crate::kernels::coord(t, h - 1) == t);
    assert(h_term(cells, w, h, t, w - 1) == cells[t * w + (w - 2)].R + cells[t * w + (w - 1)].R
        - 2 * cells[t * w + (w - 1)].R);
}

/// All full-row horizontal parts cancel.
proof fn lemma_hparts_zero(cells: Seq<FieldData>, w: int, h: int, t: int)
    requires
        2 <= w,
        2 <= h,
        0 <= t <= h,
    ensures
        hparts(cells, w, h, t) == 0,
    decreases t,
{
    if t > 0 {
        lemma_hparts_zero(cells, w, h, t - 1);
        lemma_hpart_full(cells, w, h, t - 1);
    }
}

/// A full row's vertical parts are the neighbouring rows' sums less
/// twice its own.
proof fn lemma_vpart_full(cells: Seq<FieldData>, w: int, h: int, t: int, k: int)
    requires
        2 <= w,
        2 <= h,
        0 <= t < h,
        0 <= k <= w,
    ensures
        vpart(cells, w, h, t, k) == row_r(cells, w, crate::kernels::coord(t - 1, h - 1), k)
            + row_r(cells, w, crate::kernels::coord(t + 1, h - 1), k) - 2 * row_r(cells, w, t, k),
    decreases k,
{
    if k > 0 {
        lemma_vpart_full(cells, w, h, t, k - 1);
        assert(vpart(cells, w, h, t, k) == vpart(cells, w, h, t, k - 1) + v_term(
            cells,
            w,
            h,
            t,
            k - 1,
        ));
        assert(crate::kernels::coord(k - 1, w - 1) == k - 1);
        assert(v_term(cells, w, h, t, k - 1) == cells[crate::kernels::coord(t - 1, h - 1) * w + (
        k - 1)].R + cells[crate::kernels::coord(t + 1, h - 1) * w + (k - 1)].R - 2 * cells[t * w
            + (k - 1)].R);
    }
}

/// The partial vertical row parts telescope to a difference of row
/// sums.
proof fn lemma_vparts_partial(cells: Seq<FieldData>, w: int, h: int, y: int)
    requires
        2 <= w,
        2 <= h,
        1 <= y <= h - 1,
    ensures
        vparts(cells, w, h, y) == row_r(cells, w, y, w) - row_r(cells, w, y - 1, w),
    decreases y,
{
    lemma_vpart_full(cells, w, h, y - 1, w);
    assert(vparts(cells, w, h, y) == vparts(cells, w, h, y - 1) + vpart(cells, w, h, y - 1, w));
    if y == 1 {
        assert(vparts(cells, w, h, 0) == 0);
        assert(crate::kernels::coord(-1, h - 1) == 0);
        assert(crate::kernels::coord(1, h - 1) == 1);
    } else {
        lemma_vparts_partial(cells, w, h, y - 1);
        assert(crate::kernels::coord(y - 2, h - 1) == y - 2);
        assert(crate::kernels::coord(y, h - 1) == y);
    }
}

/// All vertical row parts cancel over the whole grid.
proof fn lemma_vparts_zero(cells: Seq<FieldData>, w: int, h: int)
    requires
        2 <= w,
        2 <= h,
    ensures
        vparts(cells, w, h, h) == 0,
{
    lemma_vparts_partial(cells, w, h, h - 1);
    lemma_vpart_full(cells, w, h, h - 1, w);
    assert(vparts(cells, w, h, h) == vparts(cells, w, h, h - 1) + vpart(cells, w, h, h - 1, w));
    assert(crate::kernels::coord(h - 2, h - 1) == h - 2);
    assert(crate::kernels::coord(h, h - 1) == h - 1);
}


/// Sum of the first `n` resources of a well-formed grid is
/// non-negative.
pub proof fn lemma_sum_r_nonneg(cells: Seq<FieldData>, n: int)
    requires
        n <= cells.len(),
        forall|i: int| 0 <= i < cells.len() ==> (#[trigger] cells[i]).R >= 0,
    ensures
        sum_r(cells, n) >= 0,
    decreases n,
{
    if n > 0 {
        lemma_sum_r_nonneg(cells, n - 1);
    }
}

/// The flat Laplacian sum decomposes into full-row horizontal and
/// vertical parts plus the running partial row.
proof fn lemma_lap_sum_decomposes(cells: Seq<FieldData>, w: int, h: int, n: int)
    requires
        2 <= w,
        2 <= h,
        0 <= n <= w * h,
    ensures
        lap_sum(cells, w, h, n) == hparts(cells, w, h, n / w) + hpart(cells, w, h, n / w, n % w)
            + vparts(cells, w, h, n / w) + vpart(cells, w, h, n / w, n % w),
    decreases n,
{
    if n == 0 {
        vstd::arithmetic::div_mod::lemma_basic_div(0, w);
        vstd::arithmetic::div_mod::lemma_small_mod(0, w as nat);
    } else {
        lemma_lap_sum_decomposes(cells, w, h, n - 1);
        let y1 = (n - 1) / w;
        let k1 = (n - 1) % w;
        vstd::arithmetic::div_mod::lemma_fundamental_div_mod(n - 1, w);
        vstd::arithmetic::div_mod::lemma_mod_bound(n - 1, w);
        vstd::arithmetic::div_mod::lemma_div_pos_is_pos(n - 1, w);
        assert(n - 1 == y1 * w + k1) by (nonlinear_arith)
            requires n - 1 == w * y1 + k1;
        // the new term is the horizontal plus vertical part of its cell
        assert(lap_at(cells, w, h, n - 1) == h_term(cells, w, h, y1, k1) + v_term(
            cells,
            w,
            h,
            y1,
            k1,
        ));
        assert(hpart(cells, w, h, y1, k1 + 1) == hpart(cells, w, h, y1, k1) + h_term(
            cells,
            w,
            h,
            y1,
            k1,
        ));
        assert(vpart(cells, w, h, y1, k1 + 1) == vpart(cells, w, h, y1, k1) + v_term(
            cells,
            w,
            h,
            y1,
            k1,
        ));
        if k1 + 1 < w {
            assert(n == y1 * w + (k1 + 1)) by (nonlinear_arith)
                requires n - 1 == w * y1 + k1;
            vstd::arithmetic::div_mod::lemma_fundamental_div_mod_converse(n, w, y1, k1 + 1);
        } else {
            assert(n == (y1 + 1) * w + 0) by (nonlinear_arith)
                requires n - 1 == w * y1 + k1, k1 + 1 == w;
            vstd::arithmetic::div_mod::lemma_fundamental_div_mod_converse(n, w, y1 + 1, 0);
            assert(hparts(cells, w, h, y1 + 1) == hparts(cells, w, h, y1) + hpart(
                cells,
                w,
                h,
                y1,
                w,
            ));
            assert(vparts(cells, w, h, y1 + 1) == vparts(cells, w, h, y1) + vpart(
                cells,
                w,
                h,
                y1,
                w,
            ));
            assert(hpart(cells, w, h, y1 + 1, 0) == 0);
            assert(vpart(cells, w, h, y1 + 1, 0) == 0);
        }
    }
}

/// With clamped edge reads, diffusion moves resource between cells
/// but creates and destroys none: the Laplacian sums to zero over the
/// whole grid.
pub proof fn lemma_lap_sum_zero(cells: Seq<FieldData>, w: int, h: int)
    requires
        2 <= w,
        2 <= h,
    ensures
        lap_sum(cells, w, h, w * h) == 0,
{
    assert(w * h >= 0) by (nonlinear_arith)
        requires w >= 2, h >= 2;
    lemma_lap_sum_decomposes(cells, w, h, w * h);
    assert(w * h == h * w + 0) by (nonlinear_arith);
    vstd::arithmetic::div_mod::lemma_fundamental_div_mod_converse(w * h, w, h, 0);
    lemma_hparts_zero(cells, w, h, h);
    lemma_vparts_zero(cells, w, h);
    assert(hpart(cells, w, h, h, 0) == 0);
    assert(vpart(cells, w, h, h, 0) == 0);
}

/// The scaled sum difference of one diffusion-only pass tracks the
/// scaled Laplacian sum up to one rounding step per cell.
proof fn lemma_diffusion_sum_err(cells: Seq<FieldData>, occ: Seq<u32>, p: RDParams, k: int)
    requires
        rd_params_wf(p),
        grid_wf(cells, p.width as int, p.height as int),
        occ.len() == cells.len(),
        diffusion_only(p),
        0 <= k <= cells.len(),
    ensures
        -(k * (FP_ONE - 1)) <= FP_ONE * (sum_r(rd_grid_spec(cells, occ, p), k) - sum_r(cells, k))
            - tdiv(p.D_R * p.dt, FP_ONE as int) * lap_sum(
            cells,
            p.width as int,
            p.height as int,
            k,
        ),
        FP_ONE * (sum_r(rd_grid_spec(cells, occ, p), k) - sum_r(cells, k)) - tdiv(
            p.D_R * p.dt,
            FP_ONE as int,
        ) * lap_sum(cells, p.width as int, p.height as int, k) <= k * (FP_ONE - 1),
    decreases k,
{
    let fp = FP_ONE as int;
    let w = p.width as int;
    let h = p.height as int;
    let c1 = tdiv(p.D_R * p.dt, fp);
    let next = rd_grid_spec(cells, occ, p);
    if k > 0 {
        lemma_diffusion_sum_err(cells, occ, p, k - 1);
        lemma_diffusion_only_cell(cells, occ, p, k - 1);
        assert(next[k - 1].R == cells[k - 1].R + tdiv(c1 * lap_at(cells, w, h, k - 1), fp));
        crate::fixed::lemma_tdiv_mul_err(c1 * lap_at(cells, w, h, k - 1), fp);
        assert(c1 * lap_sum(cells, w, h, k) == c1 * lap_sum(cells, w, h, k - 1) + c1 * lap_at(
            cells,
            w,
            h,
            k - 1,
        )) by (nonlinear_arith)
            requires lap_sum(cells, w, h, k) == lap_sum(cells, w, h, k - 1) + lap_at(cells, w, h, k - 1);
        let d = tdiv(c1 * lap_at(cells, w, h, k - 1), fp);
        assert(FP_ONE * (sum_r(next, k) - sum_r(cells, k)) == FP_ONE * (sum_r(next, k - 1)
            - sum_r(cells, k - 1)) + FP_ONE * d) by (nonlinear_arith)
            requires
                sum_r(next, k) == sum_r(next, k - 1) + next[k - 1].R,
                sum_r(cells, k) == sum_r(cells, k - 1) + cells[k - 1].R,
                next[k - 1].R == cells[k - 1].R + d;
    }
}

/// Diffusion-only regime, whole grid: one pass changes the total
/// resource by strictly less than one fixed-point step per cell, and
/// the mean resource by at most one single step.
pub proof fn lemma_diffusion_only_conserves(cells: Seq<FieldData>, occ: Seq<u32>, p: RDParams)
    requires
        rd_params_wf(p),
        grid_wf(cells, p.width as int, p.height as int),
        occ.len() == cells.len(),
        diffusion_only(p),
    ensures
        -(cells.len() as int) < sum_r(rd_grid_spec(cells, occ, p), cells.len() as int) - sum_r(
            cells,
            cells.len() as int,
        ),
        sum_r(rd_grid_spec(cells, occ, p), cells.len() as int) - sum_r(cells, cells.len() as int)
            < cells.len(),
        tdiv(sum_r(cells, cells.len() as int), cells.len() as int) - 1 <= tdiv(
            sum_r(rd_grid_spec(cells, occ, p), cells.len() as int),
            cells.len() as int,
        ),
        tdiv(sum_r(rd_grid_spec(cells, occ, p), cells.len() as int), cells.len() as int) <= tdiv(
            sum_r(cells, cells.len() as int),
            cells.len() as int,
        ) + 1,
{
    let fp = FP_ONE as int;
    let w = p.width as int;
    let h = p.height as int;
    let n = cells.len() as int;
    let next = rd_grid_spec(cells, occ, p);
    let s0 = sum_r(cells, n);
    let s1 = sum_r(next, n);
    assert(n >= 1024) by (nonlinear_arith)
        requires n == w * h, w >= 32, h >= 32;
    lemma_diffusion_sum_err(cells, occ, p, n);
    lemma_lap_sum_zero(cells, w, h);
    assert(lap_sum(cells, w, h, n) == 0);
    let c1 = tdiv(p.D_R * p.dt, fp);
    assert(c1 * 0 == 0) by (nonlinear_arith);
    assert(-(n * (fp - 1)) <= FP_ONE * (s1 - s0) <= n * (fp - 1));
    assert(s1 - s0 < n && -n < s1 - s0) by (nonlinear_arith)
        requires
            -(n * (fp - 1)) <= fp * (s1 - s0) <= n * (fp - 1),
            fp == 1_000_000,
            n >= 1;
    // the means differ by at most one step
    assert forall|i: int| 0 <= i < n implies (#[trigger] cells[i]).R >= 0 by {}
    lemma_sum_r_nonneg(cells, n);
    assert forall|i: int| 0 <= i < n implies (#[trigger] next[i]).R >= 0 by {
        lemma_diffusion_only_cell(cells, occ, p, i);
        lemma_min_r_ge(cells, n, 0);
    }
    lemma_sum_r_nonneg(next, n);
    lemma_tdiv_monotone(s1, s0 + n, n);
    lemma_tdiv_monotone(s0, s1 + n, n);
    lemma_div_succ(s0, n);
    lemma_div_succ(s1, n);
}

/// `(x + d) / d` is one more than `x / d`, for non-negative `x`.
proof fn lemma_div_succ(x: int, d: int)
    requires
        x >= 0,
        d >= 1,
    ensures
        tdiv(x + d, d) == tdiv(x, d) + 1,
{
    vstd::arithmetic::div_mod::lemma_div_plus_one(x, d);
}

/// Diffusion-only through a whole tick: the total front resource is
/// conserved up to one rounding step per cell.
pub proof fn lemma_tick_diffusion_only_conserves(
    old_sim: crate::sim::Simulation,
    new_sim: crate::sim::Simulation,
)
    requires
        old_sim.wf(),
        new_sim.wf(),
        crate::sim::tick_post(old_sim, new_sim),
        diffusion_only(crate::params::rd_params_of(old_sim.config)),
    ensures
        -(old_sim.field.front().len() as int) < sum_r(
            new_sim.field.front(),
            new_sim.field.front().len() as int,
        ) - sum_r(old_sim.field.front(), old_sim.field.front().len() as int),
        sum_r(new_sim.field.front(), new_sim.field.front().len() as int) - sum_r(
            old_sim.field.front(),
            old_sim.field.front().len() as int,
        ) < old_sim.field.front().len(),
{
    let p = crate::params::rd_params_of(old_sim.config);
    crate::params::lemma_derived_params_wf(old_sim.config);
    lemma_tick_front_is_rd_grid(old_sim, new_sim);
    lemma_diffusion_only_conserves(old_sim.field.front(), new_sim.occupancy@, p);
}

} // verus!
