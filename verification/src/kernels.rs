//! The two compute kernels.  Each kernel instance reads shared state
//! and writes its own cell or agent, exactly as the per-tick protocol
//! demands: the chemotaxis kernel reads the front field and fills the
//! occupancy grid, the reaction-diffusion kernel reads the front field
//! and the occupancy grid and writes the back field.

use vstd::prelude::*;

verus! {

use crate::agents::Agent;
use crate::agents::agent_ok;
use crate::agents::agents_wf;
use crate::field::FieldData;
use crate::field::cell_ok;
use crate::field::grid_wf;
use crate::fixed::FP_ONE;
use crate::fixed::clamped;
use crate::fixed::fp_clamp;
use crate::fixed::fp_scale;
use crate::fixed::lemma_mul_abs_bound;
use crate::fixed::lemma_tdiv_abs;
use crate::fixed::lemma_tdiv_exact;
use crate::fixed::lemma_tdiv_monotone;
use crate::fixed::lemma_tdiv_zero;
use crate::fixed::sqrt_floor;
use crate::fixed::tdiv;
use crate::params::AGENTS_MAX;
use crate::params::AgentParams;
use crate::params::CELL_MAX;
use crate::params::ENERGY_MAX;
use crate::params::H_SCALE;
use crate::params::RDParams;
use crate::params::agent_params_wf;
use crate::params::rd_params_wf;

/// A coordinate clamped onto `[0, hi]`: reads past the edge see the
/// edge cell.
pub open spec fn coord(v: int, hi: int) -> int {
    if v < 0 {
        0
    } else if v > hi {
        hi
    } else {
        v
    }
}

/// The cell at clamped coordinates `(x, y)`.
pub open spec fn at(cells: Seq<FieldData>, w: int, h: int, x: int, y: int) -> FieldData {
    cells[coord(y, h - 1) * w + coord(x, w - 1)]
}

/// The reaction-diffusion law for one cell, one explicit Euler step:
/// discrete Laplacian diffusion, saturating replenishment, decay,
/// occupancy-scaled uptake with waste emission, and the non-negative
/// floor, saturating at the representable ceiling.
pub open spec fn rd_cell_spec(cells: Seq<FieldData>, occ: Seq<u32>, p: RDParams, i: int) -> FieldData {
    let w = p.width as int;
    let h = p.height as int;
    let x = i % w;
    let y = i / w;
    let c = cells[i];
    let lap_r = at(cells, w, h, x - 1, y).R + at(cells, w, h, x + 1, y).R + at(
        cells,
        w,
        h,
        x,
        y - 1,
    ).R + at(cells, w, h, x, y + 1).R - 4 * c.R;
    let lap_w = at(cells, w, h, x - 1, y).W + at(cells, w, h, x + 1, y).W + at(
        cells,
        w,
        h,
        x,
        y - 1,
    ).W + at(cells, w, h, x, y + 1).W - 4 * c.W;
    let c1r = tdiv(p.D_R * p.dt, FP_ONE as int);
    let c1w = tdiv(p.D_W * p.dt, FP_ONE as int);
    let diff_r = tdiv(c1r * lap_r, FP_ONE as int);
    let diff_w = tdiv(c1w * lap_w, FP_ONE as int);
    let room = if c.R < FP_ONE {
        FP_ONE - c.R
    } else {
        0int
    };
    let repl = tdiv(tdiv(p.sigma_R * room, FP_ONE as int) * p.dt, FP_ONE as int);
    let dec_r = tdiv(tdiv(p.lambda_R * c.R, FP_ONE as int) * p.dt, FP_ONE as int);
    let dec_w = tdiv(tdiv(p.lambda_W * c.W, FP_ONE as int) * p.dt, FP_ONE as int);
    let density = occ[i] * H_SCALE;
    let urate = tdiv(p.alpha_H * density, FP_ONE as int);
    let f_raw = tdiv(urate * p.dt, FP_ONE as int);
    let f = if f_raw > FP_ONE {
        FP_ONE as int
    } else {
        f_raw
    };
    let removal = tdiv(c.R * f, FP_ONE as int);
    let emit = tdiv(p.beta_H * removal, FP_ONE as int);
    FieldData {
        R: clamped(c.R + diff_r + repl - dec_r - removal, 0, CELL_MAX as int) as i64,
        W: clamped(c.W + diff_w - dec_w + emit, 0, CELL_MAX as int) as i64,
    }
}

/// Executable kernel instance for one cell.
#[verifier::loop_isolation(false)]
#[verifier::rlimit(100)]
pub fn rd_cell(cells: &Vec<FieldData>, occ: &Vec<u32>, p: &RDParams, x: usize, y: usize) -> (r:
    FieldData)
    requires
        rd_params_wf(*p),
        grid_wf(cells@, p.width as int, p.height as int),
        occ@.len() == cells@.len(),
        forall|j: int| 0 <= j < occ@.len() ==> #[trigger] occ@[j] <= 3 * AGENTS_MAX,
        x < p.width,
        y < p.height,
    ensures
        r == rd_cell_spec(cells@, occ@, *p, y * (p.width as int) + x),
        cell_ok(r),
{
    let w = p.width as usize;
    let h = p.height as usize;
    proof {
        crate::field::lemma_flat_index_in_range(x as int, y as int, w as int, h as int);
        vstd::arithmetic::div_mod::lemma_fundamental_div_mod_converse(
            (y * w + x) as int,
            w as int,
            y as int,
            x as int,
        );
    }
    let i = y * w + x;
    let c = cells[i];
    let xl = if x == 0 {
        0
    } else {
        x - 1
    };
    let xr = if x + 1 >= w {
        w - 1
    } else {
        x + 1
    };
    let yu = if y == 0 {
        0
    } else {
        y - 1
    };
    let yd = if y + 1 >= h {
        h - 1
    } else {
        y + 1
    };
    proof {
        crate::field::lemma_flat_index_in_range(xl as int, y as int, w as int, h as int);
        crate::field::lemma_flat_index_in_range(xr as int, y as int, w as int, h as int);
        crate::field::lemma_flat_index_in_range(x as int, yu as int, w as int, h as int);
        crate::field::lemma_flat_index_in_range(x as int, yd as int, w as int, h as int);
    }
    let left = cells[y * w + xl];
    let right = cells[y * w + xr];
    let up = cells[yu * w + x];
    let down = cells[yd * w + x];
    proof {
        assert(cell_ok(cells@[(y * w + xl) as int]));
        assert(cell_ok(cells@[(y * w + xr) as int]));
        assert(cell_ok(cells@[(yu * w + x) as int]));
        assert(cell_ok(cells@[(yd * w + x) as int]));
    }
    let lap_r = left.R + right.R + up.R + down.R - 4 * c.R;
    let lap_w = left.W + right.W + up.W + down.W - 4 * c.W;
    proof {
        assert(p.D_R as int * p.dt as int >= 0 && p.D_W as int * p.dt as int >= 0
            && 4 * (p.D_R as int * p.dt as int) == 4 * p.dt as int * p.D_R as int
            && 4 * (p.D_W as int * p.dt as int) == 4 * p.dt as int * p.D_W as int)
            by (nonlinear_arith)
            requires p.D_R >= 0, p.D_W >= 0, p.dt > 0;
        lemma_tdiv_monotone(0, p.D_R as int * p.dt as int, FP_ONE as int);
        lemma_tdiv_monotone(p.D_R as int * p.dt as int, 250_000_000_000, FP_ONE as int);
        lemma_tdiv_monotone(0, p.D_W as int * p.dt as int, FP_ONE as int);
        lemma_tdiv_monotone(p.D_W as int * p.dt as int, 250_000_000_000, FP_ONE as int);
    }
    let c1r = fp_scale(p.D_R, p.dt, FP_ONE);
    let c1w = fp_scale(p.D_W, p.dt, FP_ONE);
    proof {
        lemma_mul_abs_bound(c1r as int, lap_r as int, 250_000, 262_016_000_000);
        lemma_tdiv_shrink_helper(c1r as int * lap_r as int);
        lemma_mul_abs_bound(c1w as int, lap_w as int, 250_000, 262_016_000_000);
        lemma_tdiv_shrink_helper(c1w as int * lap_w as int);
    }
    let diff_r = fp_scale(c1r, lap_r, FP_ONE);
    let diff_w = fp_scale(c1w, lap_w, FP_ONE);
    let room: i64 = if c.R < FP_ONE {
        FP_ONE - c.R
    } else {
        0
    };
    proof {
        lemma_mul_abs_bound(p.sigma_R as int, room as int, FP_ONE as int, FP_ONE as int);
        lemma_tdiv_abs(p.sigma_R as int * room as int, FP_ONE as int, FP_ONE as int * FP_ONE as int);
    }
    let repl0 = fp_scale(p.sigma_R, room, FP_ONE);
    proof {
        lemma_tdiv_abs(p.sigma_R as int * room as int, FP_ONE as int, 1_000_000_000_000);
        lemma_mul_abs_bound(repl0 as int, p.dt as int, 1_000_000_000_000, FP_ONE as int);
        lemma_tdiv_abs(repl0 as int * p.dt as int, FP_ONE as int, 1_000_000_000_000_000_000);
    }
    let repl = fp_scale(repl0, p.dt, FP_ONE);
    proof {
        lemma_mul_abs_bound(p.lambda_R as int, c.R as int, FP_ONE as int, CELL_MAX as int);
        lemma_tdiv_abs(p.lambda_R as int * c.R as int, FP_ONE as int, 0x7fff_ffff_ffff_ffff);
        lemma_tdiv_shrink_helper(p.lambda_R as int * c.R as int);
        lemma_mul_abs_bound(p.lambda_W as int, c.W as int, FP_ONE as int, CELL_MAX as int);
        lemma_tdiv_shrink_helper(p.lambda_W as int * c.W as int);
    }
    let dec_r0 = fp_scale(p.lambda_R, c.R, FP_ONE);
    let dec_w0 = fp_scale(p.lambda_W, c.W, FP_ONE);
    proof {
        lemma_mul_abs_bound(dec_r0 as int, p.dt as int, 65_504_000_000, FP_ONE as int);
        lemma_tdiv_shrink_helper(dec_r0 as int * p.dt as int);
        lemma_mul_abs_bound(dec_w0 as int, p.dt as int, 65_504_000_000, FP_ONE as int);
        lemma_tdiv_shrink_helper(dec_w0 as int * p.dt as int);
    }
    let dec_r = fp_scale(dec_r0, p.dt, FP_ONE);
    let dec_w = fp_scale(dec_w0, p.dt, FP_ONE);
    let density = (occ[i] as i64) * H_SCALE;
    proof {
        lemma_mul_abs_bound(p.alpha_H as int, density as int, FP_ONE as int, 375_000_000_000);
        lemma_tdiv_shrink_helper(p.alpha_H as int * density as int);
    }
    let urate = fp_scale(p.alpha_H, density, FP_ONE);
    proof {
        lemma_tdiv_abs(p.alpha_H as int * density as int, FP_ONE as int, 375_000_000_000_000_000);
        lemma_mul_abs_bound(urate as int, p.dt as int, 375_000_000_000, FP_ONE as int);
        lemma_tdiv_shrink_helper(urate as int * p.dt as int);
    }
    let f_raw = fp_scale(urate, p.dt, FP_ONE);
    let f: i64 = if f_raw > FP_ONE {
        FP_ONE
    } else {
        f_raw
    };
    proof {
        lemma_mul_abs_bound(c.R as int, f as int, CELL_MAX as int, FP_ONE as int);
        lemma_tdiv_shrink_helper(c.R as int * f as int);
    }
    let removal = fp_scale(c.R, f, FP_ONE);
    proof {
        lemma_tdiv_abs(c.R as int * f as int, FP_ONE as int, 65_504_000_000_000_000);
        lemma_mul_abs_bound(p.beta_H as int, removal as int, FP_ONE as int, 65_504_000_000);
        lemma_tdiv_shrink_helper(p.beta_H as int * removal as int);
    }
    let emit = fp_scale(p.beta_H, removal, FP_ONE);
    let new_r = fp_clamp(c.R + diff_r + repl - dec_r - removal, 0, CELL_MAX);
    let new_w = fp_clamp(c.W + diff_w - dec_w + emit, 0, CELL_MAX);
    FieldData { R: new_r, W: new_w }
}

/// The magnitude of every fixed-point quotient taken in the kernel
/// fits a machine word.
proof fn lemma_tdiv_shrink_helper(a: int)
    requires
        -0x7000_0000_0000_0000_0000 <= a <= 0x7000_0000_0000_0000_0000,
    ensures
        -0x7fff_ffff_ffff_ffff <= tdiv(a, FP_ONE as int) <= 0x7fff_ffff_ffff_ffff,
{
    crate::fixed::lemma_tdiv_shrinks(a, FP_ONE as int, FP_ONE as int, 0x7fff_ffff_ffff_ffff);
    assert(0x7000_0000_0000_0000_0000 <= 0x7fff_ffff_ffff_ffff * (FP_ONE as int));
}

/// One reaction-diffusion pass: reads the front grid and the occupancy
/// grid, overwrites the whole back grid.  One instance per cell, no
/// cross-instance communication.
pub fn rd_step(front: &Vec<FieldData>, occ: &Vec<u32>, back: &mut Vec<FieldData>, p: &RDParams)
    requires
        rd_params_wf(*p),
        grid_wf(front@, p.width as int, p.height as int),
        occ@.len() == front@.len(),
        forall|j: int| 0 <= j < occ@.len() ==> #[trigger] occ@[j] <= 3 * AGENTS_MAX,
    ensures
        final(back)@.len() == front@.len(),
        forall|i: int|
            0 <= i < front@.len() ==> #[trigger] final(back)@[i] == rd_cell_spec(
                front@,
                occ@,
                *p,
                i,
            ),
        grid_wf(final(back)@, p.width as int, p.height as int),
{
    let w = p.width as usize;
    let h = p.height as usize;
    proof {
        crate::field::lemma_flat_index_in_range(
            (w - 1) as int,
            (h - 1) as int,
            w as int,
            h as int,
        );
    }
    let n: usize = w * h;
    let mut out: Vec<FieldData> = Vec::new();
    let mut y: usize = 0;
    while y < h
        invariant
            rd_params_wf(*p),
            grid_wf(front@, p.width as int, p.height as int),
            occ@.len() == front@.len(),
            forall|j: int| 0 <= j < occ@.len() ==> #[trigger] occ@[j] <= 3 * AGENTS_MAX,
            w == p.width && h == p.height,
            y <= h,
            out@.len() == y * w,
            forall|i: int|
                0 <= i < y * w ==> #[trigger] out@[i] == rd_cell_spec(front@, occ@, *p, i)
                    && cell_ok(out@[i]),
        decreases h - y,
    {
        let mut x: usize = 0;
        while x < w
            invariant
                rd_params_wf(*p),
                grid_wf(front@, p.width as int, p.height as int),
                occ@.len() == front@.len(),
                forall|j: int| 0 <= j < occ@.len() ==> #[trigger] occ@[j] <= 3 * AGENTS_MAX,
                w == p.width && h == p.height,
                y < h,
                x <= w,
                out@.len() == y * w + x,
                forall|i: int|
                    0 <= i < y * w + x ==> #[trigger] out@[i] == rd_cell_spec(front@, occ@, *p, i)
                        && cell_ok(out@[i]),
            decreases w - x,
        {
            let c = rd_cell(front, occ, p, x, y);
            out.push(c);
            x = x + 1;
        }
        proof {
            assert((y + 1) * (w as int) == y * (w as int) + (w as int)) by (nonlinear_arith);
        }
        y = y + 1;
    }
    proof {
        assert((h as int) * (w as int) == (w as int) * (h as int)) by (nonlinear_arith);
    }
    *back = out;
}

/// Column of the cell nearest a fixed-point position.
pub open spec fn cell_x_of(pos_x: int, w: int) -> int {
    clamped(tdiv(pos_x, FP_ONE as int), 0, w - 1)
}

/// Row of the cell nearest a fixed-point position.
pub open spec fn cell_y_of(pos_y: int, h: int) -> int {
    clamped(tdiv(pos_y, FP_ONE as int), 0, h - 1)
}

/// Flat index of the cell nearest an agent's position.
pub open spec fn cell_of(a: Agent, w: int, h: int) -> int {
    cell_y_of(a.pos_y as int, h) * w + cell_x_of(a.pos_x as int, w)
}

/// Saturating nonlinearity on a gradient component: `g / (kappa + |g|)`
/// in fixed point, always in `(-1, 1)`.
pub open spec fn sat_spec(g: int, kappa: int) -> int
    recommends
        kappa >= 1,
{
    tdiv(g * FP_ONE, kappa + (if g >= 0 {
        g
    } else {
        -g
    }))
}

/// The chemotaxis law for one agent, one explicit Euler step: gradient
/// attraction and repulsion through the saturating nonlinearity,
/// velocity damping, speed clamp, position integration with clamping
/// to the domain, basal energy drain and resource-scaled gain, and
/// death at exhausted energy.  A dead agent is inert and unchanged.
pub open spec fn agent_next_spec(a: Agent, cells: Seq<FieldData>, p: AgentParams) -> Agent {
    if a.alive != 1 {
        a
    } else {
        let w = p.width as int;
        let h = p.height as int;
        let cx = cell_x_of(a.pos_x as int, w);
        let cy = cell_y_of(a.pos_y as int, h);
        let gx_r = tdiv(at(cells, w, h, cx + 1, cy).R - at(cells, w, h, cx - 1, cy).R, 2);
        let gy_r = tdiv(at(cells, w, h, cx, cy + 1).R - at(cells, w, h, cx, cy - 1).R, 2);
        let gx_w = tdiv(at(cells, w, h, cx + 1, cy).W - at(cells, w, h, cx - 1, cy).W, 2);
        let gy_w = tdiv(at(cells, w, h, cx, cy + 1).W - at(cells, w, h, cx, cy - 1).W, 2);
        let ax = tdiv(p.chi_R * sat_spec(gx_r, p.kappa as int), FP_ONE as int) - tdiv(
            p.chi_W * sat_spec(gx_w, p.kappa as int),
            FP_ONE as int,
        );
        let ay = tdiv(p.chi_R * sat_spec(gy_r, p.kappa as int), FP_ONE as int) - tdiv(
            p.chi_W * sat_spec(gy_w, p.kappa as int),
            FP_ONE as int,
        );
        let damp_x = tdiv(tdiv(p.gamma * a.vel_x, FP_ONE as int) * p.dt, FP_ONE as int);
        let damp_y = tdiv(tdiv(p.gamma * a.vel_y, FP_ONE as int) * p.dt, FP_ONE as int);
        let vx1 = a.vel_x + tdiv(p.dt * ax, FP_ONE as int) - damp_x;
        let vy1 = a.vel_y + tdiv(p.dt * ay, FP_ONE as int) - damp_y;
        let sp1 = sqrt_floor(vx1 * vx1 + vy1 * vy1);
        let vx2 = if sp1 > p.v_max {
            tdiv(vx1 * p.v_max, sp1)
        } else {
            vx1
        };
        let vy2 = if sp1 > p.v_max {
            tdiv(vy1 * p.v_max, sp1)
        } else {
            vy1
        };
        let px = clamped(a.pos_x + tdiv(vx2 * p.dt, FP_ONE as int), 0, w * FP_ONE);
        let py = clamped(a.pos_y + tdiv(vy2 * p.dt, FP_ONE as int), 0, h * FP_ONE);
        let r_local = at(cells, w, h, cx, cy).R;
        let gain = tdiv(p.eta_R * tdiv(p.dt * r_local, FP_ONE as int), FP_ONE as int);
        let drain = tdiv(p.eps0 * p.dt, FP_ONE as int);
        let e1 = a.energy - drain + gain;
        Agent {
            pos_x: px as i64,
            pos_y: py as i64,
            vel_x: vx2 as i64,
            vel_y: vy2 as i64,
            energy: clamped(e1, 0, ENERGY_MAX as int) as i64,
            alive: if e1 <= 0 {
                0
            } else {
                1
            },
            kind: a.kind,
        }
    }
}

/// Occupancy of cell `c` contributed by the first `n` agents: one
/// count for each living agent whose nearest cell is `c`.
pub open spec fn occ_count(agents: Seq<Agent>, n: int, c: int, w: int, h: int) -> int
    decreases n,
{
    if n <= 0 {
        0
    } else {
        occ_count(agents, n - 1, c, w, h) + if agents[n - 1].alive == 1 && cell_of(
            agents[n - 1],
            w,
            h,
        ) == c {
            1int
        } else {
            0int
        }
    }
}

/// The occupancy count over a prefix depends on that prefix alone.
pub proof fn lemma_occ_count_prefix(a1: Seq<Agent>, a2: Seq<Agent>, n: int, c: int, w: int, h: int)
    requires
        forall|j: int| 0 <= j < n ==> a1[j] == a2[j],
    ensures
        occ_count(a1, n, c, w, h) == occ_count(a2, n, c, w, h),
    decreases n,
{
    if n > 0 {
        lemma_occ_count_prefix(a1, a2, n - 1, c, w, h);
    }
}

/// The occupancy count is bounded by the number of agents counted.
pub proof fn lemma_occ_count_le(agents: Seq<Agent>, n: int, c: int, w: int, h: int)
    requires
        0 <= n,
    ensures
        0 <= occ_count(agents, n, c, w, h) <= n,
    decreases n,
{
    if n > 0 {
        lemma_occ_count_le(agents, n - 1, c, w, h);
    }
}

/// Zeroes the occupancy grid: a full-grid write of zero, before any
/// agent deposits.
pub fn clear_occupancy(occ: &mut Vec<u32>)
    ensures
        final(occ)@.len() == old(occ)@.len(),
        forall|i: int| 0 <= i < final(occ)@.len() ==> #[trigger] final(occ)@[i] == 0,
{
    let n = occ.len();
    let mut i: usize = 0;
    while i < n
        invariant
            occ@.len() == n,
            i <= n,
            forall|j: int| 0 <= j < i ==> #[trigger] occ@[j] == 0,
        decreases n - i,
    {
        occ.set(i, 0);
        i = i + 1;
    }
}

/// Executable kernel instance for one agent.
#[verifier::loop_isolation(false)]
#[verifier::rlimit(100)]
pub fn agent_next(a: Agent, cells: &Vec<FieldData>, p: &AgentParams) -> (r: Agent)
    requires
        agent_params_wf(*p),
        grid_wf(cells@, p.width as int, p.height as int),
        agent_ok(a, p.width as int, p.height as int),
    ensures
        r == agent_next_spec(a, cells@, *p),
        agent_ok(r, p.width as int, p.height as int),
{
    if a.alive != 1 {
        return a;
    }
    let w = p.width as usize;
    let h = p.height as usize;
    proof {
        lemma_tdiv_abs(a.pos_x as int, FP_ONE as int, 4096 * FP_ONE as int);
        lemma_tdiv_abs(a.pos_y as int, FP_ONE as int, 4096 * FP_ONE as int);
    }
    let cxi = fp_clamp(a.pos_x / FP_ONE, 0, (w as i64) - 1);
    let cyi = fp_clamp(a.pos_y / FP_ONE, 0, (h as i64) - 1);
    let cx = cxi as usize;
    let cy = cyi as usize;
    let xl = if cx == 0 {
        0
    } else {
        cx - 1
    };
    let xr = if cx + 1 >= w {
        w - 1
    } else {
        cx + 1
    };
    let yu = if cy == 0 {
        0
    } else {
        cy - 1
    };
    let yd = if cy + 1 >= h {
        h - 1
    } else {
        cy + 1
    };
    proof {
        crate::field::lemma_flat_index_in_range(xl as int, cy as int, w as int, h as int);
        crate::field::lemma_flat_index_in_range(xr as int, cy as int, w as int, h as int);
        crate::field::lemma_flat_index_in_range(cx as int, yu as int, w as int, h as int);
        crate::field::lemma_flat_index_in_range(cx as int, yd as int, w as int, h as int);
        crate::field::lemma_flat_index_in_range(cx as int, cy as int, w as int, h as int);
    }
    let left = cells[cy * w + xl];
    let right = cells[cy * w + xr];
    let up = cells[yu * w + cx];
    let down = cells[yd * w + cx];
    let here = cells[cy * w + cx];
    proof {
        assert(cell_ok(cells@[(cy * w + xl) as int]));
        assert(cell_ok(cells@[(cy * w + xr) as int]));
        assert(cell_ok(cells@[(yu * w + cx) as int]));
        assert(cell_ok(cells@[(yd * w + cx) as int]));
        assert(cell_ok(cells@[(cy * w + cx) as int]));
    }
    let gx_r = (right.R - left.R) / 2;
    let gy_r = (down.R - up.R) / 2;
    let gx_w = (right.W - left.W) / 2;
    let gy_w = (down.W - up.W) / 2;
    let sxr = saturate(gx_r, p.kappa);
    let syr = saturate(gy_r, p.kappa);
    let sxw = saturate(gx_w, p.kappa);
    let syw = saturate(gy_w, p.kappa);
    proof {
        lemma_chi_sat_fits(p.chi_R as int, sxr as int);
        lemma_chi_sat_fits(p.chi_W as int, sxw as int);
        lemma_chi_sat_fits(p.chi_R as int, syr as int);
        lemma_chi_sat_fits(p.chi_W as int, syw as int);
    }
    let ax = fp_scale(p.chi_R, sxr, FP_ONE) - fp_scale(p.chi_W, sxw, FP_ONE);
    let ay = fp_scale(p.chi_R, syr, FP_ONE) - fp_scale(p.chi_W, syw, FP_ONE);
    proof {
        lemma_damp_fits(p.gamma as int, a.vel_x as int, p.dt as int);
        lemma_damp_fits(p.gamma as int, a.vel_y as int, p.dt as int);
        lemma_accel_fits(p.dt as int, ax as int);
        lemma_accel_fits(p.dt as int, ay as int);
    }
    let damp_x = fp_scale(fp_scale(p.gamma, a.vel_x, FP_ONE), p.dt, FP_ONE);
    let damp_y = fp_scale(fp_scale(p.gamma, a.vel_y, FP_ONE), p.dt, FP_ONE);
    let vx1 = a.vel_x + fp_scale(p.dt, ax, FP_ONE) - damp_x;
    let vy1 = a.vel_y + fp_scale(p.dt, ay, FP_ONE) - damp_y;
    proof {
        lemma_mul_abs_bound(vx1 as int, vx1 as int, 400_000_000, 400_000_000);
        lemma_mul_abs_bound(vy1 as int, vy1 as int, 400_000_000, 400_000_000);
        assert(vx1 as int * vx1 as int >= 0 && vy1 as int * vy1 as int >= 0) by (nonlinear_arith);
        crate::fixed::lemma_sqrt_floor_bounds((vx1 * vx1 + vy1 * vy1) as int);
        crate::fixed::lemma_sqrt_floor_le((vx1 * vx1 + vy1 * vy1) as int, 600_000_000);
    }
    let sp1_64 = crate::fixed::isqrt(
        ((vx1 as i128) * (vx1 as i128) + (vy1 as i128) * (vy1 as i128)) as u128,
    );
    let sp1 = sp1_64 as i64;
    let vx2: i64;
    let vy2: i64;
    if sp1 > p.v_max {
        proof {
            lemma_speed_clamp_fits(vx1 as int, vy1 as int, sp1 as int, p.v_max as int);
        }
        vx2 = fp_scale(vx1, p.v_max, sp1);
        vy2 = fp_scale(vy1, p.v_max, sp1);
    } else {
        proof {
            lemma_component_le_norm(vx1 as int, vy1 as int, sp1 as int);
        }
        vx2 = vx1;
        vy2 = vy1;
    }
    proof {
        lemma_mul_abs_bound(vx2 as int, p.dt as int, 600_000_000, FP_ONE as int);
        lemma_tdiv_abs(vx2 as int * p.dt as int, FP_ONE as int, 600_000_000_000_000);
        lemma_mul_abs_bound(vy2 as int, p.dt as int, 600_000_000, FP_ONE as int);
        lemma_tdiv_abs(vy2 as int * p.dt as int, FP_ONE as int, 600_000_000_000_000);
    }
    let px = fp_clamp(a.pos_x + fp_scale(vx2, p.dt, FP_ONE), 0, (w as i64) * FP_ONE);
    let py = fp_clamp(a.pos_y + fp_scale(vy2, p.dt, FP_ONE), 0, (h as i64) * FP_ONE);
    proof {
        lemma_mul_abs_bound(p.dt as int, here.R as int, FP_ONE as int, CELL_MAX as int);
        lemma_tdiv_shrink_helper(p.dt as int * here.R as int);
        lemma_tdiv_abs(p.dt as int * here.R as int, FP_ONE as int, 65_504_000_000_000_000);
    }
    let gain0 = fp_scale(p.dt, here.R, FP_ONE);
    proof {
        lemma_mul_abs_bound(p.eta_R as int, gain0 as int, FP_ONE as int, 65_504_000_000);
        lemma_tdiv_shrink_helper(p.eta_R as int * gain0 as int);
        lemma_tdiv_abs(p.eta_R as int * gain0 as int, FP_ONE as int, 65_504_000_000_000_000);
        lemma_mul_abs_bound(p.eps0 as int, p.dt as int, FP_ONE as int, FP_ONE as int);
        lemma_tdiv_abs(p.eps0 as int * p.dt as int, FP_ONE as int, FP_ONE as int * FP_ONE as int);
    }
    let gain = fp_scale(p.eta_R, gain0, FP_ONE);
    let drain = fp_scale(p.eps0, p.dt, FP_ONE);
    let e1 = a.energy - drain + gain;
    let alive: u32 = if e1 <= 0 {
        0
    } else {
        1
    };
    let energy = fp_clamp(e1, 0, ENERGY_MAX);
    Agent { pos_x: px, pos_y: py, vel_x: vx2, vel_y: vy2, energy, alive, kind: a.kind }
}

/// Executable saturating nonlinearity.
fn saturate(g: i64, kappa: i64) -> (r: i64)
    requires
        1 <= kappa <= 100_000_000,
        -0x7fff_ffff_ffff <= g <= 0x7fff_ffff_ffff,
    ensures
        r == sat_spec(g as int, kappa as int),
        -FP_ONE <= r <= FP_ONE,
{
    let mag: i64 = if g >= 0 {
        g
    } else {
        -g
    };
    proof {
        lemma_mul_abs_bound(g as int, FP_ONE as int, 0x7fff_ffff_ffff, FP_ONE as int);
        if g > 0 {
            vstd::arithmetic::div_mod::lemma_div_is_ordered_by_denominator(
                g as int * FP_ONE as int,
                mag as int,
                kappa as int + mag as int,
            );
            lemma_tdiv_exact(FP_ONE as int, mag as int);
            assert(g as int * FP_ONE as int == FP_ONE as int * (g as int)) by (nonlinear_arith);
            vstd::arithmetic::div_mod::lemma_div_pos_is_pos(
                g as int * FP_ONE as int,
                kappa as int + mag as int,
            );
            assert(g as int * FP_ONE as int >= 0) by (nonlinear_arith)
                requires g >= 0;
        } else if g < 0 {
            vstd::arithmetic::div_mod::lemma_div_is_ordered_by_denominator(
                (-(g as int)) * FP_ONE as int,
                mag as int,
                kappa as int + mag as int,
            );
            lemma_tdiv_exact(FP_ONE as int, mag as int);
            assert(-(g as int * FP_ONE as int) == (-(g as int)) * FP_ONE as int
                && (-(g as int)) * FP_ONE as int == FP_ONE as int * (-(g as int))
                && (-(g as int)) * FP_ONE as int >= 0) by (nonlinear_arith)
                requires g < 0;
            vstd::arithmetic::div_mod::lemma_div_pos_is_pos(
                (-(g as int)) * FP_ONE as int,
                kappa as int + mag as int,
            );
        } else {
            lemma_tdiv_zero(kappa as int + mag as int);
            assert(g as int * FP_ONE as int == 0) by (nonlinear_arith)
                requires g == 0;
        }
    }
    fp_scale(g, FP_ONE, kappa + mag)
}

/// `chi * sat` fits the fixed-point product.
proof fn lemma_chi_sat_fits(chi: int, s: int)
    requires
        0 <= chi <= 100_000_000,
        -FP_ONE <= s <= FP_ONE,
    ensures
        -0x7fff_ffff_ffff_ffff <= tdiv(chi * s, FP_ONE as int) <= 0x7fff_ffff_ffff_ffff,
        -100_000_000 <= tdiv(chi * s, FP_ONE as int) <= 100_000_000,
{
    lemma_mul_abs_bound(chi, s, 100_000_000, FP_ONE as int);
    lemma_tdiv_monotone(chi * s, 100_000_000 * FP_ONE as int, FP_ONE as int);
    lemma_tdiv_monotone((-100_000_000) * FP_ONE as int, chi * s, FP_ONE as int);
    lemma_tdiv_exact(100_000_000, FP_ONE as int);
    lemma_tdiv_exact(-100_000_000, FP_ONE as int);
}

/// The damping term fits and is bounded by the damped component.
proof fn lemma_damp_fits(gamma: int, v: int, dt: int)
    requires
        0 <= gamma <= FP_ONE,
        0 < dt <= FP_ONE,
        -100_000_000 <= v <= 100_000_000,
    ensures
        -0x7fff_ffff_ffff_ffff <= tdiv(gamma * v, FP_ONE as int) <= 0x7fff_ffff_ffff_ffff,
        v >= 0 ==> 0 <= tdiv(tdiv(gamma * v, FP_ONE as int) * dt, FP_ONE as int) <= v,
        v < 0 ==> v <= tdiv(tdiv(gamma * v, FP_ONE as int) * dt, FP_ONE as int) <= 0,
        -0x7fff_ffff_ffff_ffff <= tdiv(gamma * v, FP_ONE as int) * dt,
        tdiv(gamma * v, FP_ONE as int) * dt <= 0x7fff_ffff_ffff_ffff,
{
    lemma_mul_abs_bound(gamma, v, FP_ONE as int, 100_000_000);
    let d0 = tdiv(gamma * v, FP_ONE as int);
    lemma_tdiv_abs(gamma * v, FP_ONE as int, FP_ONE as int * 100_000_000);
    if v >= 0 {
        assert(0 <= gamma * v <= v * FP_ONE as int) by (nonlinear_arith)
            requires 0 <= gamma <= FP_ONE, v >= 0;
        lemma_tdiv_monotone(0, gamma * v, FP_ONE as int);
        lemma_tdiv_monotone(gamma * v, v * FP_ONE as int, FP_ONE as int);
        lemma_tdiv_exact(v, FP_ONE as int);
        assert(0 <= d0 * dt <= v * FP_ONE as int) by (nonlinear_arith)
            requires 0 <= d0 <= v, 0 < dt <= FP_ONE;
        lemma_tdiv_monotone(0, d0 * dt, FP_ONE as int);
        lemma_tdiv_monotone(d0 * dt, v * FP_ONE as int, FP_ONE as int);
        lemma_tdiv_exact(v, FP_ONE as int);
    } else {
        assert(v * FP_ONE as int <= gamma * v <= 0) by (nonlinear_arith)
            requires 0 <= gamma <= FP_ONE, v < 0;
        lemma_tdiv_monotone(gamma * v, 0, FP_ONE as int);
        lemma_tdiv_monotone(v * FP_ONE as int, gamma * v, FP_ONE as int);
        lemma_tdiv_exact(v, FP_ONE as int);
        assert(v * FP_ONE as int <= d0 * dt <= 0) by (nonlinear_arith)
            requires v <= d0 <= 0, 0 < dt <= FP_ONE;
        lemma_tdiv_monotone(d0 * dt, 0, FP_ONE as int);
        lemma_tdiv_monotone(v * FP_ONE as int, d0 * dt, FP_ONE as int);
        lemma_tdiv_exact(v, FP_ONE as int);
    }
}

/// The acceleration term fits and is bounded by the acceleration.
proof fn lemma_accel_fits(dt: int, acc: int)
    requires
        0 < dt <= FP_ONE,
        -200_000_000 <= acc <= 200_000_000,
    ensures
        -0x7fff_ffff_ffff_ffff <= tdiv(dt * acc, FP_ONE as int) <= 0x7fff_ffff_ffff_ffff,
        -200_000_000 <= tdiv(dt * acc, FP_ONE as int) <= 200_000_000,
{
    lemma_mul_abs_bound(dt, acc, FP_ONE as int, 200_000_000);
    lemma_tdiv_monotone(dt * acc, 200_000_000 * FP_ONE as int, FP_ONE as int);
    lemma_tdiv_monotone((-200_000_000) * FP_ONE as int, dt * acc, FP_ONE as int);
    lemma_tdiv_exact(200_000_000, FP_ONE as int);
    lemma_tdiv_exact(-200_000_000, FP_ONE as int);
}

/// Each velocity component is bounded by the speed.
proof fn lemma_component_le_norm(vx: int, vy: int, sp: int)
    requires
        sp == sqrt_floor(vx * vx + vy * vy),
        -400_000_000 <= vx <= 400_000_000,
        -400_000_000 <= vy <= 400_000_000,
    ensures
        -sp <= vx <= sp,
        -sp <= vy <= sp,
{
    assert(vx * vx >= 0 && vy * vy >= 0 && vx * vx <= vx * vx + vy * vy
        && vy * vy <= vx * vx + vy * vy) by (nonlinear_arith);
    if vx >= 0 {
        crate::fixed::lemma_sqrt_floor_ge(vx * vx + vy * vy, vx);
    } else {
        assert((-vx) * (-vx) == vx * vx) by (nonlinear_arith);
        crate::fixed::lemma_sqrt_floor_ge(vx * vx + vy * vy, -vx);
    }
    if vy >= 0 {
        crate::fixed::lemma_sqrt_floor_ge(vx * vx + vy * vy, vy);
    } else {
        assert((-vy) * (-vy) == vy * vy) by (nonlinear_arith);
        crate::fixed::lemma_sqrt_floor_ge(vx * vx + vy * vy, -vy);
    }
}

/// The clamped velocity components fit and respect the speed limit.
proof fn lemma_speed_clamp_fits(vx: int, vy: int, sp: int, vmax: int)
    requires
        sp == sqrt_floor(vx * vx + vy * vy),
        sp > vmax,
        0 <= vmax <= 100_000_000,
        -400_000_000 <= vx <= 400_000_000,
        -400_000_000 <= vy <= 400_000_000,
    ensures
        -0x7fff_ffff_ffff_ffff <= tdiv(vx * vmax, sp) <= 0x7fff_ffff_ffff_ffff,
        -vmax <= tdiv(vx * vmax, sp) <= vmax,
        -0x7fff_ffff_ffff_ffff <= tdiv(vy * vmax, sp) <= 0x7fff_ffff_ffff_ffff,
        -vmax <= tdiv(vy * vmax, sp) <= vmax,
{
    lemma_component_le_norm(vx, vy, sp);
    assert(vx * vmax <= sp * vmax && (-(sp * vmax)) <= vx * vmax && vy * vmax <= sp * vmax && (-(
    sp * vmax)) <= vy * vmax && (-(sp * vmax)) == (-vmax) * sp && sp * vmax == vmax * sp)
        by (nonlinear_arith)
        requires
            -sp <= vx <= sp,
            -sp <= vy <= sp,
            0 <= vmax;
    lemma_tdiv_monotone(vx * vmax, vmax * sp, sp);
    lemma_tdiv_monotone((-vmax) * sp, vx * vmax, sp);
    lemma_tdiv_monotone(vy * vmax, vmax * sp, sp);
    lemma_tdiv_monotone((-vmax) * sp, vy * vmax, sp);
    lemma_tdiv_exact(vmax, sp);
    lemma_tdiv_exact(-vmax, sp);
}

/// With both chemotaxis strengths at zero, one step never raises any
/// agent's speed: damping and the speed clamp only slow it down, and
/// a dead agent keeps its velocity unchanged.
pub proof fn lemma_damping_only_slows(a: Agent, cells: Seq<FieldData>, p: AgentParams)
    requires
        agent_params_wf(p),
        grid_wf(cells, p.width as int, p.height as int),
        agent_ok(a, p.width as int, p.height as int),
        p.chi_R == 0,
        p.chi_W == 0,
    ensures
        crate::agents::speed_of(agent_next_spec(a, cells, p)) <= crate::agents::speed_of(a),
{
    if a.alive != 1 {
    } else {
        let fp = FP_ONE as int;
        let na = agent_next_spec(a, cells, p);
        let w = p.width as int;
        let h = p.height as int;
        let cx = cell_x_of(a.pos_x as int, w);
        let cy = cell_y_of(a.pos_y as int, h);
        let sxr = sat_spec(tdiv(at(cells, w, h, cx + 1, cy).R - at(cells, w, h, cx - 1, cy).R, 2), p.kappa as int);
        let syr = sat_spec(tdiv(at(cells, w, h, cx, cy + 1).R - at(cells, w, h, cx, cy - 1).R, 2), p.kappa as int);
        let sxw = sat_spec(tdiv(at(cells, w, h, cx + 1, cy).W - at(cells, w, h, cx - 1, cy).W, 2), p.kappa as int);
        let syw = sat_spec(tdiv(at(cells, w, h, cx, cy + 1).W - at(cells, w, h, cx, cy - 1).W, 2), p.kappa as int);
        assert(p.chi_R as int * sxr == 0 && p.chi_W as int * sxw == 0 && p.chi_R as int * syr == 0
            && p.chi_W as int * syw == 0) by (nonlinear_arith)
            requires p.chi_R == 0, p.chi_W == 0;
        lemma_tdiv_zero(fp);
        let ax = tdiv(p.chi_R * sxr, fp) - tdiv(p.chi_W * sxw, fp);
        let ay = tdiv(p.chi_R * syr, fp) - tdiv(p.chi_W * syw, fp);
        assert(ax == 0 && ay == 0);
        assert(p.dt as int * ax == 0 && p.dt as int * ay == 0) by (nonlinear_arith)
            requires ax == 0, ay == 0;
        lemma_damp_fits(p.gamma as int, a.vel_x as int, p.dt as int);
        lemma_damp_fits(p.gamma as int, a.vel_y as int, p.dt as int);
        let damp_x = tdiv(tdiv(p.gamma * a.vel_x, fp) * p.dt, fp);
        let damp_y = tdiv(tdiv(p.gamma * a.vel_y, fp) * p.dt, fp);
        let vx1 = a.vel_x + tdiv(p.dt * ax, fp) - damp_x;
        let vy1 = a.vel_y + tdiv(p.dt * ay, fp) - damp_y;
        assert(vx1 == a.vel_x - damp_x && vy1 == a.vel_y - damp_y);
        assert(vx1 * vx1 <= a.vel_x as int * a.vel_x as int) by (nonlinear_arith)
            requires
                (a.vel_x >= 0 && 0 <= vx1 <= a.vel_x) || (a.vel_x < 0 && a.vel_x <= vx1 <= 0);
        assert(vy1 * vy1 <= a.vel_y as int * a.vel_y as int) by (nonlinear_arith)
            requires
                (a.vel_y >= 0 && 0 <= vy1 <= a.vel_y) || (a.vel_y < 0 && a.vel_y <= vy1 <= 0);
        assert(vx1 * vx1 >= 0 && vy1 * vy1 >= 0) by (nonlinear_arith);
        let sp1 = sqrt_floor(vx1 * vx1 + vy1 * vy1);
        crate::fixed::lemma_sqrt_floor_bounds(vx1 * vx1 + vy1 * vy1);
        if sp1 > p.v_max {
            let vx2 = tdiv(vx1 * p.v_max, sp1);
            let vy2 = tdiv(vy1 * p.v_max, sp1);
            lemma_component_le_norm(vx1, vy1, sp1);
            assert(vx1 * p.v_max <= vx1 * sp1 || vx1 < 0) by (nonlinear_arith)
                requires p.v_max < sp1, 0 <= p.v_max;
            assert(sp1 >= 1);
            if vx1 >= 0 {
                assert(0 <= vx1 * p.v_max <= vx1 * sp1) by (nonlinear_arith)
                    requires 0 <= vx1, 0 <= p.v_max <= sp1;
                lemma_tdiv_monotone(0, vx1 * p.v_max, sp1);
                lemma_tdiv_monotone(vx1 * p.v_max, vx1 * sp1, sp1);
                lemma_tdiv_exact(vx1, sp1);
                assert(vx1 * sp1 == vx1 * sp1);
                assert(0 <= vx2 <= vx1);
            } else {
                assert(vx1 * sp1 <= vx1 * p.v_max <= 0) by (nonlinear_arith)
                    requires vx1 < 0, 0 <= p.v_max <= sp1;
                lemma_tdiv_monotone(vx1 * sp1, vx1 * p.v_max, sp1);
                lemma_tdiv_monotone(vx1 * p.v_max, 0, sp1);
                lemma_tdiv_exact(vx1, sp1);
                assert(vx1 <= vx2 <= 0);
            }
            if vy1 >= 0 {
                assert(0 <= vy1 * p.v_max <= vy1 * sp1) by (nonlinear_arith)
                    requires 0 <= vy1, 0 <= p.v_max <= sp1;
                lemma_tdiv_monotone(0, vy1 * p.v_max, sp1);
                lemma_tdiv_monotone(vy1 * p.v_max, vy1 * sp1, sp1);
                lemma_tdiv_exact(vy1, sp1);
                assert(0 <= vy2 <= vy1);
            } else {
                assert(vy1 * sp1 <= vy1 * p.v_max <= 0) by (nonlinear_arith)
                    requires vy1 < 0, 0 <= p.v_max <= sp1;
                lemma_tdiv_monotone(vy1 * sp1, vy1 * p.v_max, sp1);
                lemma_tdiv_monotone(vy1 * p.v_max, 0, sp1);
                lemma_tdiv_exact(vy1, sp1);
                assert(vy1 <= vy2 <= 0);
            }
            assert(vx2 * vx2 <= vx1 * vx1 && vy2 * vy2 <= vy1 * vy1) by (nonlinear_arith)
                requires
                    (0 <= vx2 <= vx1) || (vx1 <= vx2 <= 0),
                    (0 <= vy2 <= vy1) || (vy1 <= vy2 <= 0);
            assert(na.vel_x == vx2 && na.vel_y == vy2);
            assert(vx2 * vx2 >= 0 && vy2 * vy2 >= 0) by (nonlinear_arith);
            crate::fixed::lemma_sqrt_floor_monotone(
                vx2 * vx2 + vy2 * vy2,
                a.vel_x as int * a.vel_x as int + a.vel_y as int * a.vel_y as int,
            );
        } else {
            assert(na.vel_x == vx1 && na.vel_y == vy1);
            crate::fixed::lemma_sqrt_floor_monotone(
                vx1 * vx1 + vy1 * vy1,
                a.vel_x as int * a.vel_x as int + a.vel_y as int * a.vel_y as int,
            );
        }
    }
}

/// One chemotaxis pass: updates every agent from the front field and
/// deposits one occupancy count per living agent at the cell nearest
/// its new position.  Requires the occupancy grid freshly zeroed.
pub fn agent_step(agents: &mut Vec<Agent>, front: &Vec<FieldData>, occ: &mut Vec<u32>, p: &AgentParams)
    requires
        agent_params_wf(*p),
        grid_wf(front@, p.width as int, p.height as int),
        agents_wf(old(agents)@, p.width as int, p.height as int),
        old(occ)@.len() == front@.len(),
        forall|c: int| 0 <= c < old(occ)@.len() ==> #[trigger] old(occ)@[c] == 0,
    ensures
        final(agents)@.len() == old(agents)@.len(),
        forall|k: int|
            0 <= k < old(agents)@.len() ==> #[trigger] final(agents)@[k] == agent_next_spec(
                old(agents)@[k],
                front@,
                *p,
            ),
        agents_wf(final(agents)@, p.width as int, p.height as int),
        final(occ)@.len() == old(occ)@.len(),
        forall|c: int|
            0 <= c < final(occ)@.len() ==> #[trigger] final(occ)@[c] == occ_count(
                final(agents)@,
                final(agents)@.len() as int,
                c,
                p.width as int,
                p.height as int,
            ),
{
    let w = p.width as usize;
    let h = p.height as usize;
    let n = agents.len();
    let mut out: Vec<Agent> = Vec::new();
    let mut k: usize = 0;
    while k < n
        invariant
            agent_params_wf(*p),
            grid_wf(front@, p.width as int, p.height as int),
            agents_wf(agents@, p.width as int, p.height as int),
            agents@ == old(agents)@,
            w == p.width && h == p.height,
            occ@.len() == front@.len(),
            n == agents@.len(),
            out@.len() == k,
            k <= n,
            forall|j: int|
                0 <= j < k ==> #[trigger] out@[j] == agent_next_spec(agents@[j], front@, *p)
                    && agent_ok(out@[j], p.width as int, p.height as int),
            forall|c: int|
                0 <= c < occ@.len() ==> #[trigger] occ@[c] == occ_count(
                    out@,
                    k as int,
                    c,
                    p.width as int,
                    p.height as int,
                ),
            forall|c: int| 0 <= c < occ@.len() ==> #[trigger] occ@[c] <= k,
        decreases n - k,
    {
        let a = agents[k];
        let na = agent_next(a, front, p);
        let ghost occ_before = occ@;
        let ghost out_before = out@;
        out.push(na);
        proof {
            lemma_occ_count_prefix(
                out_before,
                out@,
                k as int,
                0,
                p.width as int,
                p.height as int,
            );
            assert(forall|c: int|
                0 <= c < occ@.len() ==> occ_count(out_before, k as int, c, p.width as int, p.height as int)
                    == occ_count(out@, k as int, c, p.width as int, p.height as int)) by {
                assert forall|c: int| 0 <= c < occ@.len() implies occ_count(
                    out_before,
                    k as int,
                    c,
                    p.width as int,
                    p.height as int,
                ) == occ_count(out@, k as int, c, p.width as int, p.height as int) by {
                    lemma_occ_count_prefix(
                        out_before,
                        out@,
                        k as int,
                        c,
                        p.width as int,
                        p.height as int,
                    );
                }
            }
        }
        if na.alive == 1 {
            proof {
                lemma_tdiv_abs(na.pos_x as int, FP_ONE as int, 4096 * FP_ONE as int);
                lemma_tdiv_abs(na.pos_y as int, FP_ONE as int, 4096 * FP_ONE as int);
            }
            let cxi = fp_clamp(na.pos_x / FP_ONE, 0, (w as i64) - 1);
            let cyi = fp_clamp(na.pos_y / FP_ONE, 0, (h as i64) - 1);
            proof {
                crate::field::lemma_flat_index_in_range(
                    cxi as int,
                    cyi as int,
                    w as int,
                    h as int,
                );
            }
            let idx = (cyi as usize) * w + (cxi as usize);
            let cur = occ[idx];
            occ.set(idx, cur + 1);
        }
        k = k + 1;
    }
    *agents = out;
}

} // verus!
