//! The field store: a dense row-major grid of resource / waste
//! concentrations, with its statistics pass.  Concentrations are
//! fixed-point values in `[0, CELL_MAX]`.

use vstd::prelude::*;

verus! {

use crate::fixed::FP_ONE;
use crate::fixed::sqrt_floor;
use crate::fixed::tdiv;
use crate::params::CELL_MAX;
use crate::params::side_ok;

/// One grid cell: resource and waste concentration.
#[allow(non_snake_case)]
#[derive(Clone, Copy, PartialEq, Eq, Structural, Debug)]
pub struct FieldData {
    pub R: i64,
    pub W: i64,
}

/// A concentration pair inside the representable band.
pub open spec fn cell_ok(c: FieldData) -> bool {
    &&& 0 <= c.R <= CELL_MAX
    &&& 0 <= c.W <= CELL_MAX
}

/// A well-formed grid: the right length, every cell in band.
pub open spec fn grid_wf(cells: Seq<FieldData>, w: int, h: int) -> bool {
    &&& side_ok(w)
    &&& side_ok(h)
    &&& cells.len() == w * h
    &&& forall|i: int| 0 <= i < cells.len() ==> cell_ok(#[trigger] cells[i])
}

impl FieldData {
    pub fn new(resource: i64, waste: i64) -> (r: FieldData)
        requires
            0 <= resource <= CELL_MAX,
            0 <= waste <= CELL_MAX,
        ensures
            r.R == resource && r.W == waste,
            cell_ok(r),
    {
        FieldData { R: resource, W: waste }
    }

    pub fn zero() -> (r: FieldData)
        ensures
            r.R == 0 && r.W == 0,
            cell_ok(r),
    {
        FieldData { R: 0, W: 0 }
    }
}

impl Default for FieldData {
    fn default() -> (r: Self)
        ensures
            r.R == 0 && r.W == 0,
    {
        FieldData { R: 0, W: 0 }
    }
}

/// Field statistics over the front grid, all fixed-point.
#[allow(non_snake_case)]
#[derive(Clone, Copy, PartialEq, Eq, Structural, Debug)]
pub struct FieldStats {
    pub mean_R: i64,
    pub mean_W: i64,
    pub var_R: i64,
    pub var_W: i64,
    pub mean_grad_R: i64,
    pub max_R: i64,
    pub max_W: i64,
    pub min_R: i64,
    pub min_W: i64,
}

impl Default for FieldStats {
    fn default() -> (r: Self)
        ensures
            r == (FieldStats {
                mean_R: 0,
                mean_W: 0,
                var_R: 0,
                var_W: 0,
                mean_grad_R: 0,
                max_R: 0,
                max_W: 0,
                min_R: 0,
                min_W: 0,
            }),
    {
        FieldStats {
            mean_R: 0,
            mean_W: 0,
            var_R: 0,
            var_W: 0,
            mean_grad_R: 0,
            max_R: 0,
            max_W: 0,
            min_R: 0,
            min_W: 0,
        }
    }
}

/// Sum of the resource component over the first `n` cells.
pub open spec fn sum_r(cells: Seq<FieldData>, n: int) -> int
    decreases n,
{
    if n <= 0 {
        0
    } else {
        sum_r(cells, n - 1) + cells[n - 1].R
    }
}

/// Sum of the waste component over the first `n` cells.
pub open spec fn sum_w(cells: Seq<FieldData>, n: int) -> int
    decreases n,
{
    if n <= 0 {
        0
    } else {
        sum_w(cells, n - 1) + cells[n - 1].W
    }
}

/// Sum of squared resource over the first `n` cells.
pub open spec fn sumsq_r(cells: Seq<FieldData>, n: int) -> int
    decreases n,
{
    if n <= 0 {
        0
    } else {
        sumsq_r(cells, n - 1) + cells[n - 1].R * cells[n - 1].R
    }
}

/// Sum of squared waste over the first `n` cells.
pub open spec fn sumsq_w(cells: Seq<FieldData>, n: int) -> int
    decreases n,
{
    if n <= 0 {
        0
    } else {
        sumsq_w(cells, n - 1) + cells[n - 1].W * cells[n - 1].W
    }
}

/// Largest resource over the first `n` cells (0 for an empty prefix;
/// every stored value is non-negative).
pub open spec fn max_r(cells: Seq<FieldData>, n: int) -> int
    decreases n,
{
    if n <= 0 {
        0
    } else {
        let m = max_r(cells, n - 1);
        if cells[n - 1].R > m {
            cells[n - 1].R as int
        } else {
            m
        }
    }
}

pub open spec fn max_w(cells: Seq<FieldData>, n: int) -> int
    decreases n,
{
    if n <= 0 {
        0
    } else {
        let m = max_w(cells, n - 1);
        if cells[n - 1].W > m {
            cells[n - 1].W as int
        } else {
            m
        }
    }
}

/// Smallest resource over the first `n` cells (`CELL_MAX` for an empty
/// prefix; every stored value is at most `CELL_MAX`).
pub open spec fn min_r(cells: Seq<FieldData>, n: int) -> int
    decreases n,
{
    if n <= 0 {
        CELL_MAX as int
    } else {
        let m = min_r(cells, n - 1);
        if cells[n - 1].R < m {
            cells[n - 1].R as int
        } else {
            m
        }
    }
}

pub open spec fn min_w(cells: Seq<FieldData>, n: int) -> int
    decreases n,
{
    if n <= 0 {
        CELL_MAX as int
    } else {
        let m = min_w(cells, n - 1);
        if cells[n - 1].W < m {
            cells[n - 1].W as int
        } else {
            m
        }
    }
}

/// Central-difference gradient magnitude of the resource at flat index
/// `i`, and 0 for every cell of the one-cell boundary ring: border
/// cells contribute nothing to the gradient average.
pub open spec fn grad_term(cells: Seq<FieldData>, w: int, h: int, i: int) -> int {
    let x = i % w;
    let y = i / w;
    if 1 <= x < w - 1 && 1 <= y < h - 1 {
        let gx = tdiv(cells[i + 1].R - cells[i - 1].R, 2);
        let gy = tdiv(cells[i + w].R - cells[i - w].R, 2);
        sqrt_floor(gx * gx + gy * gy)
    } else {
        0
    }
}

/// Sum of gradient magnitudes over the first `n` cells.
pub open spec fn grad_sum(cells: Seq<FieldData>, w: int, h: int, n: int) -> int
    decreases n,
{
    if n <= 0 {
        0
    } else {
        grad_sum(cells, w, h, n - 1) + grad_term(cells, w, h, n - 1)
    }
}

/// The all-zero statistics record.
pub open spec fn zero_stats() -> FieldStats {
    FieldStats {
        mean_R: 0,
        mean_W: 0,
        var_R: 0,
        var_W: 0,
        mean_grad_R: 0,
        max_R: 0,
        max_W: 0,
        min_R: 0,
        min_W: 0,
    }
}

/// The statistics record a grid maps to.
pub open spec fn field_stats_of(cells: Seq<FieldData>, w: int, h: int) -> FieldStats {
    let n = w * h;
    let mean_r = tdiv(sum_r(cells, n), n);
    let mean_w = tdiv(sum_w(cells, n), n);
    let vraw_r = tdiv(sumsq_r(cells, n), n) - mean_r * mean_r;
    let vraw_w = tdiv(sumsq_w(cells, n), n) - mean_w * mean_w;
    FieldStats {
        mean_R: mean_r as i64,
        mean_W: mean_w as i64,
        var_R: (if vraw_r < 0 {
            0
        } else {
            tdiv(vraw_r, FP_ONE as int)
        }) as i64,
        var_W: (if vraw_w < 0 {
            0
        } else {
            tdiv(vraw_w, FP_ONE as int)
        }) as i64,
        mean_grad_R: tdiv(grad_sum(cells, w, h, n), n) as i64,
        max_R: max_r(cells, n) as i64,
        max_W: max_w(cells, n) as i64,
        min_R: min_r(cells, n) as i64,
        min_W: min_w(cells, n) as i64,
    }
}

/// A cell of the boundary ring contributes nothing to the gradient
/// sum: its term is exactly zero.
pub proof fn lemma_border_has_no_gradient_term(cells: Seq<FieldData>, w: int, h: int, i: int)
    requires
        w >= 1,
        i % w == 0 || i % w == w - 1 || i / w == 0 || i / w == h - 1,
    ensures
        grad_term(cells, w, h, i) == 0,
{
}

/// CPU-side field store: the grid plus its latest statistics.
pub struct FieldManager {
    pub width: u32,
    pub height: u32,
    pub data: Vec<FieldData>,
    pub stats: FieldStats,
}

impl FieldManager {
    /// The store's invariant: a well-formed grid.
    pub open spec fn wf(&self) -> bool {
        grid_wf(self.data@, self.width as int, self.height as int)
    }

    /// An all-zero grid of the given size.
    pub fn new(width: u32, height: u32) -> (r: FieldManager)
        requires
            side_ok(width as int),
            side_ok(height as int),
        ensures
            r.wf(),
            r.width == width && r.height == height,
            forall|i: int|
                0 <= i < r.data@.len() ==> #[trigger] r.data@[i] == (FieldData { R: 0, W: 0 }),
            r.stats == zero_stats(),
    {
        proof {
            crate::fixed::lemma_mul_abs_bound(width as int, height as int, 4096, 4096);
        }
        let n: usize = (width as usize) * (height as usize);
        let mut data: Vec<FieldData> = Vec::new();
        let mut i: usize = 0;
        while i < n
            invariant
                data@.len() == i,
                i <= n,
                forall|j: int|
                    0 <= j < i ==> #[trigger] data@[j] == (FieldData { R: 0, W: 0 }),
            decreases n - i,
        {
            data.push(FieldData { R: 0, W: 0 });
            i = i + 1;
        }
        FieldManager { width, height, data, stats: FieldStats::default() }
    }

    /// Flat row-major index of cell `(x, y)`.
    pub fn get_index(&self, x: u32, y: u32) -> (r: usize)
        requires
            x < self.width,
            y < self.height,
            self.wf(),
        ensures
            r == y * self.width + x,
            r < self.data@.len(),
    {
        proof {
            lemma_flat_index_in_range(x as int, y as int, self.width as int, self.height as int);
        }
        (y as usize) * (self.width as usize) + (x as usize)
    }

    pub fn get(&self, x: u32, y: u32) -> (r: FieldData)
        requires
            x < self.width,
            y < self.height,
            self.wf(),
        ensures
            r == self.data@[y * self.width + x],
    {
        let idx = self.get_index(x, y);
        self.data[idx]
    }

    pub fn set(&mut self, x: u32, y: u32, data: FieldData)
        requires
            x < old(self).width,
            y < old(self).height,
            old(self).wf(),
            cell_ok(data),
        ensures
            final(self).wf(),
            final(self).width == old(self).width && final(self).height == old(self).height,
            final(self).stats == old(self).stats,
            final(self).data@ == old(self).data@.update(y * old(self).width + x, data),
    {
        let idx = self.get_index(x, y);
        self.data.set(idx, data);
    }

    pub fn get_resource(&self, x: u32, y: u32) -> (r: i64)
        requires
            x < self.width,
            y < self.height,
            self.wf(),
        ensures
            r == self.data@[y * self.width + x].R,
    {
        self.get(x, y).R
    }

    pub fn get_waste(&self, x: u32, y: u32) -> (r: i64)
        requires
            x < self.width,
            y < self.height,
            self.wf(),
        ensures
            r == self.data@[y * self.width + x].W,
    {
        self.get(x, y).W
    }

    pub fn set_resource(&mut self, x: u32, y: u32, value: i64)
        requires
            x < old(self).width,
            y < old(self).height,
            old(self).wf(),
            0 <= value <= CELL_MAX,
        ensures
            final(self).wf(),
            final(self).width == old(self).width && final(self).height == old(self).height,
            final(self).stats == old(self).stats,
            final(self).data@ == old(self).data@.update(
                y * old(self).width + x,
                FieldData { R: value, W: old(self).data@[y * old(self).width + x].W },
            ),
    {
        let idx = self.get_index(x, y);
        let w = self.data[idx].W;
        self.data.set(idx, FieldData { R: value, W: w });
    }

    pub fn set_waste(&mut self, x: u32, y: u32, value: i64)
        requires
            x < old(self).width,
            y < old(self).height,
            old(self).wf(),
            0 <= value <= CELL_MAX,
        ensures
            final(self).wf(),
            final(self).width == old(self).width && final(self).height == old(self).height,
            final(self).stats == old(self).stats,
            final(self).data@ == old(self).data@.update(
                y * old(self).width + x,
                FieldData { R: old(self).data@[y * old(self).width + x].R, W: value },
            ),
    {
        let idx = self.get_index(x, y);
        let r = self.data[idx].R;
        self.data.set(idx, FieldData { R: r, W: value });
    }
}

impl FieldManager {
    /// One pass over the grid: mean and variance of both components,
    /// extremes of both, and the mean central-difference gradient
    /// magnitude of the resource over interior cells only.
    pub fn update_stats(&mut self)
        requires
            old(self).wf(),
        ensures
            final(self).wf(),
            final(self).width == old(self).width && final(self).height == old(self).height,
            final(self).data@ == old(self).data@,
            final(self).stats == field_stats_of(
                old(self).data@,
                old(self).width as int,
                old(self).height as int,
            ),
    {
        self.stats = compute_field_stats(&self.data, self.width, self.height);
    }
}

/// The statistics pass itself, on a borrowed grid.
pub fn compute_field_stats(cells: &Vec<FieldData>, width: u32, height: u32) -> (r: FieldStats)
    requires
        grid_wf(cells@, width as int, height as int),
    ensures
        r == field_stats_of(cells@, width as int, height as int),
{
    let w = width as usize;
    let h = height as usize;
    proof {
        lemma_flat_index_in_range(0, (height - 1) as int, width as int, height as int);
    }
    let n: usize = w * h;
    let mut s_r: i64 = 0;
    let mut s_w: i64 = 0;
    let mut q_r: u128 = 0;
    let mut q_w: u128 = 0;
    let mut g: i64 = 0;
    let mut mx_r: i64 = 0;
    let mut mx_w: i64 = 0;
    let mut mn_r: i64 = CELL_MAX;
    let mut mn_w: i64 = CELL_MAX;
    let mut i: usize = 0;
    while i < n
        invariant
            grid_wf(cells@, w as int, h as int),
            w == width && h == height,
            n == w * h,
            n <= 16_777_216,
            i <= n,
            s_r == sum_r(cells@, i as int),
            s_w == sum_w(cells@, i as int),
            0 <= s_r <= i * CELL_MAX,
            0 <= s_w <= i * CELL_MAX,
            q_r == sumsq_r(cells@, i as int),
            q_w == sumsq_w(cells@, i as int),
            q_r <= i * 4_290_774_016_000_000_000_000,
            q_w <= i * 4_290_774_016_000_000_000_000,
            g == grad_sum(cells@, w as int, h as int, i as int),
            0 <= g <= i * CELL_MAX,
            mx_r == max_r(cells@, i as int),
            mx_w == max_w(cells@, i as int),
            mn_r == min_r(cells@, i as int),
            mn_w == min_w(cells@, i as int),
        decreases n - i,
    {
        let c = cells[i];
        proof {
            assert(cell_ok(cells@[i as int]));
            assert(c.R * c.R <= CELL_MAX * CELL_MAX && c.W * c.W <= CELL_MAX * CELL_MAX)
                by (nonlinear_arith)
                requires 0 <= c.R <= CELL_MAX, 0 <= c.W <= CELL_MAX;
            assert((c.R as u128) * (c.R as u128) == c.R * c.R) by (nonlinear_arith)
                requires 0 <= c.R;
            assert((c.W as u128) * (c.W as u128) == c.W * c.W) by (nonlinear_arith)
                requires 0 <= c.W;
        }
        s_r = s_r + c.R;
        s_w = s_w + c.W;
        q_r = q_r + (c.R as u128) * (c.R as u128);
        q_w = q_w + (c.W as u128) * (c.W as u128);
        if c.R > mx_r {
            mx_r = c.R;
        }
        if c.W > mx_w {
            mx_w = c.W;
        }
        if c.R < mn_r {
            mn_r = c.R;
        }
        if c.W < mn_w {
            mn_w = c.W;
        }
        let x = i % w;
        let y = i / w;
        if 1 <= x && x < w - 1 && 1 <= y && y < h - 1 {
            proof {
                vstd::arithmetic::div_mod::lemma_fundamental_div_mod(i as int, w as int);
                assert(i + w < n && i >= w) by (nonlinear_arith)
                    requires
                        i == (w as int) * (y as int) + (x as int),
                        n == w * h,
                        1 <= (x as int) < (w as int) - 1,
                        1 <= (y as int) < (h as int) - 1,
                        w >= 1;
            }
            let dx = cells[i + 1].R - cells[i - 1].R;
            let dy = cells[i + w].R - cells[i - w].R;
            let gx = dx / 2;
            let gy = dy / 2;
            proof {
                crate::fixed::lemma_tdiv_monotone(dx as int, CELL_MAX as int, 2);
                crate::fixed::lemma_tdiv_monotone(-(CELL_MAX as int), dx as int, 2);
                crate::fixed::lemma_tdiv_monotone(dy as int, CELL_MAX as int, 2);
                crate::fixed::lemma_tdiv_monotone(-(CELL_MAX as int), dy as int, 2);
                crate::fixed::lemma_mul_abs_bound(
                    gx as int,
                    gx as int,
                    32_752_000_000,
                    32_752_000_000,
                );
                crate::fixed::lemma_mul_abs_bound(
                    gy as int,
                    gy as int,
                    32_752_000_000,
                    32_752_000_000,
                );
                assert(gx as int * gx as int >= 0 && gy as int * gy as int >= 0)
                    by (nonlinear_arith);
            }
            let s2: i128 = (gx as i128) * (gx as i128) + (gy as i128) * (gy as i128);
            let mag = crate::fixed::isqrt(s2 as u128);
            proof {
                crate::fixed::lemma_sqrt_floor_le(s2 as int, CELL_MAX as int);
            }
            g = g + (mag as i64);
        }
        i = i + 1;
    }
    let nd = n as i64;
    let mean_r = s_r / nd;
    let mean_w = s_w / nd;
    let t_r: u128 = q_r / (n as u128);
    let t_w: u128 = q_w / (n as u128);
    proof {
        crate::fixed::lemma_tdiv_abs(s_r as int, nd as int, s_r as int);
        crate::fixed::lemma_tdiv_abs(s_w as int, nd as int, s_w as int);
        let cm2 = CELL_MAX as int * CELL_MAX as int;
        assert((n as int) * cm2 == cm2 * (n as int)) by (nonlinear_arith);
        assert((n as int) * (CELL_MAX as int) == (CELL_MAX as int) * (n as int))
            by (nonlinear_arith);
        vstd::arithmetic::div_mod::lemma_div_is_ordered(
            s_r as int,
            (n as int) * (CELL_MAX as int),
            n as int,
        );
        vstd::arithmetic::div_mod::lemma_div_is_ordered(
            s_w as int,
            (n as int) * (CELL_MAX as int),
            n as int,
        );
        vstd::arithmetic::div_mod::lemma_div_by_multiple(CELL_MAX as int, n as int);
        vstd::arithmetic::div_mod::lemma_div_is_ordered(q_r as int, (n as int) * cm2, n as int);
        vstd::arithmetic::div_mod::lemma_div_is_ordered(q_w as int, (n as int) * cm2, n as int);
        vstd::arithmetic::div_mod::lemma_div_by_multiple(cm2, n as int);
        vstd::arithmetic::div_mod::lemma_div_pos_is_pos(q_r as int, n as int);
        vstd::arithmetic::div_mod::lemma_div_pos_is_pos(q_w as int, n as int);
        crate::fixed::lemma_mul_abs_bound(mean_r as int, mean_r as int, CELL_MAX as int, CELL_MAX as int);
        crate::fixed::lemma_mul_abs_bound(mean_w as int, mean_w as int, CELL_MAX as int, CELL_MAX as int);
    }
    let vraw_r: i128 = (t_r as i128) - (mean_r as i128) * (mean_r as i128);
    let vraw_w: i128 = (t_w as i128) - (mean_w as i128) * (mean_w as i128);
    let var_r: i64 = if vraw_r < 0 {
        0
    } else {
        (vraw_r / (FP_ONE as i128)) as i64
    };
    let var_w: i64 = if vraw_w < 0 {
        0
    } else {
        (vraw_w / (FP_ONE as i128)) as i64
    };
    let mean_grad = g / nd;
    proof {
        crate::fixed::lemma_tdiv_abs(g as int, nd as int, g as int);
    }
    FieldStats {
        mean_R: mean_r,
        mean_W: mean_w,
        var_R: var_r,
        var_W: var_w,
        mean_grad_R: mean_grad,
        max_R: mx_r,
        max_W: mx_w,
        min_R: mn_r,
        min_W: mn_w,
    }
}

/// `y * w + x` lies inside a `w * h` grid.
pub proof fn lemma_flat_index_in_range(x: int, y: int, w: int, h: int)
    by (nonlinear_arith)
    requires
        0 <= x < w <= 4096,
        0 <= y < h <= 4096,
    ensures
        0 <= y * w + x < w * h,
        w * h <= 16_777_216,
{
}

} // verus!
