//! Snapshot sampling: the exact pixel values of the field and
//! occupancy images.  The drivers hand these buffers to an opaque
//! image sink; everything up to the encoded bytes is computed here.

use vstd::prelude::*;

verus! {

use crate::field::FieldData;
use crate::field::grid_wf;
use crate::field::max_r;
use crate::field::min_r;
use crate::fixed::FP_ONE;
use crate::fixed::clamped;
use crate::fixed::fp_clamp;
use crate::fixed::lemma_tdiv_abs;
use crate::fixed::tdiv;
use crate::params::CELL_MAX;

/// Destination of snapshot files; the file writing itself is an
/// opaque sink outside the library.
pub struct SnapshotWriter {
    pub output_dir: String,
}

impl SnapshotWriter {
    pub fn new(output_dir: String) -> (r: SnapshotWriter)
        ensures
            r.output_dir@ == output_dir@,
    {
        SnapshotWriter { output_dir }
    }
}

/// Red channel of the field image: the resource, min-max normalized
/// over the grid onto `[0, 255]`.
pub open spec fn red_of(cells: Seq<FieldData>, i: int) -> int {
    let n = cells.len() as int;
    let mn = min_r(cells, n);
    let span0 = max_r(cells, n) - mn;
    let span = if span0 > 0 {
        span0
    } else {
        1int
    };
    clamped(tdiv((cells[i].R - mn) * 255, span), 0, 255)
}

/// Green channel of the field image: the waste, one unit mapping to
/// full brightness, saturating.
pub open spec fn green_of(cells: Seq<FieldData>, i: int) -> int {
    clamped(tdiv(cells[i].W * 255, FP_ONE as int), 0, 255)
}

/// RGB pixel rows of the field image: resource in red, waste in
/// green, blue unused.
pub fn field_image_pixels(cells: &Vec<FieldData>, width: u32, height: u32) -> (r: Vec<u8>)
    requires
        grid_wf(cells@, width as int, height as int),
    ensures
        r@.len() == 3 * cells@.len(),
        forall|i: int|
            0 <= i < cells@.len() ==> (#[trigger] r@[3 * i]) == red_of(cells@, i) && r@[3 * i + 1]
                == green_of(cells@, i) && r@[3 * i + 2] == 0,
{
    let n = cells.len();
    let mut mn: i64 = CELL_MAX;
    let mut mx: i64 = 0;
    let mut i: usize = 0;
    while i < n
        invariant
            grid_wf(cells@, width as int, height as int),
            n == cells@.len(),
            i <= n,
            mn == min_r(cells@, i as int),
            mx == max_r(cells@, i as int),
        decreases n - i,
    {
        let c = cells[i];
        if c.R < mn {
            mn = c.R;
        }
        if c.R > mx {
            mx = c.R;
        }
        i = i + 1;
    }
    proof {
        crate::laws::lemma_min_r_ge(cells@, n as int, 0);
        crate::laws::lemma_max_r_le(cells@, n as int, CELL_MAX as int);
        crate::laws::lemma_max_r_le(cells@, n as int, CELL_MAX as int);
        if n > 0 {
            crate::laws::lemma_max_r_ge(cells@, n as int, 0);
            crate::laws::lemma_min_r_le(cells@, n as int, 0);
        }
    }
    let span0 = mx - mn;
    let span: i64 = if span0 > 0 {
        span0
    } else {
        1
    };
    let mut out: Vec<u8> = Vec::new();
    let mut j: usize = 0;
    while j < n
        invariant
            grid_wf(cells@, width as int, height as int),
            n == cells@.len(),
            j <= n,
            out@.len() == 3 * j,
            0 <= mn <= CELL_MAX,
            0 <= mx <= CELL_MAX,
            mn == min_r(cells@, n as int),
            mx == max_r(cells@, n as int),
            span == (if mx - mn > 0 {
                mx - mn
            } else {
                1int
            }),
            forall|k: int|
                0 <= k < j ==> (#[trigger] out@[3 * k]) == red_of(cells@, k) && out@[3 * k + 1]
                    == green_of(cells@, k) && out@[3 * k + 2] == 0,
        decreases n - j,
    {
        let c = cells[j];
        proof {
            crate::fixed::lemma_mul_abs_bound(
                c.R as int - mn as int,
                255,
                2 * CELL_MAX as int,
                255,
            );
            lemma_tdiv_abs((c.R as int - mn as int) * 255, span as int, 510 * CELL_MAX as int);
            crate::fixed::lemma_mul_abs_bound(c.W as int, 255, CELL_MAX as int, 255);
            lemma_tdiv_abs(c.W as int * 255, FP_ONE as int, 255 * CELL_MAX as int);
        }
        let rv = fp_clamp(crate::fixed::fp_scale(c.R - mn, 255, span), 0, 255);
        let gv = fp_clamp(crate::fixed::fp_scale(c.W, 255, FP_ONE), 0, 255);
        proof {
            assert(rv == red_of(cells@, j as int));
            assert(gv == green_of(cells@, j as int));
        }
        out.push(rv as u8);
        out.push(gv as u8);
        out.push(0);
        j = j + 1;
    }
    out
}

/// Largest occupancy over a prefix.
pub open spec fn max_occ(occ: Seq<u32>, n: int) -> int
    decreases n,
{
    if n <= 0 {
        0
    } else {
        let m = max_occ(occ, n - 1);
        if occ[n - 1] > m {
            occ[n - 1] as int
        } else {
            m
        }
    }
}

/// One grey pixel of the occupancy image: max-normalized onto
/// `[0, 255]`.
pub open spec fn occ_pixel_of(occ: Seq<u32>, i: int) -> int {
    let m = max_occ(occ, occ.len() as int);
    let d = if m > 0 {
        m
    } else {
        1int
    };
    clamped(tdiv(occ[i] * 255, d), 0, 255)
}

/// Grey pixel rows of the occupancy image.
pub fn occupancy_image_pixels(occ: &Vec<u32>) -> (r: Vec<u8>)
    ensures
        r@.len() == occ@.len(),
        forall|i: int| 0 <= i < occ@.len() ==> (#[trigger] r@[i]) == occ_pixel_of(occ@, i),
{
    let n = occ.len();
    let mut m: u32 = 0;
    let mut i: usize = 0;
    while i < n
        invariant
            n == occ@.len(),
            i <= n,
            m == max_occ(occ@, i as int),
        decreases n - i,
    {
        if occ[i] > m {
            m = occ[i];
        }
        i = i + 1;
    }
    let d: i64 = if m > 0 {
        m as i64
    } else {
        1
    };
    let mut out: Vec<u8> = Vec::new();
    let mut j: usize = 0;
    while j < n
        invariant
            n == occ@.len(),
            j <= n,
            out@.len() == j,
            m == max_occ(occ@, n as int),
            d == (if m > 0 {
                m as int
            } else {
                1int
            }),
            d >= 1,
            forall|k: int| 0 <= k < j ==> (#[trigger] out@[k]) == occ_pixel_of(occ@, k),
        decreases n - j,
    {
        proof {
            crate::fixed::lemma_mul_abs_bound(occ@[j as int] as int, 255, 0xffff_ffff_int, 255);
            lemma_tdiv_abs(occ@[j as int] as int * 255, d as int, 0xffff_ffff_int * 255);
        }
        let pv = fp_clamp(crate::fixed::fp_scale(occ[j] as i64, 255, d), 0, 255);
        out.push(pv as u8);
        j = j + 1;
    }
    out
}

} // verus!
