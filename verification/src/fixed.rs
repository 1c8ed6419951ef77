//! Fixed-point arithmetic: every concentration, rate, coordinate and
//! energy in this crate is an `i64` holding millionths of a unit, and
//! all products are divided back down with truncation toward zero, the
//! rounding of the hardware divide.

use vstd::prelude::*;

verus! {

use vstd::arithmetic::div_mod::lemma_div_by_multiple;
use vstd::arithmetic::div_mod::lemma_div_is_ordered;
use vstd::arithmetic::div_mod::lemma_div_is_ordered_by_denominator;
use vstd::arithmetic::div_mod::lemma_div_multiples_vanish;
use vstd::arithmetic::div_mod::lemma_div_nonincreasing;
use vstd::arithmetic::div_mod::lemma_div_pos_is_pos;

/// Number of fixed-point steps in 1.0.
pub const FP_ONE: i64 = 1_000_000;

/// Division that rounds toward zero, as `/` does on machine integers.
pub open spec fn tdiv(a: int, b: int) -> int
    recommends
        b > 0,
{
    if a >= 0 {
        a / b
    } else {
        -((-a) / b)
    }
}

/// `x` forced into the closed interval `[lo, hi]`.
pub open spec fn clamped(x: int, lo: int, hi: int) -> int
    recommends
        lo <= hi,
{
    if x < lo {
        lo
    } else if x > hi {
        hi
    } else {
        x
    }
}

/// The product of two machine-word values fits in a double-width word.
pub proof fn lemma_mul_fits_i128(a: int, b: int)
    by (nonlinear_arith)
    requires
        -0x8000_0000_0000_0000 <= a < 0x8000_0000_0000_0000,
        -0x8000_0000_0000_0000 <= b < 0x8000_0000_0000_0000,
    ensures
        -0x4000_0000_0000_0000_0000_0000_0000_0000 <= a * b,
        a * b <= 0x4000_0000_0000_0000_0000_0000_0000_0000,
{
}

/// Magnitude bound on a product from magnitude bounds on its factors.
pub proof fn lemma_mul_abs_bound(a: int, b: int, ma: int, mb: int)
    by (nonlinear_arith)
    requires
        -ma <= a <= ma,
        -mb <= b <= mb,
    ensures
        -(ma * mb) <= a * b <= ma * mb,
{
}

/// Truncating division keeps the dividend's magnitude bound and sign.
pub proof fn lemma_tdiv_abs(a: int, b: int, m: int)
    requires
        b >= 1,
        -m <= a <= m,
        0 <= m,
    ensures
        -m <= tdiv(a, b) <= m,
        a >= 0 ==> 0 <= tdiv(a, b) <= a,
        a <= 0 ==> a <= tdiv(a, b) <= 0,
{
    if a >= 0 {
        lemma_div_nonincreasing(a, b);
        lemma_div_pos_is_pos(a, b);
    } else {
        lemma_div_nonincreasing(-a, b);
        lemma_div_pos_is_pos(-a, b);
    }
}

/// Truncating division is monotone in the dividend.
pub proof fn lemma_tdiv_monotone(a1: int, a2: int, b: int)
    requires
        b >= 1,
        a1 <= a2,
    ensures
        tdiv(a1, b) <= tdiv(a2, b),
{
    if a1 >= 0 {
        lemma_div_is_ordered(a1, a2, b);
    } else if a2 < 0 {
        lemma_div_is_ordered(-a2, -a1, b);
    } else {
        lemma_div_pos_is_pos(-a1, b);
        lemma_div_pos_is_pos(a2, b);
    }
}

/// Dividing an exact multiple recovers the factor.
pub proof fn lemma_tdiv_exact(x: int, b: int)
    requires
        b >= 1,
    ensures
        tdiv(x * b, b) == x,
{
    lemma_mul_abs_nonneg(x, b);
    if x >= 0 {
        lemma_div_multiples_vanish(x, b);
        assert(x * b == b * x) by (nonlinear_arith);
    } else {
        lemma_div_multiples_vanish(-x, b);
        assert(-(x * b) == b * (-x)) by (nonlinear_arith);
    }
}

proof fn lemma_mul_abs_nonneg(x: int, b: int)
    by (nonlinear_arith)
    requires
        b >= 1,
    ensures
        x >= 0 ==> x * b >= 0,
        x < 0 ==> x * b < 0,
{
}

/// Zero divided by anything positive is zero.
pub proof fn lemma_tdiv_zero(b: int)
    requires
        b >= 1,
    ensures
        tdiv(0, b) == 0,
{
    vstd::arithmetic::div_mod::lemma_basic_div(0, b);
}

/// A magnitude bound on a quotient from a bound on the dividend
/// relative to a lower bound of the divisor.
pub proof fn lemma_tdiv_shrinks(a: int, d: int, dmin: int, m: int)
    requires
        d >= dmin,
        dmin >= 1,
        0 <= m,
        -(m * dmin) <= a <= m * dmin,
    ensures
        -m <= tdiv(a, d) <= m,
{
    lemma_mul_abs_nonneg(m, dmin);
    if a >= 0 {
        lemma_div_is_ordered_by_denominator(a, dmin, d);
        lemma_div_is_ordered(a, m * dmin, dmin);
        lemma_div_by_multiple(m, dmin);
        lemma_div_pos_is_pos(a, d);
    } else {
        lemma_div_is_ordered_by_denominator(-a, dmin, d);
        lemma_div_is_ordered(-a, m * dmin, dmin);
        lemma_div_by_multiple(m, dmin);
        lemma_div_pos_is_pos(-a, d);
    }
}

/// Truncating division loses strictly less than one divisor: the
/// scaled quotient brackets the dividend.
pub proof fn lemma_tdiv_mul_err(x: int, b: int)
    requires
        b >= 1,
    ensures
        x - b < b * tdiv(x, b),
        b * tdiv(x, b) < x + b,
        -(b - 1) <= b * tdiv(x, b) - x <= b - 1,
{
    if x >= 0 {
        vstd::arithmetic::div_mod::lemma_fundamental_div_mod(x, b);
        vstd::arithmetic::div_mod::lemma_mod_bound(x, b);
    } else {
        vstd::arithmetic::div_mod::lemma_fundamental_div_mod(-x, b);
        vstd::arithmetic::div_mod::lemma_mod_bound(-x, b);
        assert(b * (-((-x) / b)) == -(b * ((-x) / b))) by (nonlinear_arith);
    }
}

/// `x` clamped into `[lo, hi]`.
pub fn fp_clamp(x: i64, lo: i64, hi: i64) -> (r: i64)
    requires
        lo <= hi,
    ensures
        r == clamped(x as int, lo as int, hi as int),
{
    if x < lo {
        lo
    } else if x > hi {
        hi
    } else {
        x
    }
}

/// `a * b / d` with a double-width intermediate product, truncating
/// toward zero.
pub fn fp_scale(a: i64, b: i64, d: i64) -> (r: i64)
    requires
        d >= 1,
        -0x7fff_ffff_ffff_ffff <= tdiv(a as int * b as int, d as int) <= 0x7fff_ffff_ffff_ffff,
    ensures
        r == tdiv(a as int * b as int, d as int),
{
    proof {
        lemma_mul_fits_i128(a as int, b as int);
    }
    let p: i128 = (a as i128) * (b as i128);
    let q: i128 = if p >= 0 {
        p / (d as i128)
    } else {
        -((-p) / (d as i128))
    };
    q as i64
}

/// Largest integer whose square does not exceed `n`.
pub open spec fn sqrt_floor(n: int) -> int
    decreases n,
{
    if n < 1 {
        0
    } else {
        let s = sqrt_floor(n - 1);
        if (s + 1) * (s + 1) <= n {
            s + 1
        } else {
            s
        }
    }
}

pub proof fn lemma_sqrt_floor_bounds(n: int)
    requires
        n >= 0,
    ensures
        0 <= sqrt_floor(n),
        sqrt_floor(n) * sqrt_floor(n) <= n,
        n < (sqrt_floor(n) + 1) * (sqrt_floor(n) + 1),
    decreases n,
{
    if n == 0 {
    } else {
        lemma_sqrt_floor_bounds(n - 1);
        let s = sqrt_floor(n - 1);
        if (s + 1) * (s + 1) <= n {
            assert(n - 1 < (s + 1) * (s + 1));
            assert((s + 1) * (s + 1) < (s + 2) * (s + 2)) by (nonlinear_arith)
                requires s >= 0;
        }
    }
}

/// A square bound on the argument bounds the root.
pub proof fn lemma_sqrt_floor_le(n: int, m: int)
    requires
        0 <= n,
        0 <= m,
        n <= m * m,
    ensures
        sqrt_floor(n) <= m,
{
    lemma_sqrt_floor_bounds(n);
    let s = sqrt_floor(n);
    if s > m {
        assert((m + 1) * (m + 1) <= s * s) by (nonlinear_arith)
            requires 0 <= m, m + 1 <= s;
        assert(m * m < (m + 1) * (m + 1)) by (nonlinear_arith)
            requires 0 <= m;
    }
}

/// Any integer whose square is below the argument is below the root.
pub proof fn lemma_sqrt_floor_ge(n: int, r: int)
    requires
        0 <= r,
        r * r <= n,
    ensures
        r <= sqrt_floor(n),
{
    lemma_sqrt_floor_bounds(n);
    let s = sqrt_floor(n);
    if r > s {
        assert((s + 1) * (s + 1) <= r * r) by (nonlinear_arith)
            requires 0 <= s, s + 1 <= r;
    }
}

/// The root is monotone in its argument.
pub proof fn lemma_sqrt_floor_monotone(n1: int, n2: int)
    requires
        0 <= n1 <= n2,
    ensures
        sqrt_floor(n1) <= sqrt_floor(n2),
{
    lemma_sqrt_floor_bounds(n1);
    lemma_sqrt_floor_ge(n2, sqrt_floor(n1));
}

/// A positive argument has a positive root.
pub proof fn lemma_sqrt_floor_pos(n: int)
    requires
        n >= 1,
    ensures
        sqrt_floor(n) >= 1,
{
    lemma_sqrt_floor_bounds(n);
    if sqrt_floor(n) == 0 {
        assert((0int + 1) * (0int + 1) == 1) by (nonlinear_arith);
    }
}

pub proof fn lemma_sqrt_floor_unique(n: int, r: int)
    requires
        n >= 0,
        r >= 0,
        r * r <= n,
        n < (r + 1) * (r + 1),
    ensures
        r == sqrt_floor(n),
{
    lemma_sqrt_floor_bounds(n);
    let s = sqrt_floor(n);
    if r < s {
        assert((r + 1) * (r + 1) <= s * s) by (nonlinear_arith)
            requires 0 <= r, r + 1 <= s;
    }
    if s < r {
        assert((s + 1) * (s + 1) <= r * r) by (nonlinear_arith)
            requires 0 <= s, s + 1 <= r;
    }
}

/// Integer square root by bisection over the double-width input.
pub fn isqrt(n: u128) -> (r: u64)
    ensures
        r == sqrt_floor(n as int),
{
    let mut lo: u128 = 0;
    let mut hi: u128 = 0x1_0000_0000_0000_0000;
    proof {
        assert(hi * hi > n as int) by (nonlinear_arith)
            requires hi == 0x1_0000_0000_0000_0000int, (n as int) < 0x1_0000_0000_0000_0000_0000_0000_0000_0000int;
    }
    while hi - lo > 1
        invariant
            0 <= lo < hi <= 0x1_0000_0000_0000_0000,
            lo * lo <= n as int,
            (hi as int) * (hi as int) > n as int,
        decreases hi - lo,
    {
        let mid: u128 = lo + (hi - lo) / 2;
        proof {
            assert(mid * mid < 0x1_0000_0000_0000_0000_0000_0000_0000_0000int) by (nonlinear_arith)
                requires 0 <= (mid as int) < 0x1_0000_0000_0000_0000int;
        }
        if mid * mid <= n {
            lo = mid;
        } else {
            hi = mid;
        }
    }
    proof {
        lemma_sqrt_floor_unique(n as int, lo as int);
    }
    lo as u64
}

} // verus!
