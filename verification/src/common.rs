//! Grid indexing and the value quantizer.
//!
//! Responses are real values held in fixed-point form: the integer `v`
//! stands for the real number `v / FP_ONE`.  The quantizer maps a response
//! to a signed 8-bit bucket by scaling with `120 / (3 * sigma)` where
//! `sigma = 1 / sqrt(grid_size)`, rounding to the nearest integer and
//! clamping to the `i8` range.

use vstd::prelude::*;
use vstd::arithmetic::div_mod::{
    lemma_fundamental_div_mod, lemma_fundamental_div_mod_converse_div,
    lemma_fundamental_div_mod_converse_mod, lemma_div_is_ordered, lemma_div_pos_is_pos,
};
use vstd::arithmetic::mul::{lemma_mul_is_commutative, lemma_mul_inequality};

verus! {

/// Fixed-point denominator: the integer `v` stands for the real `v / FP_ONE`.
pub const FP_ONE: i64 = 1048576;

/// Denominator of a product of two fixed-point values: `FP_ONE * FP_ONE`.
pub const FP_ONE_SQ: i128 = 1099511627776;

/// Linear cell index of a grid coordinate: `row * width + col`.
pub open spec fn grid_to_index_spec(grid: (int, int), width: int) -> int {
    grid.0 * width + grid.1
}

/// Grid coordinate of a linear cell index: `(index / width, index % width)`.
pub open spec fn index_to_grid_spec(index: int, width: int) -> (int, int) {
    (index / width, index % width)
}

/// Maps a 2D grid coordinate `(row, col)` to its linear cell index.
pub fn grid_to_index(grid: (usize, usize), width: usize) -> (index: usize)
    requires
        grid.0 * width + grid.1 <= usize::MAX,
    ensures
        index == grid_to_index_spec((grid.0 as int, grid.1 as int), width as int),
{
    grid.0 * width + grid.1
}

/// Maps a linear cell index back to its 2D grid coordinate.
pub fn index_to_grid(index: usize, width: usize) -> (grid: (usize, usize))
    requires
        0 < width,
    ensures
        (grid.0 as int, grid.1 as int) == index_to_grid_spec(index as int, width as int),
{
    let x: usize = index / width;
    let y: usize = index % width;
    (x, y)
}

/// Grid bijection, one direction: converting a linear index to a grid
/// coordinate and back yields the same index.
pub proof fn lemma_grid_index_round_trip(index: int, width: int)
    requires
        0 < width,
        0 <= index,
    ensures
        grid_to_index_spec(index_to_grid_spec(index, width), width) == index,
{
    lemma_fundamental_div_mod(index, width);
    lemma_mul_is_commutative(width, index / width);
}

/// Grid bijection, the other direction: converting a grid coordinate to a
/// linear index and back yields the same coordinate.
pub proof fn lemma_index_grid_round_trip(row: int, col: int, width: int)
    requires
        0 < width,
        0 <= row,
        0 <= col < width,
    ensures
        index_to_grid_spec(grid_to_index_spec((row, col), width), width) == (row, col),
{
    lemma_fundamental_div_mod_converse_div(row * width + col, width, row, col);
    lemma_fundamental_div_mod_converse_mod(row * width + col, width, row, col);
}

/// Nearest-integer rounding of the ratio `t / d` for `d > 0`, halves
/// rounding away from zero.
pub open spec fn round_ratio(t: int, d: int) -> int {
    if t >= 0 {
        (t + d / 2) / d
    } else {
        -((-t + d / 2) / d)
    }
}

/// Division of `t` by `d > 0` rounded toward zero.
pub open spec fn trunc_ratio(t: int, d: int) -> int {
    if t >= 0 {
        t / d
    } else {
        -((-t) / d)
    }
}

/// Clamps an integer to the `i8` range.
pub open spec fn clamp_i8(v: int) -> int {
    if v < -128 {
        -128
    } else if v > 127 {
        127
    } else {
        v
    }
}

/// The quantization rule: scale the fixed-point response by the fixed-point
/// scale factor, round to the nearest bucket, clamp to the `i8` range.
pub open spec fn quantize_spec(value: int, scale: int) -> int {
    clamp_i8(round_ratio(value * scale, FP_ONE_SQ as int))
}

/// Maps a fixed-point response value to a signed 8-bit bucket.
///
/// `scale` is the fixed-point scale factor `120 / (3 * sigma)`, produced by
/// `quantizer_scale` for the configured grid size.  Every fixed-point
/// response is a finite value, so the non-finite corner cases of a
/// floating-point reading cannot arise here; the result is defined for
/// every input.
pub fn quantize(value: i64, scale: i64) -> (q: i8)
    requires
        0 < scale,
    ensures
        q == quantize_spec(value as int, scale as int),
{
    proof {
        assert((value as int) * (scale as int) <= 0x7fffffffffffffff * 0x7fffffffffffffff
            && (value as int) * (scale as int) >= -0x8000000000000000 * 0x7fffffffffffffff)
            by (nonlinear_arith)
            requires
                -0x8000000000000000 <= value <= 0x7fffffffffffffff,
                0 < scale <= 0x7fffffffffffffff;
    }
    let t: i128 = (value as i128) * (scale as i128);
    let neg: bool = t < 0;
    let a: i128 = if neg {
        -t
    } else {
        t
    };
    let au: u128 = a as u128;
    let rqu: u128 = (au + 549755813888) / 1099511627776;
    let rq: i128 = rqu as i128;
    let signed: i128 = if neg {
        -rq
    } else {
        rq
    };
    let clamped: i128 = if signed < -128 {
        -128
    } else if signed > 127 {
        127
    } else {
        signed
    };
    clamped as i8
}

/// Quantizer range: every quantized value lies in `[-128, 127]`.
pub proof fn lemma_quantize_range(value: int, scale: int)
    ensures
        -128 <= quantize_spec(value, scale) <= 127,
{
}

/// Quantizing a zero response yields the zero bucket.
pub proof fn lemma_quantize_zero(scale: int)
    ensures
        quantize_spec(0, scale) == 0,
{
    let d: int = FP_ONE_SQ as int;
    assert(0 * scale == 0);
    assert(0 <= d / 2 < d);
    assert((0 + d / 2) / d == 0) by {
        vstd::arithmetic::div_mod::lemma_basic_div(d / 2, d);
    }
}

proof fn lemma_round_ratio_monotonic(t1: int, t2: int, d: int)
    requires
        t1 <= t2,
        0 < d,
    ensures
        round_ratio(t1, d) <= round_ratio(t2, d),
{
    if t1 >= 0 {
        lemma_div_is_ordered(t1 + d / 2, t2 + d / 2, d);
    } else if t2 < 0 {
        lemma_div_is_ordered(-t2 + d / 2, -t1 + d / 2, d);
    } else {
        lemma_div_pos_is_pos(-t1 + d / 2, d);
        lemma_div_pos_is_pos(t2 + d / 2, d);
    }
}

/// Quantizer monotonicity: with a fixed positive scale, the quantized
/// bucket is non-decreasing in the response value.
pub proof fn lemma_quantize_monotonic(v1: int, v2: int, scale: int)
    requires
        v1 <= v2,
        0 < scale,
    ensures
        quantize_spec(v1, scale) <= quantize_spec(v2, scale),
{
    lemma_mul_inequality(v1, v2, scale);
    lemma_round_ratio_monotonic(v1 * scale, v2 * scale, FP_ONE_SQ as int);
}

/// `r` is the integer square root of `n`.
pub open spec fn is_isqrt(n: int, r: int) -> bool {
    0 <= r && r * r <= n && n < (r + 1) * (r + 1)
}

/// Integer square root by binary search.
pub fn isqrt(n: u64) -> (r: u64)
    ensures
        is_isqrt(n as int, r as int),
{
    let mut lo: u64 = 0;
    let mut hi: u64 = 4294967296;
    while lo + 1 < hi
        invariant
            lo < hi <= 4294967296,
            (lo as int) * (lo as int) <= n as int,
            (n as int) < (hi as int) * (hi as int),
        decreases hi - lo,
    {
        let mid: u64 = lo + (hi - lo) / 2;
        proof {
            assert((mid as int) * (mid as int) <= 4294967296int * 4294967296)
                by (nonlinear_arith)
                requires (mid as int) >= 0, (mid as int) <= 4294967296;
        }
        let sq: u128 = (mid as u128) * (mid as u128);
        if sq <= (n as u128) {
            lo = mid;
        } else {
            hi = mid;
        }
    }
    lo
}

/// The fixed-point quantizer scale factor for a grid of `grid_size` cells:
/// `120 / (3 * sigma)` with `sigma = 1 / sqrt(grid_size)`, which reduces to
/// `40 * sqrt(grid_size)`.
pub fn quantizer_scale(grid_size: usize) -> (scale: i64)
    requires
        0 < grid_size < 16777216,
    ensures
        0 < scale,
        exists|s: int|
            #[trigger] is_isqrt(grid_size * (FP_ONE as int) * (FP_ONE as int), s) && scale == 40 * s,
{
    let n: u64 = (grid_size as u64) * 1048576 * 1048576;
    let root: u64 = isqrt(n);
    proof {
        assert((root as int) * (root as int) <= n as int);
        assert(1048576 * 1048576 <= n as int);
        if root == 0 {
            assert((root as int + 1) * (root as int + 1) == 1) by (nonlinear_arith)
                requires (root as int) == 0;
            assert(false);
        }
        if root >= 4294967296 {
            assert((root as int) * (root as int) >= 4294967296int * 4294967296)
                by (nonlinear_arith)
                requires (root as int) >= 4294967296;
            assert(false);
        }
        assert(grid_size * (FP_ONE as int) * (FP_ONE as int) == n as int) by (nonlinear_arith)
            requires
                n as int == (grid_size as int) * 1048576 * 1048576,
                FP_ONE as int == 1048576;
        assert(is_isqrt(grid_size * (FP_ONE as int) * (FP_ONE as int), root as int));
    }
    40 * (root as i64)
}

/// The fixed-point standard deviation `sigma = 1 / sqrt(grid_size)` of the
/// projection distribution.
pub fn sigma_fp(grid_size: usize) -> (sigma: i64)
    requires
        0 < grid_size < 16777216,
    ensures
        0 < sigma <= FP_ONE,
        exists|s: int|
            #[trigger] is_isqrt(grid_size * (FP_ONE as int) * (FP_ONE as int), s) && 0 < s && sigma == (
            FP_ONE_SQ as int) / s,
{
    let n: u64 = (grid_size as u64) * 1048576 * 1048576;
    let root: u64 = isqrt(n);
    proof {
        assert(1048576 * 1048576 <= n as int);
        if root < 1048576 {
            assert((root as int + 1) * (root as int + 1) <= 1048576 * 1048576)
                by (nonlinear_arith)
                requires 0 <= (root as int), (root as int) + 1 <= 1048576;
            assert(false);
        }
        if root > 1099511627776 {
            assert((root as int) * (root as int) > 1099511627776int * 1099511627776)
                by (nonlinear_arith)
                requires (root as int) > 1099511627776;
            assert(false);
        }
        assert(root as int >= 1048576);
        assert(grid_size * (FP_ONE as int) * (FP_ONE as int) == n as int) by (nonlinear_arith)
            requires
                n as int == (grid_size as int) * 1048576 * 1048576,
                FP_ONE as int == 1048576;
        lemma_div_is_ordered(1048576int * 1048576, FP_ONE_SQ as int, root as int);
        assert((FP_ONE_SQ as int) / (root as int) >= 1) by {
            vstd::arithmetic::div_mod::lemma_div_multiples_vanish(1, root as int);
            lemma_div_is_ordered(root as int, FP_ONE_SQ as int, root as int);
        }
    }
    let sigma: u64 = 1099511627776u64 / root;
    proof {
        assert(sigma as int == (FP_ONE_SQ as int) / (root as int));
        assert((FP_ONE_SQ as int) / (root as int) <= (FP_ONE_SQ as int) / 1048576) by {
            vstd::arithmetic::div_mod::lemma_div_is_ordered_by_denominator(
                FP_ONE_SQ as int, 1048576, root as int);
        }
        assert(is_isqrt(grid_size * (FP_ONE as int) * (FP_ONE as int), root as int));
    }
    sigma as i64
}

} // verus!
