//! Row-major index arithmetic for grids `w` cells wide.

use vstd::prelude::*;

verus! {

/// The cell at column `x` and row `y` sits at index `y * w + x`, inside `0 .. w * h`,
/// and division and remainder by `w` give the coordinates back.
pub proof fn lemma_index_of_coords(w: int, h: int, x: int, y: int)
    requires
        0 <= x < w,
        0 <= y < h,
    ensures
        0 <= y * w + x < w * h,
        (y * w + x) % w == x,
        (y * w + x) / w == y,
{
    assert(0 <= y * w) by (nonlinear_arith)
        requires
            0 <= y,
            0 <= w,
    ;
    assert(y * w + x < w * h) by (nonlinear_arith)
        requires
            0 <= x < w,
            0 <= y < h,
    ;
    vstd::arithmetic::div_mod::lemma_fundamental_div_mod_converse(y * w + x, w, y, x);
}

/// Every index `i` in `0 .. w * h` is the cell at column `i % w`, row `i / w`.
pub proof fn lemma_coords_of_index(w: int, h: int, i: int)
    requires
        w > 0,
        0 <= i < w * h,
    ensures
        0 <= i % w < w,
        0 <= i / w < h,
        i == (i / w) * w + i % w,
{
    vstd::arithmetic::div_mod::lemma_fundamental_div_mod(i, w);
    vstd::arithmetic::div_mod::lemma_mod_bound(i, w);
    vstd::arithmetic::div_mod::lemma_div_pos_is_pos(i, w);
    let q = i / w;
    let r = i % w;
    assert(q * w == w * q) by (nonlinear_arith);
    assert(q < h) by (nonlinear_arith)
        requires
            i == w * q + r,
            0 <= r,
            i < w * h,
            w > 0,
    ;
}

/// A product of two factors bounded by `a` and `b` is bounded by `a * b`.
pub proof fn lemma_mul_le(x: int, y: int, a: int, b: int)
    requires
        0 <= x <= a,
        0 <= y <= b,
    ensures
        0 <= x * y <= a * b,
{
    assert(0 <= x * y <= a * b) by (nonlinear_arith)
        requires
            0 <= x <= a,
            0 <= y <= b,
    ;
}

} // verus!
