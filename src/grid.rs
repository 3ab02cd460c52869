use vstd::prelude::*;
use vstd::arithmetic::div_mod::{lemma_fundamental_div_mod, lemma_mod_pos_bound};

verus! {

/// The row-major position of column `x`, row `y` in a grid `w` wide.
pub open spec fn grid_index(w: int, x: int, y: int) -> int {
    y * w + x
}

pub proof fn lemma_index_in_range(w: int, h: int, x: int, y: int)
    requires
        0 <= x < w,
        0 <= y < h,
    ensures
        0 <= grid_index(w, x, y) < w * h,
        grid_index(w, x, y) + 1 <= w * h,
{
    assert(0 <= y * w) by (nonlinear_arith)
        requires
            0 <= y,
            0 < w,
    ;
    assert(y * w + x < w * h) by (nonlinear_arith)
        requires
            0 <= x < w,
            0 <= y < h,
    ;
}

pub proof fn lemma_index_injective(w: int, x1: int, y1: int, x2: int, y2: int)
    requires
        0 <= x1 < w,
        0 <= x2 < w,
        grid_index(w, x1, y1) == grid_index(w, x2, y2),
    ensures
        x1 == x2,
        y1 == y2,
{
    if y1 < y2 {
        assert(y1 * w + w <= y2 * w) by (nonlinear_arith)
            requires
                y1 < y2,
                0 < w,
        ;
    } else if y2 < y1 {
        assert(y2 * w + w <= y1 * w) by (nonlinear_arith)
            requires
                y2 < y1,
                0 < w,
        ;
    }
}

/// Cells before `(x2, y2)` in row-major order have smaller positions.
pub proof fn lemma_index_before(w: int, x1: int, y1: int, x2: int, y2: int)
    requires
        0 <= x1 < w,
        0 <= x2 < w,
        y1 < y2 || (y1 == y2 && x1 < x2),
    ensures
        grid_index(w, x1, y1) < grid_index(w, x2, y2),
{
    if y1 < y2 {
        assert(y1 * w + w <= y2 * w) by (nonlinear_arith)
            requires
                y1 < y2,
                0 < w,
        ;
    }
}

/// The first position of the row after `y`.
pub proof fn lemma_next_row(w: int, y: int)
    ensures
        grid_index(w, 0, y + 1) == grid_index(w, 0, y) + w,
{
    assert((y + 1) * w == y * w + w) by (nonlinear_arith);
}

/// Every position of a `w` by `h` grid is that of some column and row.
pub proof fn lemma_index_onto(w: int, h: int, i: int)
    requires
        0 < w,
        0 <= i < w * h,
    ensures
        0 <= i % w < w,
        0 <= i / w < h,
        grid_index(w, i % w, i / w) == i,
{
    lemma_fundamental_div_mod(i, w);
    lemma_mod_pos_bound(i, w);
    let q = i / w;
    assert(q * w == w * q) by (nonlinear_arith);
    if q < 0 {
        assert(w * q <= -w) by (nonlinear_arith)
            requires
                q < 0,
                0 < w,
        ;
    }
    if q >= h {
        assert(w * q >= w * h) by (nonlinear_arith)
            requires
                q >= h,
                0 < w,
        ;
    }
}

} // verus!
