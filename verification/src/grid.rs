//! Index arithmetic of planar `[c][h][w]` data.

use vstd::prelude::*;

verus! {

/// The position of row `y`, column `x` of channel `c` in planar data whose
/// channels are `h` rows of `w` values.
pub open spec fn cell(h: int, w: int, c: int, y: int, x: int) -> int {
    (c * h + y) * w + x
}

/// A cell lies inside the data, and its coordinates can be read back from it.
pub proof fn lemma_cell(nc: int, h: int, w: int, c: int, y: int, x: int)
    requires
        0 <= c < nc,
        0 <= y < h,
        0 <= x < w,
    ensures
        0 <= cell(h, w, c, y, x) < nc * h * w,
        cell(h, w, c, y, x) % w == x,
        cell(h, w, c, y, x) / w == c * h + y,
        (cell(h, w, c, y, x) / w) % h == y,
        (cell(h, w, c, y, x) / w) / h == c,
        cell(h, w, c, y, x) == c * (h * w) + y * w + x,
        (c + 1) * (h * w) <= nc * h * w,
        c * (h * w) + (y + 1) * w <= (c + 1) * (h * w),
        c * h * w == c * (h * w),
        nc * h * w == nc * (h * w),
{
    let row = c * h + y;
    lemma_quot_rem(row, w, x);
    lemma_quot_rem(c, h, y);
    assert(0 <= row < nc * h) by (nonlinear_arith)
        requires
            0 <= c < nc,
            0 <= y < h,
            row == c * h + y,
    ;
    assert(0 <= row * w + x < nc * h * w) by (nonlinear_arith)
        requires
            0 <= row < nc * h,
            0 <= x < w,
    ;
    assert(row * w == c * (h * w) + y * w) by (nonlinear_arith)
        requires
            row == c * h + y,
    ;
    assert((c + 1) * (h * w) <= nc * h * w) by (nonlinear_arith)
        requires
            0 <= c < nc,
            0 <= y < h,
            0 <= x < w,
    ;
    assert(c * (h * w) + (y + 1) * w <= (c + 1) * (h * w)) by (nonlinear_arith)
        requires
            0 <= y < h,
            0 <= x < w,
    ;
    assert(c * h * w == c * (h * w)) by (nonlinear_arith);
    assert(nc * h * w == nc * (h * w)) by (nonlinear_arith);
}

/// Every position of planar data is the cell of its own coordinates.
pub proof fn lemma_uncell(nc: int, h: int, w: int, i: int)
    requires
        0 <= nc,
        0 <= h,
        0 <= w,
        0 <= i < nc * h * w,
    ensures
        0 < w,
        0 < h,
        0 <= (i / w) / h < nc,
        0 <= (i / w) % h < h,
        0 <= i % w < w,
        i == cell(h, w, (i / w) / h, (i / w) % h, i % w),
{
    assert(0 < w && 0 < h && 0 < nc * h) by (nonlinear_arith)
        requires
            0 <= nc,
            0 <= h,
            0 <= w,
            0 <= i < nc * h * w,
    ;
    vstd::arithmetic::div_mod::lemma_fundamental_div_mod(i, w);
    let row = i / w;
    assert(0 <= row < nc * h) by (nonlinear_arith)
        requires
            0 <= i < nc * h * w,
            0 < w,
            row == i / w,
    ;
    vstd::arithmetic::div_mod::lemma_fundamental_div_mod(row, h);
    assert(0 <= row / h < nc) by (nonlinear_arith)
        requires
            0 <= row < nc * h,
            0 < h,
    ;
    assert(w * row == row * w) by (nonlinear_arith);
    assert(h * (row / h) == (row / h) * h) by (nonlinear_arith);
}

/// `q * d + r` with `0 <= r < d` divides back into `q` and `r`.
pub proof fn lemma_quot_rem(q: int, d: int, r: int)
    requires
        0 <= r < d,
    ensures
        (q * d + r) / d == q,
        (q * d + r) % d == r,
{
    vstd::arithmetic::div_mod::lemma_fundamental_div_mod_converse(q * d + r, d, q, r);
}

} // verus!
