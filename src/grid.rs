use vstd::prelude::*;

use vstd::arithmetic::div_mod::lemma_fundamental_div_mod_converse;

verus! {

/// Position of cell (x, y, z) in a dense array of a box `depth` cells deep
/// and `height` cells high, laid out x-major, then y, then z.
pub open spec fn grid_index(depth: int, height: int, x: int, y: int, z: int) -> int {
    (x * depth + y) * height + z
}

/// Whether (x, y, z) lies inside a box of the given extents.
pub open spec fn in_box(width: int, depth: int, height: int, x: int, y: int, z: int) -> bool {
    0 <= x < width && 0 <= y < depth && 0 <= z < height
}

/// Cells inside the box sit inside the array, and the running sums used to
/// reach them stay below its length.
pub proof fn lemma_grid_index_bound(w: int, d: int, h: int, x: int, y: int, z: int)
    requires
        in_box(w, d, h, x, y, z),
    ensures
        0 <= x * d <= x * d + y < w * d,
        0 <= (x * d + y) * h <= grid_index(d, h, x, y, z) < w * d * h,
        d * h <= w * d * h,
        w * d <= w * d * h,
        grid_index(d, h, x, y, z) + d * h == grid_index(d, h, x + 1, y, z),
        grid_index(d, h, x, y, z) + h == grid_index(d, h, x, y + 1, z),
{
    assert(0 <= x * d) by (nonlinear_arith)
        requires
            0 <= x,
            0 <= d,
    ;
    assert((x + 1) * d <= w * d) by (nonlinear_arith)
        requires
            x + 1 <= w,
            0 <= d,
    ;
    assert((x + 1) * d == x * d + d) by (nonlinear_arith);
    assert(0 <= (x * d + y) * h) by (nonlinear_arith)
        requires
            0 <= x * d + y,
            0 <= h,
    ;
    assert((x * d + y + 1) * h <= (w * d) * h) by (nonlinear_arith)
        requires
            x * d + y + 1 <= w * d,
            0 <= h,
    ;
    assert((x * d + y + 1) * h == (x * d + y) * h + h) by (nonlinear_arith);
    assert((w * d) * h == w * d * h) by (nonlinear_arith);
    assert(d * h <= w * d * h) by (nonlinear_arith)
        requires
            1 <= w,
            0 <= d,
            0 <= h,
    ;
    assert(w * d <= w * d * h) by (nonlinear_arith)
        requires
            0 <= w,
            0 <= d,
            1 <= h,
    ;
    assert(grid_index(d, h, x, y, z) + d * h == grid_index(d, h, x + 1, y, z)) by (nonlinear_arith);
    assert(grid_index(d, h, x, y, z) + h == grid_index(d, h, x, y + 1, z)) by (nonlinear_arith);
}

/// Distinct cells of the box have distinct positions.
pub proof fn lemma_grid_index_injective(
    w: int,
    d: int,
    h: int,
    x1: int,
    y1: int,
    z1: int,
    x2: int,
    y2: int,
    z2: int,
)
    requires
        in_box(w, d, h, x1, y1, z1),
        in_box(w, d, h, x2, y2, z2),
        grid_index(d, h, x1, y1, z1) == grid_index(d, h, x2, y2, z2),
    ensures
        x1 == x2 && y1 == y2 && z1 == z2,
{
    let n = grid_index(d, h, x1, y1, z1);
    lemma_fundamental_div_mod_converse(n, h, x1 * d + y1, z1);
    lemma_fundamental_div_mod_converse(n, h, x2 * d + y2, z2);
    lemma_fundamental_div_mod_converse(n / h, d, x1, y1);
    lemma_fundamental_div_mod_converse(n / h, d, x2, y2);
}

/// The cell after the last one of a row, or of a plane, starts the next.
pub proof fn lemma_grid_index_carry(d: int, h: int, x: int, y: int)
    ensures
        grid_index(d, h, x, y, h) == grid_index(d, h, x, y + 1, 0),
        grid_index(d, h, x, d, 0) == grid_index(d, h, x + 1, 0, 0),
        grid_index(d, h, x, 0, 0) == x * (d * h),
{
    assert(grid_index(d, h, x, y, h) == grid_index(d, h, x, y + 1, 0)) by (nonlinear_arith);
    assert(grid_index(d, h, x, d, 0) == grid_index(d, h, x + 1, 0, 0)) by (nonlinear_arith);
    assert(grid_index(d, h, x, 0, 0) == x * (d * h)) by (nonlinear_arith);
}

} // verus!
