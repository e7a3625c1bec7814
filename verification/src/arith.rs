//! Arithmetic of rows and columns.

use vstd::prelude::*;

verus! {

/// A product of bounded factors is bounded.
pub proof fn lemma_product_bound(a: int, b: int, amax: int, bmax: int)
    requires
        0 <= a <= amax,
        0 <= b <= bmax,
    ensures
        0 <= a * b <= amax * bmax,
{
    assert(0 <= a * b <= amax * bmax) by (nonlinear_arith)
        requires
            0 <= a <= amax,
            0 <= b <= bmax,
    ;
}

/// A cell of a grid lies within the grid.
pub proof fn lemma_cell_in_grid(width: int, rows: int, y: int, x: int)
    requires
        0 <= x < width,
        0 <= y < rows,
    ensures
        0 <= y * width + x < rows * width,
        (y * width + x) / width == y,
        (y * width + x) % width == x,
{
    assert(0 <= y * width + x < rows * width) by (nonlinear_arith)
        requires
            0 <= x < width,
            0 <= y < rows,
    ;
    vstd::arithmetic::div_mod::lemma_fundamental_div_mod_converse(y * width + x, width, y, x);
}

} // verus!
