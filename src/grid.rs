//! Row-major indexing of a `width` by `height` grid.
use vstd::prelude::*;
use vstd::arithmetic::div_mod::lemma_fundamental_div_mod_converse;
use vstd::arithmetic::div_mod::lemma_fundamental_div_mod;

verus! {

/// The flat position of coordinate `(x, y)` in a grid of the given width.
pub open spec fn index_of(width: int, x: int, y: int) -> int {
    y * width + x
}

/// A coordinate inside the grid maps to a flat position inside the grid,
/// from which the coordinate is recovered by division and remainder.
pub proof fn lemma_index_in_grid(width: int, height: int, x: int, y: int)
    requires
        0 <= x < width,
        0 <= y < height,
    ensures
        0 <= index_of(width, x, y) < width * height,
        index_of(width, x, y) % width == x,
        index_of(width, x, y) / width == y,
{
    assert(0 <= y * width) by (nonlinear_arith)
        requires 0 <= y, 0 <= width;
    assert(y * width + x < width * height) by (nonlinear_arith)
        requires 0 <= x < width, 0 <= y < height;
    lemma_fundamental_div_mod_converse(y * width + x, width, y, x);
}

/// A flat position inside the grid splits into an in-grid coordinate.
pub proof fn lemma_coords_in_grid(width: int, height: int, i: int)
    requires
        0 < width,
        0 <= i < width * height,
    ensures
        0 <= i % width < width,
        0 <= i / width < height,
        index_of(width, i % width, i / width) == i,
{
    lemma_fundamental_div_mod(i, width);
    assert(0 <= i / width) by (nonlinear_arith)
        requires 0 <= i, 0 < width;
    assert(i / width < height) by (nonlinear_arith)
        requires 0 <= i < width * height, 0 < width, i == width * (i / width) + i % width,
            0 <= i % width;
    assert(width * (i / width) == (i / width) * width) by (nonlinear_arith);
}

/// The flat positions of the four orthogonal neighbours of flat position `i`.
pub proof fn lemma_orthogonal(width: int, i: int)
    requires
        0 < width,
        0 <= i,
    ensures
        index_of(width, i % width - 1, i / width) == i - 1,
        index_of(width, i % width + 1, i / width) == i + 1,
        index_of(width, i % width, i / width - 1) == i - width,
        index_of(width, i % width, i / width + 1) == i + width,
{
    lemma_fundamental_div_mod(i, width);
    assert((i / width - 1) * width == (i / width) * width - width) by (nonlinear_arith);
    assert((i / width + 1) * width == (i / width) * width + width) by (nonlinear_arith);
    assert(width * (i / width) == (i / width) * width) by (nonlinear_arith);
}

/// The orthogonal neighbours of an in-grid flat position that lie inside
/// the grid have in-grid flat positions.
pub proof fn lemma_neighbors_in_grid(width: int, height: int, i: int)
    requires
        0 < width,
        0 <= i < width * height,
    ensures
        i % width > 0 ==> 0 <= i - 1 < width * height,
        i % width + 1 < width ==> 0 <= i + 1 < width * height,
        i / width > 0 ==> 0 <= i - width < width * height,
        i / width + 1 < height ==> 0 <= i + width < width * height,
{
    lemma_coords_in_grid(width, height, i);
    lemma_orthogonal(width, i);
    let x = i % width;
    let y = i / width;
    if x > 0 {
        lemma_index_in_grid(width, height, x - 1, y);
    }
    if x + 1 < width {
        lemma_index_in_grid(width, height, x + 1, y);
    }
    if y > 0 {
        lemma_index_in_grid(width, height, x, y - 1);
    }
    if y + 1 < height {
        lemma_index_in_grid(width, height, x, y + 1);
    }
}

} // verus!
