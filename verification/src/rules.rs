//! The mathematical model of the game: a dense row-major grid of booleans,
//! toroidal wrap-around neighbor geometry, the live-neighbor tally, and the
//! birth/survival rule.  The executable types in [`crate::grid`] and
//! [`crate::board`] state their contracts in terms of these functions.

use vstd::prelude::*;
use vstd::arithmetic::div_mod::{
    lemma_fundamental_div_mod, lemma_fundamental_div_mod_converse, lemma_mod_bound,
    lemma_mod_multiples_vanish, lemma_small_mod,
};
use vstd::arithmetic::mul::lemma_mul_is_commutative;

verus! {

/// A well-formed dense grid: at least one column and one row, and one stored
/// cell for every coordinate.
pub open spec fn grid_wf(cells: Seq<bool>, width: int, height: int) -> bool {
    width >= 1 && height >= 1 && cells.len() == width * height
}

/// Whether cell `(x, y)` is live.  Cells are stored row-major, so `(x, y)`
/// lives at index `x + y * width`.
pub open spec fn cell_at(cells: Seq<bool>, width: int, x: int, y: int) -> bool {
    cells[x + y * width]
}

/// A coordinate moved by `delta` (one of -1, 0, 1) along an axis of modulus
/// `m`, wrapped toroidally.  Adding `m` before taking the remainder keeps the
/// dividend nonnegative, so the result lies in `[0, m)` whatever the sign of
/// `delta`.
pub open spec fn wrap(v: int, delta: int, m: int) -> int {
    (v + m + delta) % m
}

/// The relative offset of neighbor `i` (for `0 <= i < 8`): the Moore
/// neighborhood, in row-major order of the offsets.
pub open spec fn delta(i: int) -> (int, int) {
    if i == 0 {
        (-1, -1)
    } else if i == 1 {
        (-1, 0)
    } else if i == 2 {
        (-1, 1)
    } else if i == 3 {
        (0, -1)
    } else if i == 4 {
        (0, 1)
    } else if i == 5 {
        (1, -1)
    } else if i == 6 {
        (1, 0)
    } else {
        (1, 1)
    }
}

/// Neighbor `i` of `(x, y)` under toroidal wrap-around.
pub open spec fn neighbor(x: int, y: int, width: int, height: int, i: int) -> (int, int) {
    (wrap(x, delta(i).0, width), wrap(y, delta(i).1, height))
}

/// How many of the first `n` neighbor offsets of `(x, y)` point at a live
/// cell.  When `width` or `height` is small, several offsets wrap to the same
/// coordinate and each visit counts separately, exactly as repeated tally
/// increments would.
pub open spec fn tally_upto(
    cells: Seq<bool>,
    width: int,
    height: int,
    x: int,
    y: int,
    n: int,
) -> int
    decreases n,
{
    if n <= 0 {
        0
    } else {
        tally_upto(cells, width, height, x, y, n - 1) + (if cell_at(
            cells,
            width,
            neighbor(x, y, width, height, n - 1).0,
            neighbor(x, y, width, height, n - 1).1,
        ) {
            1int
        } else {
            0int
        })
    }
}

/// The live-neighbor tally of `(x, y)`: how many of its 8 wrapped neighbor
/// visits land on a live cell.
pub open spec fn tally(cells: Seq<bool>, width: int, height: int, x: int, y: int) -> int {
    tally_upto(cells, width, height, x, y, 8)
}

/// The birth/survival rule: a cell is live in the next generation exactly
/// when its tally is 3, or it is live now and its tally is 2.
pub open spec fn next_live(cells: Seq<bool>, width: int, height: int, x: int, y: int) -> bool {
    tally(cells, width, height, x, y) == 3 || (cell_at(cells, width, x, y) && tally(
        cells,
        width,
        height,
        x,
        y,
    ) == 2)
}

/// One whole generation: cell `i` of the result is the rule applied at the
/// coordinates of index `i`.
pub open spec fn step(cells: Seq<bool>, width: int, height: int) -> Seq<bool> {
    Seq::new(cells.len(), |i: int| next_live(cells, width, height, i % width, i / width))
}

/// Characterizes toroidal wrapping of a single unit move: an in-range move is
/// unchanged, moving right off the last column lands on column 0, and moving
/// left off column 0 lands on the last column.
pub proof fn lemma_wrap_unit(v: int, delta: int, m: int)
    requires
        0 <= v < m,
        -1 <= delta <= 1,
    ensures
        0 <= wrap(v, delta, m) < m,
        0 <= v + delta < m ==> wrap(v, delta, m) == v + delta,
        v + delta == m ==> wrap(v, delta, m) == 0,
        v + delta < 0 ==> wrap(v, delta, m) == m - 1,
{
    if 0 <= v + delta && v + delta < m {
        lemma_mod_multiples_vanish(1, v + delta, m);
        assert(m * 1 + (v + delta) == v + m + delta);
        lemma_small_mod((v + delta) as nat, m as nat);
    } else if v + delta == m {
        lemma_mod_multiples_vanish(2, 0, m);
        assert(m * 2 + 0 == v + m + delta);
        lemma_small_mod(0nat, m as nat);
    } else {
        assert(v + m + delta == m - 1);
        lemma_small_mod((m - 1) as nat, m as nat);
    }
}

/// Row-major indexing is the inverse of coordinate extraction: the index of
/// `(x, y)` decomposes back into `x` and `y`.
pub proof fn lemma_row_major(width: int, x: int, y: int)
    requires
        width >= 1,
        0 <= x < width,
        0 <= y,
    ensures
        (x + y * width) % width == x,
        (x + y * width) / width == y,
        x + y * width >= 0,
{
    lemma_fundamental_div_mod_converse(x + y * width, width, y, x);
    assert(y * width >= 0) by (nonlinear_arith)
        requires
            y >= 0,
            width >= 1,
    ;
}

/// The row-major index of an in-range coordinate is in range.
pub proof fn lemma_index_in_range(width: int, height: int, x: int, y: int)
    requires
        width >= 1,
        height >= 1,
        0 <= x < width,
        0 <= y < height,
    ensures
        0 <= x + y * width < width * height,
{
    assert(0 <= x + y * width && x + y * width < width * height) by (nonlinear_arith)
        requires
            width >= 1,
            height >= 1,
            0 <= x < width,
            0 <= y < height,
    ;
}

/// Coordinate extraction from an in-range index yields an in-range
/// coordinate whose row-major index is the original index.
pub proof fn lemma_coords_of_index(width: int, height: int, idx: int)
    requires
        width >= 1,
        height >= 1,
        0 <= idx < width * height,
    ensures
        0 <= idx % width < width,
        0 <= idx / width < height,
        idx == (idx % width) + (idx / width) * width,
{
    lemma_fundamental_div_mod(idx, width);
    lemma_mod_bound(idx, width);
    lemma_mul_is_commutative(width, idx / width);
    assert(0 <= idx / width && idx / width < height) by (nonlinear_arith)
        requires
            width >= 1,
            height >= 1,
            0 <= idx < width * height,
            idx == width * (idx / width) + (idx % width),
            0 <= idx % width < width,
    ;
}

/// The tally written out as the sum over all 8 wrapped neighbor visits.
pub proof fn lemma_tally_unfolded(cells: Seq<bool>, width: int, height: int, x: int, y: int)
    ensures
        tally(cells, width, height, x, y) == (if cell_at(
            cells,
            width,
            wrap(x, -1, width),
            wrap(y, -1, height),
        ) {
            1int
        } else {
            0int
        }) + (if cell_at(cells, width, wrap(x, -1, width), wrap(y, 0, height)) {
            1int
        } else {
            0int
        }) + (if cell_at(cells, width, wrap(x, -1, width), wrap(y, 1, height)) {
            1int
        } else {
            0int
        }) + (if cell_at(cells, width, wrap(x, 0, width), wrap(y, -1, height)) {
            1int
        } else {
            0int
        }) + (if cell_at(cells, width, wrap(x, 0, width), wrap(y, 1, height)) {
            1int
        } else {
            0int
        }) + (if cell_at(cells, width, wrap(x, 1, width), wrap(y, -1, height)) {
            1int
        } else {
            0int
        }) + (if cell_at(cells, width, wrap(x, 1, width), wrap(y, 0, height)) {
            1int
        } else {
            0int
        }) + (if cell_at(cells, width, wrap(x, 1, width), wrap(y, 1, height)) {
            1int
        } else {
            0int
        }),
{
    reveal_with_fuel(tally_upto, 9);
}

/// The stepped grid keeps its length, and reading it at an in-range
/// coordinate applies the rule to the source grid at that coordinate.
pub proof fn lemma_step_cell(cells: Seq<bool>, width: int, height: int, x: int, y: int)
    requires
        grid_wf(cells, width, height),
        0 <= x < width,
        0 <= y < height,
    ensures
        step(cells, width, height).len() == cells.len(),
        cell_at(step(cells, width, height), width, x, y) == next_live(cells, width, height, x, y),
{
    lemma_index_in_range(width, height, x, y);
    lemma_row_major(width, x, y);
}

} // verus!
