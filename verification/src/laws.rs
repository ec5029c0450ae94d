//! General laws of the generation-stepping rule, proved over the shared
//! model in [`crate::rules`].  Because both [`crate::grid::Grid`] and
//! [`crate::board::Board`] pin their stepping down to [`rules::step`], each
//! law holds of both types.

use vstd::prelude::*;

use crate::rules;
use crate::rules::{cell_at, grid_wf, neighbor, next_live, step, tally};

verus! {

/// Determinism: stepping is a pure function of the dimensions and the live
/// set.  Two well-formed grids of the same dimensions whose cells agree at
/// every coordinate step to identical cell sequences.
pub proof fn lemma_step_deterministic(
    cells1: Seq<bool>,
    cells2: Seq<bool>,
    width: int,
    height: int,
)
    requires
        grid_wf(cells1, width, height),
        grid_wf(cells2, width, height),
        forall|x: int, y: int|
            0 <= x < width && 0 <= y < height ==> (#[trigger] cell_at(cells1, width, x, y)
                == cell_at(cells2, width, x, y)),
    ensures
        step(cells1, width, height) == step(cells2, width, height),
{
    assert forall|k: int| 0 <= k < cells1.len() implies cells1[k] == cells2[k] by {
        rules::lemma_coords_of_index(width, height, k);
        assert(cell_at(cells1, width, k % width, k / width) == cell_at(
            cells2,
            width,
            k % width,
            k / width,
        ));
    }
    assert(cells1 =~= cells2);
}

/// Birth: a cell with exactly three live neighbor visits is alive in the
/// next generation, whatever its current state.
pub proof fn lemma_birth(cells: Seq<bool>, width: int, height: int, x: int, y: int)
    requires
        tally(cells, width, height, x, y) == 3,
    ensures
        next_live(cells, width, height, x, y),
{
}

/// Wrap-around adjacency, diagonal: on a grid with at least two columns and
/// two rows, neighbor 0 of the origin is the opposite corner, so a live
/// cell there is counted among the origin's neighbor visits.
pub proof fn lemma_wrap_diagonal(cells: Seq<bool>, width: int, height: int)
    requires
        grid_wf(cells, width, height),
        width >= 2,
        height >= 2,
        cell_at(cells, width, width - 1, height - 1),
    ensures
        neighbor(0, 0, width, height, 0) == (width - 1, height - 1),
        tally(cells, width, height, 0, 0) >= 1,
{
    rules::lemma_wrap_unit(0, -1, width);
    rules::lemma_wrap_unit(0, -1, height);
    rules::lemma_tally_unfolded(cells, width, height, 0, 0);
}

/// Wrap-around adjacency, horizontal: neighbor 6 (offset `(1, 0)`) of the
/// last cell of a row is the first cell of the same row, so a live origin
/// is counted among the last column's neighbor visits.
pub proof fn lemma_wrap_adjacent(cells: Seq<bool>, width: int, height: int)
    requires
        grid_wf(cells, width, height),
        width >= 2,
        cell_at(cells, width, 0, 0),
    ensures
        neighbor(width - 1, 0, width, height, 6) == (0int, 0int),
        tally(cells, width, height, width - 1, 0) >= 1,
{
    rules::lemma_wrap_unit(width - 1, 1, width);
    rules::lemma_wrap_unit(0, 0, height);
    rules::lemma_tally_unfolded(cells, width, height, width - 1, 0);
}

/// Death of an isolated cell: when exactly one cell is live and that cell
/// has no live neighbor visits, every cell of the next generation is dead.
#[verifier::rlimit(50)]
pub proof fn lemma_lone_cell_dies(cells: Seq<bool>, width: int, height: int, x0: int, y0: int)
    requires
        grid_wf(cells, width, height),
        0 <= x0 < width,
        0 <= y0 < height,
        forall|x: int, y: int|
            0 <= x < width && 0 <= y < height ==> (#[trigger] cell_at(cells, width, x, y) <==> (x
                == x0 && y == y0)),
        tally(cells, width, height, x0, y0) == 0,
    ensures
        forall|x: int, y: int|
            0 <= x < width && 0 <= y < height ==> !next_live(cells, width, height, x, y),
        forall|k: int| 0 <= k < cells.len() ==> !step(cells, width, height)[k],
{
    rules::lemma_tally_unfolded(cells, width, height, x0, y0);
    rules::lemma_wrap_unit(x0, -1, width);
    rules::lemma_wrap_unit(x0, 0, width);
    rules::lemma_wrap_unit(x0, 1, width);
    rules::lemma_wrap_unit(y0, -1, height);
    rules::lemma_wrap_unit(y0, 0, height);
    rules::lemma_wrap_unit(y0, 1, height);
    assert(width >= 2);
    assert(height >= 2);
    assert forall|x: int, y: int|
        0 <= x < width && 0 <= y < height implies !next_live(cells, width, height, x, y) by {
        rules::lemma_tally_unfolded(cells, width, height, x, y);
        rules::lemma_wrap_unit(x, -1, width);
        rules::lemma_wrap_unit(x, 0, width);
        rules::lemma_wrap_unit(x, 1, width);
        rules::lemma_wrap_unit(y, -1, height);
        rules::lemma_wrap_unit(y, 0, height);
        rules::lemma_wrap_unit(y, 1, height);
    }
    assert forall|k: int| 0 <= k < cells.len() implies !step(cells, width, height)[k] by {
        rules::lemma_coords_of_index(width, height, k);
    }
}

/// Stability: a 2x2 block is a still life.  On a grid at least 4 cells
/// wide and 4 cells tall whose live set is exactly the block at `(a, b)`,
/// one step changes nothing.
#[verifier::rlimit(100)]
pub proof fn lemma_block_still_life(cells: Seq<bool>, width: int, height: int, a: int, b: int)
    requires
        grid_wf(cells, width, height),
        4 <= width,
        4 <= height,
        0 <= a,
        a + 1 < width,
        0 <= b,
        b + 1 < height,
        forall|x: int, y: int|
            0 <= x < width && 0 <= y < height ==> (#[trigger] cell_at(cells, width, x, y) <==> ((x
                == a || x == a + 1) && (y == b || y == b + 1))),
    ensures
        step(cells, width, height) == cells,
        forall|x: int, y: int|
            0 <= x < width && 0 <= y < height ==> next_live(cells, width, height, x, y) == cell_at(
                cells,
                width,
                x,
                y,
            ),
{
    assert forall|x: int, y: int|
        0 <= x < width && 0 <= y < height implies next_live(cells, width, height, x, y) == cell_at(
        cells,
        width,
        x,
        y,
    ) by {
        rules::lemma_tally_unfolded(cells, width, height, x, y);
        rules::lemma_wrap_unit(x, -1, width);
        rules::lemma_wrap_unit(x, 0, width);
        rules::lemma_wrap_unit(x, 1, width);
        rules::lemma_wrap_unit(y, -1, height);
        rules::lemma_wrap_unit(y, 0, height);
        rules::lemma_wrap_unit(y, 1, height);
    }
    assert forall|k: int|
        0 <= k < cells.len() implies step(cells, width, height)[k] == cells[k] by {
        rules::lemma_coords_of_index(width, height, k);
        assert(cells[k] == cell_at(cells, width, k % width, k / width));
    }
    assert(step(cells, width, height) =~= cells);
}

/// One step of a horizontal blinker: on a grid at least 5 cells wide and
/// tall whose live set is exactly the three cells `(a-1, b)`, `(a, b)`,
/// `(a+1, b)`, the next generation's live set is exactly the vertical
/// three cells `(a, b-1)`, `(a, b)`, `(a, b+1)`.
#[verifier::rlimit(100)]
pub proof fn lemma_blinker_flips(cells: Seq<bool>, width: int, height: int, a: int, b: int)
    requires
        grid_wf(cells, width, height),
        5 <= width,
        5 <= height,
        1 <= a,
        a + 1 < width,
        1 <= b,
        b + 1 < height,
        forall|x: int, y: int|
            0 <= x < width && 0 <= y < height ==> (#[trigger] cell_at(cells, width, x, y) <==> (y
                == b && (x == a - 1 || x == a || x == a + 1))),
    ensures
        forall|x: int, y: int|
            0 <= x < width && 0 <= y < height ==> (next_live(cells, width, height, x, y) <==> (x
                == a && (y == b - 1 || y == b || y == b + 1))),
{
    assert forall|x: int, y: int|
        0 <= x < width && 0 <= y < height implies (next_live(cells, width, height, x, y) <==> (x
        == a && (y == b - 1 || y == b || y == b + 1))) by {
        rules::lemma_tally_unfolded(cells, width, height, x, y);
        rules::lemma_wrap_unit(x, -1, width);
        rules::lemma_wrap_unit(x, 0, width);
        rules::lemma_wrap_unit(x, 1, width);
        rules::lemma_wrap_unit(y, -1, height);
        rules::lemma_wrap_unit(y, 0, height);
        rules::lemma_wrap_unit(y, 1, height);
    }
}

/// One step of a vertical blinker: the mirror image of
/// [`lemma_blinker_flips`], stepping the vertical three cells back to the
/// horizontal three cells.
#[verifier::rlimit(100)]
pub proof fn lemma_blinker_flips_back(cells: Seq<bool>, width: int, height: int, a: int, b: int)
    requires
        grid_wf(cells, width, height),
        5 <= width,
        5 <= height,
        1 <= a,
        a + 1 < width,
        1 <= b,
        b + 1 < height,
        forall|x: int, y: int|
            0 <= x < width && 0 <= y < height ==> (#[trigger] cell_at(cells, width, x, y) <==> (x
                == a && (y == b - 1 || y == b || y == b + 1))),
    ensures
        forall|x: int, y: int|
            0 <= x < width && 0 <= y < height ==> (next_live(cells, width, height, x, y) <==> (y
                == b && (x == a - 1 || x == a || x == a + 1))),
{
    assert forall|x: int, y: int|
        0 <= x < width && 0 <= y < height implies (next_live(cells, width, height, x, y) <==> (y
        == b && (x == a - 1 || x == a || x == a + 1))) by {
        rules::lemma_tally_unfolded(cells, width, height, x, y);
        rules::lemma_wrap_unit(x, -1, width);
        rules::lemma_wrap_unit(x, 0, width);
        rules::lemma_wrap_unit(x, 1, width);
        rules::lemma_wrap_unit(y, -1, height);
        rules::lemma_wrap_unit(y, 0, height);
        rules::lemma_wrap_unit(y, 1, height);
    }
}

/// Oscillation: a horizontal blinker turns vertical after one step and
/// returns to exactly its original cells after two.
#[verifier::rlimit(50)]
pub proof fn lemma_blinker_period_two(cells: Seq<bool>, width: int, height: int, a: int, b: int)
    requires
        grid_wf(cells, width, height),
        5 <= width,
        5 <= height,
        1 <= a,
        a + 1 < width,
        1 <= b,
        b + 1 < height,
        forall|x: int, y: int|
            0 <= x < width && 0 <= y < height ==> (#[trigger] cell_at(cells, width, x, y) <==> (y
                == b && (x == a - 1 || x == a || x == a + 1))),
    ensures
        forall|x: int, y: int|
            0 <= x < width && 0 <= y < height ==> (#[trigger] cell_at(
                step(cells, width, height),
                width,
                x,
                y,
            ) <==> (x == a && (y == b - 1 || y == b || y == b + 1))),
        step(step(cells, width, height), width, height) == cells,
{
    lemma_blinker_flips(cells, width, height, a, b);
    let cells1 = step(cells, width, height);
    assert(cells1.len() == cells.len());
    assert forall|x: int, y: int|
        0 <= x < width && 0 <= y < height implies (#[trigger] cell_at(cells1, width, x, y) <==> (x
        == a && (y == b - 1 || y == b || y == b + 1))) by {
        rules::lemma_step_cell(cells, width, height, x, y);
    }
    lemma_blinker_flips_back(cells1, width, height, a, b);
    assert forall|k: int|
        0 <= k < cells.len() implies step(cells1, width, height)[k] == cells[k] by {
        rules::lemma_coords_of_index(width, height, k);
        assert(next_live(cells1, width, height, k % width, k / width) <==> (k / width == b && (k
            % width == a - 1 || k % width == a || k % width == a + 1)));
        assert(cells[k] == cell_at(cells, width, k % width, k / width));
    }
    assert(step(cells1, width, height) =~= cells);
}

} // verus!
