//! A board of life storing an explicit two-state cell enum.
//!
//! `Board` is behaviorally identical to [`crate::grid::Grid`]: a dense
//! row-major cell array with toroidal neighbor wrap-around and the same
//! generation-stepping rule.  Its view maps each stored cell to the `bool`
//! model of [`crate::rules`], so both types satisfy the same laws.

use vstd::prelude::*;

use crate::rules;

verus! {

/// The state of one cell of the board.
#[derive(Copy, Clone, PartialEq, Eq)]
enum Cell {
    Alive,
    NotAlive,
}

impl Cell {
    /// Whether this cell state is the live one.
    spec fn spec_alive(self) -> bool {
        self is Alive
    }
}

/// A board of life.  `tiles` holds `width * height` cells row-major: cell
/// `(x, y)` is `tiles[x + y * width]`.
pub struct Board {
    tiles: Vec<Cell>,
    width: usize,
}

impl View for Board {
    type V = Seq<bool>;

    closed spec fn view(&self) -> Seq<bool> {
        self.tiles@.map_values(|c: Cell| c.spec_alive())
    }
}

impl Board {
    /// The number of columns.
    pub closed spec fn spec_width(self) -> int {
        self.width as int
    }

    /// The number of rows, derived from the cell count and the width.
    pub open spec fn spec_height(self) -> int {
        self@.len() as int / self.spec_width()
    }

    /// Whether cell `(x, y)` is live.
    pub open spec fn spec_alive(self, x: int, y: int) -> bool {
        rules::cell_at(self@, self.spec_width(), x, y)
    }

    /// Well-formedness: positive dimensions and one stored cell for every
    /// coordinate.
    pub open spec fn wf(self) -> bool {
        rules::grid_wf(self@, self.spec_width(), self.spec_height())
    }

    /// Create a new board of the given dimensions without any life.
    pub fn new(width: usize, height: usize) -> (r: Board)
        requires
            1 <= width,
            1 <= height,
            width * height <= usize::MAX,
        ensures
            r.wf(),
            r.spec_width() == width,
            r.spec_height() == height,
            r@.len() == width * height,
            forall|k: int| 0 <= k < r@.len() ==> !r@[k],
    {
        let total = width * height;
        let mut tiles: Vec<Cell> = Vec::new();
        while tiles.len() < total
            invariant
                tiles@.len() <= total,
                forall|k: int| 0 <= k < tiles@.len() ==> !(#[trigger] tiles@[k]).spec_alive(),
            decreases total - tiles@.len(),
        {
            tiles.push(Cell::NotAlive);
        }
        proof {
            rules::lemma_row_major(width as int, 0, height as int);
            vstd::arithmetic::mul::lemma_mul_is_commutative(width as int, height as int);
        }
        Board { tiles, width }
    }

    /// The number of columns.
    pub fn width(&self) -> (r: usize)
        ensures
            r == self.spec_width(),
    {
        self.width
    }

    /// The number of rows.
    pub fn height(&self) -> (r: usize)
        requires
            self.wf(),
        ensures
            r == self.spec_height(),
    {
        self.tiles.len() / self.width
    }

    /// The row-major storage index of cell `(x, y)`.
    fn index_for_cell(&self, x: usize, y: usize) -> (r: usize)
        requires
            self.wf(),
            x < self.spec_width(),
            y < self.spec_height(),
        ensures
            r == x as int + (y as int) * self.spec_width(),
            r < self@.len(),
    {
        proof {
            rules::lemma_index_in_range(
                self.spec_width(),
                self.spec_height(),
                x as int,
                y as int,
            );
        }
        // Reading the length as a usize bounds the cell count, so the
        // row-major index below cannot overflow.
        let total = self.tiles.len();
        x + y * self.width
    }

    /// The cell coordinate stored at row-major index `idx`.
    fn cell_for_index(&self, idx: usize) -> (r: (usize, usize))
        requires
            self.wf(),
            idx < self@.len(),
        ensures
            r.0 as int == idx as int % self.spec_width(),
            r.1 as int == idx as int / self.spec_width(),
            r.0 < self.spec_width(),
            r.1 < self.spec_height(),
            r.0 as int + (r.1 as int) * self.spec_width() == idx,
    {
        proof {
            rules::lemma_coords_of_index(self.spec_width(), self.spec_height(), idx as int);
        }
        (idx % self.width, idx / self.width)
    }

    /// Whether cell `(x, y)` is live.
    fn is_alive(&self, x: usize, y: usize) -> (r: bool)
        requires
            self.wf(),
            x < self.spec_width(),
            y < self.spec_height(),
        ensures
            r == self.spec_alive(x as int, y as int),
    {
        let idx = self.index_for_cell(x, y);
        match self.tiles[idx] {
            Cell::Alive => true,
            Cell::NotAlive => false,
        }
    }

    /// Set cell `(x, y)` live.  Re-adding an already-live cell changes
    /// nothing; no other cell is affected.
    pub fn add_life(&mut self, x: usize, y: usize)
        requires
            old(self).wf(),
            x < old(self).spec_width(),
            y < old(self).spec_height(),
        ensures
            final(self).wf(),
            final(self).spec_width() == old(self).spec_width(),
            final(self).spec_height() == old(self).spec_height(),
            final(self)@ == old(self)@.update(x as int + (y as int) * old(self).spec_width(), true),
            final(self).spec_alive(x as int, y as int),
            forall|i: int, j: int|
                0 <= i < old(self).spec_width() && 0 <= j < old(self).spec_height() && !(i == x
                    as int && j == y as int) ==> final(self).spec_alive(i, j) == old(
                    self,
                ).spec_alive(i, j),
    {
        let idx = self.index_for_cell(x, y);
        self.tiles.set(idx, Cell::Alive);
        proof {
            assert(self@ =~= old(self)@.update(idx as int, true));
            rules::lemma_row_major(old(self).spec_width(), x as int, y as int);
            assert forall|i: int, j: int|
                0 <= i < old(self).spec_width() && 0 <= j < old(self).spec_height() && !(i == x
                    as int && j == y as int) implies self.spec_alive(i, j) == old(self).spec_alive(
                i,
                j,
            ) by {
                rules::lemma_row_major(old(self).spec_width(), i, j);
                rules::lemma_index_in_range(
                    old(self).spec_width(),
                    old(self).spec_height(),
                    i,
                    j,
                );
            }
        }
    }

    /// Add several lives to the board, in sequence order.
    pub fn add_lives(&mut self, coords: &Vec<(usize, usize)>)
        requires
            old(self).wf(),
            forall|k: int|
                0 <= k < coords@.len() ==> (#[trigger] coords@[k]).0 < old(self).spec_width()
                    && coords@[k].1 < old(self).spec_height(),
        ensures
            final(self).wf(),
            final(self).spec_width() == old(self).spec_width(),
            final(self).spec_height() == old(self).spec_height(),
            forall|i: usize, j: usize|
                i < old(self).spec_width() && j < old(self).spec_height()
                    ==> #[trigger] final(self).spec_alive(i as int, j as int) == (old(
                    self,
                ).spec_alive(i as int, j as int) || coords@.contains((i, j))),
    {
        let mut k: usize = 0;
        while k < coords.len()
            invariant
                self.wf(),
                self.spec_width() == old(self).spec_width(),
                self.spec_height() == old(self).spec_height(),
                k <= coords@.len(),
                forall|i: usize, j: usize|
                    i < old(self).spec_width() && j < old(self).spec_height()
                        ==> #[trigger] self.spec_alive(i as int, j as int) == (old(
                        self,
                    ).spec_alive(i as int, j as int) || exists|t: int|
                        0 <= t < k && coords@[t] == (i, j)),
            decreases coords@.len() - k,
        {
            let (x, y) = coords[k];
            self.add_life(x, y);
            proof {
                assert forall|i: usize, j: usize|
                    i < old(self).spec_width() && j < old(self).spec_height()
                        implies #[trigger] self.spec_alive(i as int, j as int) == (old(
                    self,
                ).spec_alive(i as int, j as int) || exists|t: int|
                    0 <= t < k + 1 && coords@[t] == (i, j)) by {
                    if self.spec_alive(i as int, j as int) {
                        if !old(self).spec_alive(i as int, j as int) {
                            if (i as int, j as int) == (x as int, y as int) {
                                assert(coords@[k as int] == (i, j));
                            }
                        }
                    }
                    if exists|t: int| 0 <= t < k + 1 && coords@[t] == (i, j) {
                        let t = choose|t: int| 0 <= t < k + 1 && coords@[t] == (i, j);
                        if t == k as int {
                            assert((i, j) == (x, y));
                        }
                    }
                }
            }
            k += 1;
        }
    }

    /// All currently-live cells as `(x, y)` pairs, in ascending row-major
    /// index order: exactly the live cells, each exactly once.
    pub fn iter_alive(&self) -> (r: Vec<(usize, usize)>)
        requires
            self.wf(),
        ensures
            forall|k: int|
                0 <= k < r@.len() ==> (#[trigger] r@[k]).0 < self.spec_width() && r@[k].1
                    < self.spec_height() && self.spec_alive(r@[k].0 as int, r@[k].1 as int),
            forall|i: usize, j: usize|
                i < self.spec_width() && j < self.spec_height() && self.spec_alive(
                    i as int,
                    j as int,
                ) ==> r@.contains((i, j)),
            forall|k1: int, k2: int|
                0 <= k1 < k2 < r@.len() ==> (r@[k1].0 as int) + (r@[k1].1 as int)
                    * self.spec_width() < (r@[k2].0 as int) + (r@[k2].1 as int)
                    * self.spec_width(),
    {
        let total = self.tiles.len();
        let mut r: Vec<(usize, usize)> = Vec::new();
        let mut idx: usize = 0;
        while idx < total
            invariant
                idx <= total,
                forall|k: int|
                    0 <= k < r@.len() ==> (#[trigger] r@[k]).0 < self.spec_width() && r@[k].1
                        < self.spec_height() && self.spec_alive(r@[k].0 as int, r@[k].1 as int)
                        && (r@[k].0 as int) + (r@[k].1 as int) * self.spec_width() < idx,
                forall|i: usize, j: usize|
                    i < self.spec_width() && j < self.spec_height() && (i as int) + (j as int)
                        * self.spec_width() < idx && self.spec_alive(i as int, j as int)
                        ==> r@.contains((i, j)),
                forall|k1: int, k2: int|
                    0 <= k1 < k2 < r@.len() ==> (r@[k1].0 as int) + (r@[k1].1 as int)
                        * self.spec_width() < (r@[k2].0 as int) + (r@[k2].1 as int)
                        * self.spec_width(),
            decreases total - idx,
        {
            let live = match self.tiles[idx] {
                Cell::Alive => true,
                Cell::NotAlive => false,
            };
            proof {
                rules::lemma_coords_of_index(self.spec_width(), self.spec_height(), idx as int);
            }
            if live {
                let (x, y) = self.cell_for_index(idx);
                let ghost prev = r@;
                r.push((x, y));
                proof {
                    assert forall|i: usize, j: usize|
                        i < self.spec_width() && j < self.spec_height() && (i as int) + (j as int)
                            * self.spec_width() < idx + 1 && self.spec_alive(i as int, j as int)
                            implies r@.contains((i, j)) by {
                        rules::lemma_row_major(self.spec_width(), i as int, j as int);
                        if (i as int) + (j as int) * self.spec_width() < idx {
                            let t = choose|t: int| 0 <= t < prev.len() && prev[t] == (i, j);
                            assert(r@[t] == (i, j));
                        } else {
                            assert(r@[r@.len() - 1] == (i, j));
                        }
                    }
                }
            } else {
                proof {
                    assert forall|i: usize, j: usize|
                        i < self.spec_width() && j < self.spec_height() && (i as int) + (j as int)
                            * self.spec_width() < idx + 1 && self.spec_alive(i as int, j as int)
                            implies r@.contains((i, j)) by {
                        rules::lemma_row_major(self.spec_width(), i as int, j as int);
                    }
                }
            }
            idx = idx + 1;
        }
        proof {
            assert forall|i: usize, j: usize|
                i < self.spec_width() && j < self.spec_height() && self.spec_alive(
                    i as int,
                    j as int,
                ) implies r@.contains((i, j)) by {
                rules::lemma_index_in_range(
                    self.spec_width(),
                    self.spec_height(),
                    i as int,
                    j as int,
                );
            }
        }
        r
    }

    /// The 8 wrapped Moore-neighborhood neighbors of `(x, y)`, in the fixed
    /// offset order of [`rules::delta`].
    fn iter_neighbors(&self, x: usize, y: usize) -> (r: Vec<(usize, usize)>)
        requires
            self.wf(),
            x < self.spec_width(),
            y < self.spec_height(),
        ensures
            r@.len() == 8,
            forall|i: int|
                0 <= i < 8 ==> ((#[trigger] r@[i]).0 as int, r@[i].1 as int) == rules::neighbor(
                    x as int,
                    y as int,
                    self.spec_width(),
                    self.spec_height(),
                    i,
                ) && r@[i].0 < self.spec_width() && r@[i].1 < self.spec_height(),
    {
        let width = self.width;
        let height = self.height();
        let xm = if x == 0 {
            width - 1
        } else {
            x - 1
        };
        let xp = if x + 1 == width {
            0
        } else {
            x + 1
        };
        let ym = if y == 0 {
            height - 1
        } else {
            y - 1
        };
        let yp = if y + 1 == height {
            0
        } else {
            y + 1
        };
        proof {
            rules::lemma_wrap_unit(x as int, -1, self.spec_width());
            rules::lemma_wrap_unit(x as int, 0, self.spec_width());
            rules::lemma_wrap_unit(x as int, 1, self.spec_width());
            rules::lemma_wrap_unit(y as int, -1, self.spec_height());
            rules::lemma_wrap_unit(y as int, 0, self.spec_height());
            rules::lemma_wrap_unit(y as int, 1, self.spec_height());
        }
        let mut r: Vec<(usize, usize)> = Vec::new();
        r.push((xm, ym));
        r.push((xm, y));
        r.push((xm, yp));
        r.push((x, ym));
        r.push((x, yp));
        r.push((xp, ym));
        r.push((xp, y));
        r.push((xp, yp));
        r
    }

    /// How many of the 8 wrapped neighbor visits of `(x, y)` land on a live
    /// cell.  When the board is 1 or 2 cells wide or tall, several offsets
    /// wrap to the same coordinate and each visit counts.
    pub fn count_live_neighbors(&self, x: usize, y: usize) -> (r: usize)
        requires
            self.wf(),
            x < self.spec_width(),
            y < self.spec_height(),
        ensures
            r == rules::tally(self@, self.spec_width(), self.spec_height(), x as int, y as int),
    {
        let ns = self.iter_neighbors(x, y);
        let mut count: usize = 0;
        let mut i: usize = 0;
        while i < 8
            invariant
                i <= 8,
                count <= i,
                count == rules::tally_upto(
                    self@,
                    self.spec_width(),
                    self.spec_height(),
                    x as int,
                    y as int,
                    i as int,
                ),
            decreases 8 - i,
        {
            let (nx, ny) = ns[i];
            if self.is_alive(nx, ny) {
                count = count + 1;
            }
            i = i + 1;
        }
        count
    }

    /// Compute the next generation and return it as a brand-new board of
    /// the same dimensions; the receiver is left untouched.  A cell of the
    /// result is live exactly when the birth/survival rule makes it so.
    pub fn next_step(&self) -> (r: Board)
        requires
            self.wf(),
        ensures
            r.wf(),
            r.spec_width() == self.spec_width(),
            r.spec_height() == self.spec_height(),
            r@ == rules::step(self@, self.spec_width(), self.spec_height()),
            forall|i: int, j: int|
                0 <= i < self.spec_width() && 0 <= j < self.spec_height()
                    ==> #[trigger] r.spec_alive(i, j) == rules::next_live(
                    self@,
                    self.spec_width(),
                    self.spec_height(),
                    i,
                    j,
                ),
    {
        let width = self.width;
        let height = self.height();
        let total = self.tiles.len();
        proof {
            assert(total as int == self@.len());
        }
        let mut ret = Board::new(width, height);
        proof {
            assert forall|i: int, j: int|
                0 <= i < self.spec_width() && 0 <= j < self.spec_height()
                    implies !ret.spec_alive(i, j) by {
                rules::lemma_index_in_range(self.spec_width(), self.spec_height(), i, j);
            }
        }
        let mut y: usize = 0;
        while y < height
            invariant
                y <= height,
                ret.wf(),
                ret.spec_width() == self.spec_width(),
                ret.spec_height() == self.spec_height(),
                forall|i: int, j: int|
                    0 <= i < self.spec_width() && 0 <= j < self.spec_height() && j < y
                        ==> #[trigger] ret.spec_alive(i, j) == rules::next_live(
                        self@,
                        self.spec_width(),
                        self.spec_height(),
                        i,
                        j,
                    ),
                forall|i: int, j: int|
                    0 <= i < self.spec_width() && 0 <= j < self.spec_height() && j >= y
                        ==> !(#[trigger] ret.spec_alive(i, j)),
            decreases height - y,
        {
            let mut x: usize = 0;
            while x < width
                invariant
                    x <= width,
                    y < height,
                    ret.wf(),
                    ret.spec_width() == self.spec_width(),
                    ret.spec_height() == self.spec_height(),
                    forall|i: int, j: int|
                        0 <= i < self.spec_width() && 0 <= j < self.spec_height() && (j < y || (j
                            == y && i < x)) ==> #[trigger] ret.spec_alive(i, j)
                            == rules::next_live(
                            self@,
                            self.spec_width(),
                            self.spec_height(),
                            i,
                            j,
                        ),
                    forall|i: int, j: int|
                        0 <= i < self.spec_width() && 0 <= j < self.spec_height() && (j > y || (j
                            == y && i >= x)) ==> !(#[trigger] ret.spec_alive(i, j)),
                decreases width - x,
            {
                let t = self.count_live_neighbors(x, y);
                let alive = self.is_alive(x, y);
                if t == 3 || (alive && t == 2) {
                    ret.add_life(x, y);
                }
                x = x + 1;
            }
            y = y + 1;
        }
        proof {
            assert(ret@.len() == self@.len());
            assert forall|k: int|
                0 <= k < self@.len() implies ret@[k] == rules::step(
                self@,
                self.spec_width(),
                self.spec_height(),
            )[k] by {
                let w = self.spec_width();
                let h = self.spec_height();
                rules::lemma_coords_of_index(w, h, k);
                assert(ret.spec_alive(k % w, k / w) == rules::next_live(
                    self@,
                    w,
                    h,
                    k % w,
                    k / w,
                ));
                assert(ret@[k] == ret.spec_alive(k % w, k / w));
                assert(rules::step(self@, w, h)[k] == rules::next_live(self@, w, h, k % w, k / w));
            }
            assert(ret@ =~= rules::step(self@, self.spec_width(), self.spec_height()));
        }
        ret
    }
}

} // verus!
