//! The board: a rectangular grid of cells, the mines under it and the
//! counters that follow what is laid and revealed.

use vstd::prelude::*;
use crate::cell::{Aspect, Cell, Content};
use crate::count::{all_cells, count_in_rows, is_empty, is_mine, is_unrevealed, no_cell};
use crate::count::{lemma_grid_update, lemma_rows_bounds, lemma_rows_split, lemma_rows_subcount};
use crate::count::{one_if, rectangular, rows_within, CellPred};

verus! {

/// Whether two positions touch: distinct, and at most one row and one
/// column apart.
pub open spec fn adjacent(r1: int, c1: int, r2: int, c2: int) -> bool {
    &&& r1 - 1 <= r2 <= r1 + 1
    &&& c1 - 1 <= c2 <= c1 + 1
    &&& !(r1 == r2 && c1 == c2)
}

/// 1 if the two positions touch, else 0.
pub open spec fn one_if_adjacent(r1: int, c1: int, r2: int, c2: int) -> nat {
    if adjacent(r1, c1, r2, c2) {
        1
    } else {
        0
    }
}

/// Whether `(r, c)` occurs among the first `n` of `positions`.
pub open spec fn listed_within(positions: Seq<(usize, usize)>, n: int, r: int, c: int) -> bool {
    exists|k: int|
        0 <= k < n && k < positions.len() && (#[trigger] positions[k]).0 == r && positions[k].1
            == c
}

/// Whether `(r, c)` occurs among `positions`.
pub open spec fn listed(positions: Seq<(usize, usize)>, r: int, c: int) -> bool {
    listed_within(positions, positions.len() as int, r, c)
}

/// Row-major order on positions.
pub open spec fn comes_before(a: (usize, usize), b: (usize, usize)) -> bool {
    a.0 < b.0 || (a.0 == b.0 && a.1 < b.1)
}

/// The board. `cells` holds the rows from the top down; the counters
/// follow the grid (see `counts_hold`).
#[derive(Debug)]
pub struct Field {
    pub cells: Vec<Vec<Cell>>,
    pub nb_cells: usize,
    pub height: usize,
    pub width: usize,
    pub nb_unreveiled_cells: usize,
    pub nb_of_mines: usize,
}

impl Field {
    /// The grid as a sequence of rows.
    pub open spec fn rows(&self) -> Seq<Seq<Cell>> {
        Seq::new(self.cells@.len(), |r: int| self.cells@[r]@)
    }

    /// Whether `(r, c)` lies on the board.
    pub open spec fn in_bounds(&self, r: int, c: int) -> bool {
        0 <= r < self.height && 0 <= c < self.width
    }

    /// Whether `(y, x)` lies on the board.
    pub open spec fn in_bounds_usize(&self, y: usize, x: usize) -> bool {
        self.in_bounds(y as int, x as int)
    }

    /// The cell at `(r, c)`.
    pub open spec fn at(&self, r: int, c: int) -> Cell {
        self.cells@[r]@[c]
    }

    /// The grid has `height` rows of `width` cells, and neither is zero.
    pub open spec fn shaped(&self) -> bool {
        &&& self.height > 0
        &&& self.width > 0
        &&& self.cells@.len() == self.height
        &&& forall|r: int| 0 <= r < self.height ==> (#[trigger] self.cells@[r])@.len() == self.width
        &&& self.nb_cells == self.height * self.width
    }

    /// 1 if `(r, c)` is on the board and holds a mine, else 0.
    pub open spec fn mine_at(&self, r: int, c: int) -> nat {
        if self.in_bounds(r, c) && self.at(r, c).spec_has_mine() {
            1
        } else {
            0
        }
    }

    /// Number of mines on the up to eight positions around `(r, c)`.
    #[verifier::opaque]
    pub open spec fn mines_around(&self, r: int, c: int) -> nat {
        self.mine_at(r - 1, c - 1) + self.mine_at(r - 1, c) + self.mine_at(r - 1, c + 1)
            + self.mine_at(r, c - 1) + self.mine_at(r, c + 1) + self.mine_at(r + 1, c - 1)
            + self.mine_at(r + 1, c) + self.mine_at(r + 1, c + 1)
    }

    /// Number of cells that hold a mine.
    pub open spec fn mine_count(&self) -> nat {
        count_in_rows(self.rows(), is_mine())
    }

    /// Number of cells that hold no mine.
    pub open spec fn empty_count(&self) -> nat {
        count_in_rows(self.rows(), is_empty())
    }

    /// Number of cells that are not revealed (hidden or flagged).
    pub open spec fn hidden_count(&self) -> nat {
        count_in_rows(self.rows(), is_unrevealed())
    }

    /// The counters and every cell's adjacency count agree with the grid.
    pub open spec fn counts_hold(&self) -> bool {
        &&& self.nb_of_mines == self.mine_count()
        &&& self.nb_unreveiled_cells == self.hidden_count()
        &&& forall|r: int, c: int|
            self.in_bounds(r, c) ==> (#[trigger] self.at(r, c)).adjacent_mines
                == self.mines_around(r, c)
    }

    /// Every reveal has run to its end: around a visible cell that spreads,
    /// everything is visible.
    pub open spec fn reveals_complete(&self) -> bool {
        forall|r: int, c: int, r2: int, c2: int|
            self.in_bounds(r, c) && self.in_bounds(r2, c2) && adjacent(r, c, r2, c2) && (
            #[trigger] self.at(r, c)).spec_is_visible() && self.at(r, c).spreads() ==> (
            #[trigger] self.at(r2, c2)).spec_is_visible()
    }

    /// The invariant of a board in play.
    pub open spec fn wf(&self) -> bool {
        &&& self.shaped()
        &&& self.counts_hold()
        &&& self.reveals_complete()
    }

    /// Both boards have the same size and the same mines.
    pub open spec fn same_ground(&self, other: &Field) -> bool {
        &&& self.height == other.height
        &&& self.width == other.width
        &&& self.nb_cells == other.nb_cells
        &&& forall|r: int, c: int|
            self.in_bounds(r, c) ==> (#[trigger] self.at(r, c)).content == other.at(r, c).content
    }

    /// An empty board: nothing revealed, no mine.
    pub fn new(height: usize, width: usize) -> (field: Field)
        requires
            height > 0,
            width > 0,
            height * width <= usize::MAX,
        ensures
            field.wf(),
            field.height == height,
            field.width == width,
            field.nb_cells == height * width,
            field.nb_unreveiled_cells == height * width,
            field.nb_of_mines == 0,
            field.mine_count() == 0,
            field.empty_count() == height * width,
            field.hidden_count() == height * width,
            forall|r: int, c: int|
                field.in_bounds(r, c) ==> #[trigger] field.at(r, c) == Cell::blank(),
    {
        let mut line: Vec<Cell> = Vec::with_capacity(width);
        let mut filled: usize = 0;
        while filled < width
            invariant
                filled <= width,
                line@.len() == filled,
                forall|c: int| 0 <= c < filled ==> #[trigger] line@[c] == Cell::blank(),
            decreases width - filled,
        {
            line.push(Cell { content: Content::Empty, adjacent_mines: 0, aspect: Aspect::Hidden });
            filled += 1;
        }
        let mut board: Vec<Vec<Cell>> = Vec::with_capacity(height);
        let mut stacked: usize = 0;
        while stacked < height
            invariant
                stacked <= height,
                board@.len() == stacked,
                line@.len() == width,
                forall|c: int| 0 <= c < width ==> #[trigger] line@[c] == Cell::blank(),
                forall|r: int| 0 <= r < stacked ==> (#[trigger] board@[r])@ == line@,
            decreases height - stacked,
        {
            let copy = line.clone();
            assert(copy@ =~= line@);
            board.push(copy);
            stacked += 1;
        }
        let nb_cells = board.len() * line.len();
        let field = Field {
            cells: board,
            nb_cells,
            height,
            width,
            nb_unreveiled_cells: nb_cells,
            nb_of_mines: 0,
        };
        proof {
            let rows = field.rows();
            assert(rectangular(rows, width as int));
            assert(no_cell(rows, is_mine()));
            assert(all_cells(rows, is_unrevealed()));
            lemma_rows_bounds(rows, width as int, is_mine());
            lemma_rows_bounds(rows, width as int, is_unrevealed());
            lemma_mines_and_empties(&field);
            assert forall|r: int, c: int| field.in_bounds(r, c) implies (#[trigger] field.at(
                r,
                c,
            )).adjacent_mines == field.mines_around(r, c) by {
                reveal(Field::mines_around);
            }
        }
        field
    }

    /// Whether `(y, x)` lies on the board.
    #[verifier::when_used_as_spec(in_bounds_usize)]
    pub fn position_is_valid(&self, y: usize, x: usize) -> (valid: bool)
        ensures
            valid == self.in_bounds(y as int, x as int),
    {
        y < self.height && x < self.width
    }

    /// Whether a mine lies under the cell at `(y, x)`.
    pub fn cell_has_mine(&self, y: usize, x: usize) -> (mine: bool)
        requires
            self.shaped(),
            self.in_bounds(y as int, x as int),
        ensures
            mine == self.at(y as int, x as int).spec_has_mine(),
    {
        self.cells[y][x].has_mine()
    }

    /// Whether the counter of unrevealed cells has come down to that of
    /// the mines; on a board in order, whether as many cells are left
    /// unrevealed as there are mines.
    pub fn is_revealed_entirely(&self) -> (done: bool)
        ensures
            done == (self.nb_unreveiled_cells == self.nb_of_mines),
            self.counts_hold() ==> done == (self.hidden_count() == self.mine_count()),
    {
        self.nb_unreveiled_cells == self.nb_of_mines
    }

    /// Two boards with the same mines count the same mines around every
    /// position.
    pub proof fn lemma_mines_around_on_same_ground(&self, other: &Field, r: int, c: int)
        requires
            self.same_ground(other),
        ensures
            self.mines_around(r, c) == other.mines_around(r, c),
    {
        reveal(Field::mines_around);
        assert forall|i: int, j: int| self.mine_at(i, j) == other.mine_at(i, j) by {
            if self.in_bounds(i, j) {
                assert(self.at(i, j).content == other.at(i, j).content);
            }
        }
    }

    /// Plants or removes the flag on the cell at `(y, x)`. A visible cell
    /// is left as it is; nothing else on the board changes.
    pub fn toggle_flag(&mut self, y: usize, x: usize)
        requires
            old(self).wf(),
            old(self).in_bounds(y as int, x as int),
        ensures
            final(self).wf(),
            final(self).height == old(self).height,
            final(self).width == old(self).width,
            final(self).nb_cells == old(self).nb_cells,
            final(self).nb_of_mines == old(self).nb_of_mines,
            final(self).nb_unreveiled_cells == old(self).nb_unreveiled_cells,
            forall|r: int, c: int|
                final(self).in_bounds(r, c) ==> {
                    let cell = #[trigger] final(self).at(r, c);
                    &&& cell.content == old(self).at(r, c).content
                    &&& cell.adjacent_mines == old(self).at(r, c).adjacent_mines
                    &&& cell.aspect == if r == y && c == x {
                        old(self).at(r, c).aspect.toggled()
                    } else {
                        old(self).at(r, c).aspect
                    }
                },
    {
        self.cells[y][x].toggle_flag();
        proof {
            lemma_one_cell_changed(old(self), self, y as int, x as int, is_mine());
            lemma_one_cell_changed(old(self), self, y as int, x as int, is_unrevealed());
            assert(self.same_ground(old(self)));
            assert forall|r: int, c: int| self.in_bounds(r, c) implies (#[trigger] self.at(
                r,
                c,
            )).adjacent_mines == self.mines_around(r, c) by {
                self.lemma_mines_around_on_same_ground(old(self), r, c);
            }
            assert forall|r: int, c: int| self.in_bounds(r, c) implies (#[trigger] self.at(
                r,
                c,
            )).spec_is_visible() == old(self).at(r, c).spec_is_visible() by {}
        }
    }

    /// The positions of the board that touch `(center_row, center_col)`,
    /// row by row and left to right.
    pub fn get_adjacent_positions(&self, center_row: usize, center_col: usize) -> (positions: Vec<
        (usize, usize),
    >)
        requires
            self.height > 0,
            self.width > 0,
        ensures
            forall|k: int|
                0 <= k < positions@.len() ==> {
                    let p = #[trigger] positions@[k];
                    self.in_bounds(p.0 as int, p.1 as int) && adjacent(
                        center_row as int,
                        center_col as int,
                        p.0 as int,
                        p.1 as int,
                    )
                },
            forall|r: int, c: int|
                self.in_bounds(r, c) && #[trigger] adjacent(
                    center_row as int,
                    center_col as int,
                    r,
                    c,
                ) ==> listed(positions@, r, c),
            forall|j: int, k: int|
                0 <= j < k < positions@.len() ==> comes_before(
                    #[trigger] positions@[j],
                    #[trigger] positions@[k],
                ),
    {
        let first_row = center_row.saturating_sub(1);
        let first_col = center_col.saturating_sub(1);
        let last_row = if center_row < self.height - 1 {
            center_row + 1
        } else {
            self.height - 1
        };
        let last_col = if center_col < self.width - 1 {
            center_col + 1
        } else {
            self.width - 1
        };
        let mut positions: Vec<(usize, usize)> = Vec::new();
        let mut row = first_row;
        while row <= last_row
            invariant
                self.height > 0,
                self.width > 0,
                first_row == if center_row > 0 { center_row - 1 } else { 0 },
                first_col == if center_col > 0 { center_col - 1 } else { 0 },
                last_row == if center_row < self.height - 1 {
                    center_row + 1
                } else {
                    self.height - 1
                },
                last_col == if center_col < self.width - 1 {
                    center_col + 1
                } else {
                    self.width - 1
                },
                first_row <= row,
                row <= last_row + 1 || first_row > last_row,
                forall|k: int|
                    0 <= k < positions@.len() ==> {
                        let p = #[trigger] positions@[k];
                        &&& self.in_bounds(p.0 as int, p.1 as int)
                        &&& adjacent(center_row as int, center_col as int, p.0 as int, p.1 as int)
                        &&& p.0 < row
                    },
                forall|r: int, c: int|
                    self.in_bounds(r, c) && r < row && #[trigger] adjacent(
                        center_row as int,
                        center_col as int,
                        r,
                        c,
                    ) ==> listed(positions@, r, c),
                forall|j: int, k: int|
                    0 <= j < k < positions@.len() ==> comes_before(
                        #[trigger] positions@[j],
                        #[trigger] positions@[k],
                    ),
            decreases last_row + 1 - row,
        {
            let mut col = first_col;
            while col <= last_col
                invariant
                    self.height > 0,
                    self.width > 0,
                    first_row == if center_row > 0 { center_row - 1 } else { 0 },
                    first_col == if center_col > 0 { center_col - 1 } else { 0 },
                    last_row == if center_row < self.height - 1 {
                        center_row + 1
                    } else {
                        self.height - 1
                    },
                    last_col == if center_col < self.width - 1 {
                        center_col + 1
                    } else {
                        self.width - 1
                    },
                    first_row <= row <= last_row,
                    first_col <= col,
                    col <= last_col + 1 || first_col > last_col,
                    forall|k: int|
                        0 <= k < positions@.len() ==> {
                            let p = #[trigger] positions@[k];
                            &&& self.in_bounds(p.0 as int, p.1 as int)
                            &&& adjacent(
                                center_row as int,
                                center_col as int,
                                p.0 as int,
                                p.1 as int,
                            )
                            &&& (p.0 < row || (p.0 == row && p.1 < col))
                        },
                    forall|r: int, c: int|
                        self.in_bounds(r, c) && (r < row || (r == row && c < col))
                            && #[trigger] adjacent(center_row as int, center_col as int, r, c)
                            ==> listed(positions@, r, c),
                    forall|j: int, k: int|
                        0 <= j < k < positions@.len() ==> comes_before(
                            #[trigger] positions@[j],
                            #[trigger] positions@[k],
                        ),
                decreases last_col + 1 - col,
            {
                if !(row == center_row && col == center_col) {
                    let ghost before = positions@;
                    positions.push((row, col));
                    proof {
                        assert(positions@[before.len() as int] == (row, col));
                        assert forall|r: int, c: int|
                            self.in_bounds(r, c) && (r < row || (r == row && c < col + 1))
                                && #[trigger] adjacent(
                                center_row as int,
                                center_col as int,
                                r,
                                c,
                            ) implies listed(positions@, r, c) by {
                            if r == row && c == col {
                                assert(positions@[before.len() as int].0 == r);
                            } else {
                                assert(listed(before, r, c));
                                let k = choose|k: int|
                                    0 <= k < before.len() && k < before.len() && (
                                    #[trigger] before[k]).0 == r && before[k].1 == c;
                                assert(positions@[k] == before[k]);
                            }
                        }
                    }
                }
                col += 1;
            }
            row += 1;
        }
        positions
    }
}

/// Two boards of one shape that agree everywhere but at `(r, c)` differ in
/// any count by that one cell's share.
pub proof fn lemma_one_cell_changed(before: &Field, after: &Field, r: int, c: int, pred: CellPred)
    requires
        before.shaped(),
        after.shaped(),
        after.height == before.height,
        after.width == before.width,
        before.in_bounds(r, c),
        forall|i: int, j: int|
            before.in_bounds(i, j) && !(i == r && j == c) ==> #[trigger] after.at(i, j)
                == before.at(i, j),
    ensures
        count_in_rows(after.rows(), pred) + one_if(pred, before.at(r, c)) == count_in_rows(
            before.rows(),
            pred,
        ) + one_if(pred, after.at(r, c)),
{
    let old_rows = before.rows();
    let new_rows = after.rows();
    let patched = old_rows.update(r, old_rows[r].update(c, after.at(r, c)));
    assert forall|i: int| 0 <= i < new_rows.len() implies #[trigger] new_rows[i] == patched[i] by {
        assert(after.cells@[i]@.len() == before.cells@[i]@.len());
        assert forall|j: int| 0 <= j < new_rows[i].len() implies #[trigger] new_rows[i][j]
            == patched[i][j] by {
            if !(i == r && j == c) {
                assert(after.at(i, j) == before.at(i, j));
            }
        }
        assert(new_rows[i] =~= patched[i]);
    }
    assert(new_rows =~= patched);
    lemma_grid_update(old_rows, r, c, after.at(r, c), pred);
}

/// Every cell holds a mine or is empty: the two counts add up to the
/// number of cells.
pub proof fn lemma_mines_and_empties(field: &Field)
    requires
        field.shaped(),
    ensures
        field.mine_count() + field.empty_count() == field.height * field.width,
{
    let rows = field.rows();
    assert(rectangular(rows, field.width as int));
    lemma_rows_split(rows, field.width as int, is_mine(), is_empty());
}

/// No count of a board exceeds its number of cells.
pub proof fn lemma_counts_fit(field: &Field)
    requires
        field.shaped(),
    ensures
        field.mine_count() <= field.nb_cells,
        field.hidden_count() <= field.nb_cells,
{
    let rows = field.rows();
    assert(rectangular(rows, field.width as int));
    lemma_rows_bounds(rows, field.width as int, is_mine());
    lemma_rows_bounds(rows, field.width as int, is_unrevealed());
}

/// While no mine is visible, as many cells are unrevealed as there are
/// mines exactly when every cell without a mine is visible.
pub proof fn lemma_fully_revealed_means_all_safe_cells_visible(field: &Field)
    requires
        field.shaped(),
        forall|r: int, c: int|
            field.in_bounds(r, c) && (#[trigger] field.at(r, c)).spec_has_mine() ==> !field.at(
                r,
                c,
            ).spec_is_visible(),
    ensures
        field.mine_count() <= field.hidden_count(),
        field.hidden_count() == field.mine_count() <==> forall|r: int, c: int|
            field.in_bounds(r, c) && !(#[trigger] field.at(r, c)).spec_has_mine() ==> field.at(
                r,
                c,
            ).spec_is_visible(),
{
    let rows = field.rows();
    assert forall|r: int, c: int|
        0 <= r < rows.len() && 0 <= c < rows[r].len() && is_mine()(
            #[trigger] rows[r][c],
        ) implies is_unrevealed()(rows[r][c]) by {
        assert(rows[r][c] == field.at(r, c));
    }
    lemma_rows_subcount(rows, is_mine(), is_unrevealed());
    if field.hidden_count() == field.mine_count() {
        assert forall|r: int, c: int|
            field.in_bounds(r, c) && !(#[trigger] field.at(r, c)).spec_has_mine() implies field.at(
            r,
            c,
        ).spec_is_visible() by {
            assert(rows[r][c] == field.at(r, c));
            assert(is_unrevealed()(rows[r][c]) ==> is_mine()(rows[r][c]));
        }
    }
    if forall|r: int, c: int|
        field.in_bounds(r, c) && !(#[trigger] field.at(r, c)).spec_has_mine() ==> field.at(
            r,
            c,
        ).spec_is_visible() {
        assert forall|r: int, c: int|
            0 <= r < rows.len() && 0 <= c < rows[r].len() && is_unrevealed()(
                #[trigger] rows[r][c],
            ) implies is_mine()(rows[r][c]) by {
            assert(rows[r][c] == field.at(r, c));
        }
        assert(rows_within(rows, is_unrevealed(), is_mine()));
    }
}

} // verus!
