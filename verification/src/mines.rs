//! Laying mines on a board.

use vstd::prelude::*;
use crate::cell::Content;
use crate::count::{all_cells, is_mine, is_unrevealed, lemma_rows_bounds, rectangular};
use crate::field::{adjacent, comes_before, lemma_mines_and_empties, lemma_one_cell_changed};
use crate::field::{listed, listed_within, one_if_adjacent, Field};

verus! {

/// On a board with a cell that holds no mine, the mines are fewer than the
/// cells.
pub proof fn lemma_room_left(field: &Field, r: int, c: int)
    requires
        field.shaped(),
        field.in_bounds(r, c),
        !field.at(r, c).spec_has_mine(),
    ensures
        field.mine_count() < field.height * field.width,
{
    let rows = field.rows();
    assert(rectangular(rows, field.width as int));
    lemma_rows_bounds(rows, field.width as int, is_mine());
    if all_cells(rows, is_mine()) {
        assert(is_mine()(rows[r][c]));
    }
}

impl Field {
    /// `self` is `before` with one more mine, laid at `(r, c)`: the cell
    /// there holds a mine, the cells around it count one mine more, and
    /// nothing else differs.
    pub open spec fn is_mined_from(&self, before: &Field, r: int, c: int) -> bool {
        &&& self.height == before.height
        &&& self.width == before.width
        &&& self.nb_cells == before.nb_cells
        &&& self.nb_of_mines == before.nb_of_mines + 1
        &&& self.nb_unreveiled_cells == before.nb_unreveiled_cells
        &&& forall|i: int, j: int|
            self.in_bounds(i, j) ==> {
                let cell = #[trigger] self.at(i, j);
                &&& cell.aspect == before.at(i, j).aspect
                &&& cell.content == if i == r && j == c {
                    Content::Mine
                } else {
                    before.at(i, j).content
                }
                &&& cell.adjacent_mines == before.at(i, j).adjacent_mines + one_if_adjacent(
                    r,
                    c,
                    i,
                    j,
                )
            }
    }

    /// A new mine at `(mr, mc)` adds one to `mine_at` there and nowhere
    /// else.
    proof fn lemma_mine_at_after(&self, before: &Field, mr: int, mc: int, r: int, c: int)
        requires
            before.in_bounds(mr, mc),
            !before.at(mr, mc).spec_has_mine(),
            self.height == before.height,
            self.width == before.width,
            forall|i: int, j: int|
                self.in_bounds(i, j) ==> (#[trigger] self.at(i, j)).content == if i == mr && j
                    == mc {
                    Content::Mine
                } else {
                    before.at(i, j).content
                },
        ensures
            self.mine_at(r, c) == before.mine_at(r, c) + if r == mr && c == mc {
                1nat
            } else {
                0nat
            },
    {
        if self.in_bounds(r, c) {
            assert(self.at(r, c).content == if r == mr && c == mc {
                Content::Mine
            } else {
                before.at(r, c).content
            });
        }
    }

    /// A new mine at `(mr, mc)` adds one to the count around each position
    /// that touches it and leaves the others' counts alone.
    proof fn lemma_mines_around_after(&self, before: &Field, mr: int, mc: int, r: int, c: int)
        requires
            before.in_bounds(mr, mc),
            !before.at(mr, mc).spec_has_mine(),
            self.height == before.height,
            self.width == before.width,
            forall|i: int, j: int|
                self.in_bounds(i, j) ==> (#[trigger] self.at(i, j)).content == if i == mr && j
                    == mc {
                    Content::Mine
                } else {
                    before.at(i, j).content
                },
        ensures
            self.mines_around(r, c) == before.mines_around(r, c) + one_if_adjacent(mr, mc, r, c),
    {
        reveal(Field::mines_around);
        self.lemma_mine_at_after(before, mr, mc, r - 1, c - 1);
        self.lemma_mine_at_after(before, mr, mc, r - 1, c);
        self.lemma_mine_at_after(before, mr, mc, r - 1, c + 1);
        self.lemma_mine_at_after(before, mr, mc, r, c - 1);
        self.lemma_mine_at_after(before, mr, mc, r, c + 1);
        self.lemma_mine_at_after(before, mr, mc, r + 1, c - 1);
        self.lemma_mine_at_after(before, mr, mc, r + 1, c);
        self.lemma_mine_at_after(before, mr, mc, r + 1, c + 1);
    }

    /// Lays a mine on a cell that holds none and counts it on the cells
    /// around.
    pub fn place_mine(&mut self, mine_row: usize, mine_col: usize)
        requires
            old(self).wf(),
            old(self).in_bounds(mine_row as int, mine_col as int),
            !old(self).at(mine_row as int, mine_col as int).spec_has_mine(),
        ensures
            final(self).wf(),
            final(self).is_mined_from(old(self), mine_row as int, mine_col as int),
    {
        let ghost mr = mine_row as int;
        let ghost mc = mine_col as int;
        proof {
            lemma_room_left(old(self), mr, mc);
            assert forall|r: int, c: int| old(self).in_bounds(r, c) implies (#[trigger] old(
                self,
            ).at(r, c)).adjacent_mines <= 8 by {
                reveal(Field::mines_around);
            }
        }
        self.cells[mine_row][mine_col].set_mine();
        self.nb_of_mines += 1;
        proof {
            lemma_one_cell_changed(old(self), self, mr, mc, is_mine());
            lemma_one_cell_changed(old(self), self, mr, mc, is_unrevealed());
        }
        let adjacent_positions = self.get_adjacent_positions(mine_row, mine_col);
        let mut done: usize = 0;
        while done < adjacent_positions.len()
            invariant
                done <= adjacent_positions@.len(),
                old(self).shaped(),
                forall|r: int, c: int|
                    old(self).in_bounds(r, c) ==> (#[trigger] old(self).at(r, c)).adjacent_mines
                        <= 8,
                mr == mine_row,
                mc == mine_col,
                self.shaped(),
                self.height == old(self).height,
                self.width == old(self).width,
                self.nb_cells == old(self).nb_cells,
                self.nb_of_mines == old(self).nb_of_mines + 1,
                self.nb_unreveiled_cells == old(self).nb_unreveiled_cells,
                self.mine_count() == old(self).mine_count() + 1,
                self.hidden_count() == old(self).hidden_count(),
                forall|k: int|
                    0 <= k < adjacent_positions@.len() ==> {
                        let p = #[trigger] adjacent_positions@[k];
                        self.in_bounds(p.0 as int, p.1 as int) && adjacent(
                            mr,
                            mc,
                            p.0 as int,
                            p.1 as int,
                        )
                    },
                forall|r: int, c: int|
                    self.in_bounds(r, c) && #[trigger] adjacent(mr, mc, r, c) ==> listed(
                        adjacent_positions@,
                        r,
                        c,
                    ),
                forall|j: int, k: int|
                    0 <= j < k < adjacent_positions@.len() ==> comes_before(
                        #[trigger] adjacent_positions@[j],
                        #[trigger] adjacent_positions@[k],
                    ),
                forall|i: int, j: int|
                    self.in_bounds(i, j) ==> {
                        let cell = #[trigger] self.at(i, j);
                        &&& cell.aspect == old(self).at(i, j).aspect
                        &&& cell.content == if i == mr && j == mc {
                            Content::Mine
                        } else {
                            old(self).at(i, j).content
                        }
                        &&& cell.adjacent_mines == old(self).at(i, j).adjacent_mines + if listed_within(
                            adjacent_positions@,
                            done as int,
                            i,
                            j,
                        ) {
                            1int
                        } else {
                            0int
                        }
                    },
            decreases adjacent_positions@.len() - done,
        {
            let (row, col) = adjacent_positions[done];
            let ghost prev = *self;
            proof {
                assert(adjacent_positions@[done as int] == (row, col));
                assert(self.in_bounds(row as int, col as int));
                if listed_within(adjacent_positions@, done as int, row as int, col as int) {
                    let k = choose|k: int|
                        0 <= k < done && k < adjacent_positions@.len() && (
                        #[trigger] adjacent_positions@[k]).0 == row && adjacent_positions@[k].1
                            == col;
                    assert(comes_before(adjacent_positions@[k], adjacent_positions@[done as int]));
                }
                assert(self.at(row as int, col as int).adjacent_mines == old(self).at(
                    row as int,
                    col as int,
                ).adjacent_mines);
                assert(old(self).at(row as int, col as int).adjacent_mines <= 8);
            }
            self.cells[row][col].adjacent_mines += 1;
            proof {
                lemma_one_cell_changed(&prev, self, row as int, col as int, is_mine());
                lemma_one_cell_changed(&prev, self, row as int, col as int, is_unrevealed());
                assert forall|i: int, j: int| self.in_bounds(i, j) implies {
                    let cell = #[trigger] self.at(i, j);
                    &&& cell.aspect == old(self).at(i, j).aspect
                    &&& cell.content == if i == mr && j == mc {
                        Content::Mine
                    } else {
                        old(self).at(i, j).content
                    }
                    &&& cell.adjacent_mines == old(self).at(i, j).adjacent_mines + if listed_within(
                        adjacent_positions@,
                        done + 1,
                        i,
                        j,
                    ) {
                        1int
                    } else {
                        0int
                    }
                } by {
                    if i == row && j == col {
                        assert(adjacent_positions@[done as int].0 == i);
                        assert(listed_within(adjacent_positions@, done + 1, i, j));
                    } else {
                        assert(self.at(i, j) == prev.at(i, j));
                        if listed_within(adjacent_positions@, done + 1, i, j) {
                            let k = choose|k: int|
                                0 <= k < done + 1 && k < adjacent_positions@.len() && (
                                #[trigger] adjacent_positions@[k]).0 == i
                                    && adjacent_positions@[k].1 == j;
                            assert(k < done);
                            assert(listed_within(adjacent_positions@, done as int, i, j));
                        }
                        if listed_within(adjacent_positions@, done as int, i, j) {
                            let k = choose|k: int|
                                0 <= k < done && k < adjacent_positions@.len() && (
                                #[trigger] adjacent_positions@[k]).0 == i
                                    && adjacent_positions@[k].1 == j;
                            assert(listed_within(adjacent_positions@, done + 1, i, j));
                        }
                    }
                }
            }
            done += 1;
        }
        proof {
            assert forall|i: int, j: int| self.in_bounds(i, j) implies {
                let cell = #[trigger] self.at(i, j);
                &&& cell.adjacent_mines == old(self).at(i, j).adjacent_mines + one_if_adjacent(
                    mr,
                    mc,
                    i,
                    j,
                )
                &&& cell.adjacent_mines == self.mines_around(i, j)
            } by {
                self.lemma_mines_around_after(old(self), mr, mc, i, j);
                if listed_within(adjacent_positions@, done as int, i, j) {
                    let k = choose|k: int|
                        0 <= k < done && k < adjacent_positions@.len() && (
                        #[trigger] adjacent_positions@[k]).0 == i && adjacent_positions@[k].1
                            == j;
                    assert(adjacent(mr, mc, i, j));
                }
                if adjacent(mr, mc, i, j) {
                    assert(listed(adjacent_positions@, i, j));
                }
            }
        }
    }

    /// The row that the cell number `index` lies in, counting row by row.
    pub open spec fn row_of(&self, index: int) -> int {
        index / (self.width as int)
    }

    /// The column that the cell number `index` lies in.
    pub open spec fn col_of(&self, index: int) -> int {
        index % (self.width as int)
    }

    /// The cell number that a random draw stands for.
    pub open spec fn drawn(&self, draw: usize) -> int {
        (draw as int) % (self.nb_cells as int)
    }

    /// Whether the cell number `index` holds a mine.
    pub open spec fn mined(&self, index: int) -> bool {
        self.at(self.row_of(index), self.col_of(index)).spec_has_mine()
    }

    /// A board has at least one cell.
    pub proof fn lemma_has_cells(&self)
        requires
            self.shaped(),
        ensures
            self.nb_cells > 0,
    {
        assert(self.height * self.width > 0) by (nonlinear_arith)
            requires
                self.height > 0,
                self.width > 0,
        ;
    }

    /// Every cell number below `nb_cells` names a position of the board.
    pub proof fn lemma_index_in_bounds(&self, index: int)
        requires
            self.shaped(),
            0 <= index < self.nb_cells,
        ensures
            self.in_bounds(self.row_of(index), self.col_of(index)),
    {
        let w = self.width as int;
        let h = self.height as int;
        assert(0 <= index / w < h && 0 <= index % w < w) by (nonlinear_arith)
            requires
                0 <= index < h * w,
                w > 0,
        ;
    }

    /// Every position of the board has a cell number below `nb_cells`.
    pub proof fn lemma_position_has_index(&self, r: int, c: int)
        requires
            self.shaped(),
            self.in_bounds(r, c),
        ensures
            0 <= r * self.width + c < self.nb_cells,
            self.row_of(r * self.width + c) == r,
            self.col_of(r * self.width + c) == c,
    {
        let w = self.width as int;
        let h = self.height as int;
        assert(0 <= r * w + c < h * w) by (nonlinear_arith)
            requires
                0 <= r < h,
                0 <= c < w,
        ;
        vstd::arithmetic::div_mod::lemma_fundamental_div_mod_converse(r * w + c, w, r, c);
    }

    /// One draw of the sampling. The draw picks a cell; if it holds no mine
    /// yet, one is laid there, else the board stays as it is.
    pub fn place_mine_on_draw(&mut self, draw: usize) -> (placed: bool)
        requires
            old(self).wf(),
        ensures
            final(self).wf(),
            placed == !old(self).mined(old(self).drawn(draw)),
            placed ==> final(self).is_mined_from(
                old(self),
                old(self).row_of(old(self).drawn(draw)),
                old(self).col_of(old(self).drawn(draw)),
            ),
            !placed ==> *final(self) == *old(self),
    {
        proof {
            self.lemma_has_cells();
        }
        let random_cell_nb = draw % self.nb_cells;
        let random_height = random_cell_nb / self.width;
        let random_width = random_cell_nb % self.width;
        proof {
            self.lemma_index_in_bounds(random_cell_nb as int);
        }
        if self.cells[random_height][random_width].has_mine() {
            false
        } else {
            self.place_mine(random_height, random_width);
            true
        }
    }

    /// The first cell number at or after `start`, going round the board,
    /// whose cell holds no mine.
    fn first_free_from(&self, start: usize) -> (spot: usize)
        requires
            self.wf(),
            start < self.nb_cells,
            self.nb_of_mines < self.nb_cells,
        ensures
            spot < self.nb_cells,
            !self.mined(spot as int),
            start <= spot ==> forall|i: int| start <= i < spot ==> self.mined(i),
            spot < start ==> forall|i: int|
                (0 <= i < spot || start <= i < self.nb_cells) ==> self.mined(i),
    {
        let mut spot = start;
        while spot < self.nb_cells
            invariant
                self.shaped(),
                start <= spot <= self.nb_cells,
                forall|i: int| start <= i < spot ==> self.mined(i),
            decreases self.nb_cells - spot,
        {
            proof {
                self.lemma_index_in_bounds(spot as int);
            }
            if !self.cells[spot / self.width][spot % self.width].has_mine() {
                return spot;
            }
            spot += 1;
        }
        spot = 0;
        while spot < start
            invariant
                self.shaped(),
                start < self.nb_cells,
                spot <= start,
                forall|i: int| start <= i < self.nb_cells ==> self.mined(i),
                forall|i: int| 0 <= i < spot ==> self.mined(i),
            decreases start - spot,
        {
            proof {
                self.lemma_index_in_bounds(spot as int);
            }
            if !self.cells[spot / self.width][spot % self.width].has_mine() {
                return spot;
            }
            spot += 1;
        }
        proof {
            let rows = self.rows();
            assert forall|r: int, c: int|
                0 <= r < rows.len() && 0 <= c < rows[r].len() implies is_mine()(
                #[trigger] rows[r][c],
            ) by {
                self.lemma_position_has_index(r, c);
                assert(self.mined(r * self.width + c));
            }
            assert(rectangular(rows, self.width as int));
            lemma_rows_bounds(rows, self.width as int, is_mine());
            assert(false);
        }
        start
    }

    /// Lays `nb_mines` mines on cells drawn at random among those that
    /// hold none. A draw that lands on a mine is thrown away and drawn
    /// again; after `MAX_REDRAWS` such draws in a row the mine goes to the
    /// next free cell after one last draw, so that laying always ends.
    pub fn populate_with_mines(self, nb_mines: usize) -> (field: Field)
        requires
            self.wf(),
            self.nb_of_mines + nb_mines <= self.nb_cells,
        ensures
            field.wf(),
            field.height == self.height,
            field.width == self.width,
            field.nb_cells == self.nb_cells,
            field.nb_of_mines == self.nb_of_mines + nb_mines,
            field.nb_unreveiled_cells == self.nb_unreveiled_cells,
            field.mine_count() == self.mine_count() + nb_mines,
            field.empty_count() + nb_mines == self.empty_count(),
            forall|r: int, c: int|
                field.in_bounds(r, c) ==> (#[trigger] field.at(r, c)).aspect == self.at(
                    r,
                    c,
                ).aspect,
            forall|r: int, c: int|
                field.in_bounds(r, c) && self.at(r, c).spec_has_mine() ==> (#[trigger] field.at(
                    r,
                    c,
                )).spec_has_mine(),
    {
        let mut field = self;
        let mut remaining_mines = nb_mines;
        while remaining_mines > 0
            invariant
                field.wf(),
                field.height == self.height,
                field.width == self.width,
                field.nb_cells == self.nb_cells,
                field.nb_of_mines + remaining_mines == self.nb_of_mines + nb_mines,
                self.nb_of_mines + nb_mines <= self.nb_cells,
                field.nb_unreveiled_cells == self.nb_unreveiled_cells,
                forall|r: int, c: int|
                    field.in_bounds(r, c) ==> (#[trigger] field.at(r, c)).aspect == self.at(
                        r,
                        c,
                    ).aspect,
                forall|r: int, c: int|
                    field.in_bounds(r, c) && self.at(r, c).spec_has_mine() ==> (
                    #[trigger] field.at(r, c)).spec_has_mine(),
            decreases remaining_mines,
        {
            let ghost before = field;
            let mut placed = field.place_mine_on_draw(random_draw());
            let mut redraws: usize = 0;
            while !placed && redraws < MAX_REDRAWS
                invariant
                    before.wf(),
                    field.wf(),
                    redraws <= MAX_REDRAWS,
                    !placed ==> field == before,
                    placed ==> exists|r: int, c: int| field.is_mined_from(&before, r, c),
                decreases MAX_REDRAWS - redraws,
            {
                placed = field.place_mine_on_draw(random_draw());
                redraws += 1;
            }
            if !placed {
                proof {
                    field.lemma_has_cells();
                }
                let start = random_draw() % field.nb_cells;
                let spot = field.first_free_from(start);
                proof {
                    field.lemma_index_in_bounds(spot as int);
                }
                field.place_mine(spot / field.width, spot % field.width);
            }
            assert(exists|r: int, c: int| field.is_mined_from(&before, r, c));
            remaining_mines -= 1;
        }
        proof {
            lemma_mines_and_empties(&self);
            lemma_mines_and_empties(&field);
        }
        field
    }
}

/// How many draws in a row may land on a mine before the next free cell is
/// taken instead.
pub const MAX_REDRAWS: usize = 1_000_000;

/// A random number, by `rand::random::<usize>()`. Nothing is claimed of
/// the value: the callers are proved for every one.
#[verifier::external_body]
fn random_draw() -> (draw: usize) {
    rand::random::<usize>()
}

} // verus!
