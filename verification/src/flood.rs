//! Revealing cells: the flood fill over mine-free ground.

use vstd::prelude::*;
use crate::cell::{Aspect, Cell};
use crate::count::{is_mine, is_unrevealed, lemma_grid_update};
use crate::field::{adjacent, lemma_one_cell_changed, listed, Field};

verus! {

/// Whatever is listed before the last position is taken off a list is
/// still listed afterwards, or is that last position.
proof fn lemma_listed_without_last(positions: Seq<(usize, usize)>, r: int, c: int)
    requires
        positions.len() > 0,
        listed(positions, r, c),
    ensures
        listed(positions.drop_last(), r, c) || (positions.last().0 == r && positions.last().1
            == c),
{
    let k = choose|k: int|
        0 <= k < positions.len() && k < positions.len() && (#[trigger] positions[k]).0 == r
            && positions[k].1 == c;
    if k < positions.len() - 1 {
        assert(positions.drop_last()[k] == positions[k]);
    }
}

/// What is listed in either of two lists is listed in the two joined.
proof fn lemma_listed_joined(
    front: Seq<(usize, usize)>,
    back: Seq<(usize, usize)>,
    r: int,
    c: int,
)
    requires
        listed(front, r, c) || listed(back, r, c),
    ensures
        listed(front + back, r, c),
{
    let joined = front + back;
    if listed(front, r, c) {
        let k = choose|k: int|
            0 <= k < front.len() && k < front.len() && (#[trigger] front[k]).0 == r
                && front[k].1 == c;
        assert(joined[k] == front[k]);
    } else {
        let k = choose|k: int|
            0 <= k < back.len() && k < back.len() && (#[trigger] back[k]).0 == r && back[k].1
                == c;
        assert(joined[front.len() + k] == back[k]);
    }
}

impl Field {
    /// A walk over the board on which every step starts from a cell that
    /// spreads a reveal (no mine on it, none around it) and leads to a cell
    /// that touches it.
    pub open spec fn is_spread_path(&self, path: Seq<(int, int)>) -> bool {
        &&& path.len() > 0
        &&& forall|i: int|
            0 <= i < path.len() ==> self.in_bounds((#[trigger] path[i]).0, path[i].1)
        &&& forall|i: int|
            0 <= i < path.len() - 1 ==> {
                &&& self.at((#[trigger] path[i]).0, path[i].1).spreads()
                &&& adjacent(path[i].0, path[i].1, path[i + 1].0, path[i + 1].1)
            }
    }

    /// Whether a reveal that starts at `(r0, c0)` spreads to `(r, c)`: the
    /// cell itself, the spreading cells connected to it, and the cells on
    /// their border.
    pub open spec fn reaches(&self, r0: int, c0: int, r: int, c: int) -> bool {
        exists|path: Seq<(int, int)>|
            #[trigger] self.is_spread_path(path) && path[0] == (r0, c0) && path[path.len() - 1]
                == (r, c)
    }

    /// `self` is `before` after a reveal at `(y, x)`: the cells that the
    /// reveal reaches are visible, every other cell is as it was, and no
    /// mine has moved.
    pub open spec fn is_revealed_from(&self, before: &Field, y: int, x: int) -> bool {
        &&& self.height == before.height
        &&& self.width == before.width
        &&& self.nb_cells == before.nb_cells
        &&& self.nb_of_mines == before.nb_of_mines
        &&& forall|r: int, c: int|
            self.in_bounds(r, c) ==> {
                let cell = #[trigger] self.at(r, c);
                &&& cell.content == before.at(r, c).content
                &&& cell.adjacent_mines == before.at(r, c).adjacent_mines
                &&& cell.aspect == if before.reaches(y, x, r, c) {
                    Aspect::Visible
                } else {
                    before.at(r, c).aspect
                }
            }
    }

    /// Around every visible cell that spreads, each cell is visible or
    /// waits in `pending`.
    spec fn spread_covered(&self, pending: Seq<(usize, usize)>) -> bool {
        forall|r: int, c: int, r2: int, c2: int|
            self.in_bounds(r, c) && self.in_bounds(r2, c2) && adjacent(r, c, r2, c2) && (
            #[trigger] self.at(r, c)).spec_is_visible() && self.at(r, c).spreads() ==> (
            #[trigger] self.at(r2, c2)).spec_is_visible() || listed(pending, r2, c2)
    }

    /// Every position of the board is reached from itself.
    pub proof fn lemma_reaches_itself(&self, r: int, c: int)
        requires
            self.in_bounds(r, c),
        ensures
            self.reaches(r, c, r, c),
    {
        let path = seq![(r, c)];
        assert(self.is_spread_path(path));
        assert(path[0] == (r, c));
    }

    /// From a reached cell that spreads, every cell that touches it is
    /// reached too.
    pub proof fn lemma_reaches_next(&self, r0: int, c0: int, r: int, c: int, r2: int, c2: int)
        requires
            self.reaches(r0, c0, r, c),
            self.at(r, c).spreads(),
            self.in_bounds(r2, c2),
            adjacent(r, c, r2, c2),
        ensures
            self.reaches(r0, c0, r2, c2),
    {
        let path = choose|path: Seq<(int, int)>|
            #[trigger] self.is_spread_path(path) && path[0] == (r0, c0) && path[path.len() - 1]
                == (r, c);
        let longer = path.push((r2, c2));
        assert forall|i: int| 0 <= i < longer.len() implies self.in_bounds(
            (#[trigger] longer[i]).0,
            longer[i].1,
        ) by {
            if i < path.len() {
                assert(longer[i] == path[i]);
            }
        }
        assert forall|i: int| 0 <= i < longer.len() - 1 implies {
            &&& self.at((#[trigger] longer[i]).0, longer[i].1).spreads()
            &&& adjacent(longer[i].0, longer[i].1, longer[i + 1].0, longer[i + 1].1)
        } by {
            assert(longer[i] == path[i]);
            if i < path.len() - 1 {
                assert(longer[i + 1] == path[i + 1]);
            }
        }
        assert(self.is_spread_path(longer));
        assert(longer[0] == path[0]);
    }

    /// On a board whose reveals are complete, a walk that starts on a
    /// visible cell stays on visible cells.
    proof fn lemma_path_stays_visible(&self, path: Seq<(int, int)>, i: int)
        requires
            self.reveals_complete(),
            self.is_spread_path(path),
            self.at(path[0].0, path[0].1).spec_is_visible(),
            0 <= i < path.len(),
        ensures
            self.at(path[i].0, path[i].1).spec_is_visible(),
        decreases i,
    {
        if i > 0 {
            self.lemma_path_stays_visible(path, i - 1);
            let p = path[i - 1];
            let q = path[i];
            assert(self.in_bounds(p.0, p.1));
            assert(self.in_bounds(q.0, q.1));
            assert(self.at(p.0, p.1).spreads() && adjacent(p.0, p.1, q.0, q.1));
        }
    }

    /// On a board whose reveals are complete, everything that a visible
    /// cell reaches is visible.
    pub proof fn lemma_region_of_visible_is_visible(&self, r0: int, c0: int, r: int, c: int)
        requires
            self.reveals_complete(),
            self.at(r0, c0).spec_is_visible(),
            self.reaches(r0, c0, r, c),
        ensures
            self.at(r, c).spec_is_visible(),
    {
        let path = choose|path: Seq<(int, int)>|
            #[trigger] self.is_spread_path(path) && path[0] == (r0, c0) && path[path.len() - 1]
                == (r, c);
        self.lemma_path_stays_visible(path, path.len() - 1);
    }

    /// What a reveal reaches depends on the mines and the counts alone,
    /// not on what is visible.
    pub proof fn lemma_reaches_on_same_ground(
        &self,
        other: &Field,
        r0: int,
        c0: int,
        r: int,
        c: int,
    )
        requires
            self.height == other.height,
            self.width == other.width,
            forall|i: int, j: int|
                self.in_bounds(i, j) ==> (#[trigger] self.at(i, j)).spreads() == other.at(
                    i,
                    j,
                ).spreads(),
            self.reaches(r0, c0, r, c),
        ensures
            other.reaches(r0, c0, r, c),
    {
        let path = choose|path: Seq<(int, int)>|
            #[trigger] self.is_spread_path(path) && path[0] == (r0, c0) && path[path.len() - 1]
                == (r, c);
        assert forall|i: int| 0 <= i < path.len() - 1 implies {
            &&& other.at((#[trigger] path[i]).0, path[i].1).spreads()
            &&& adjacent(path[i].0, path[i].1, path[i + 1].0, path[i + 1].1)
        } by {
            assert(self.in_bounds(path[i].0, path[i].1));
            assert(self.at(path[i].0, path[i].1).spreads());
        }
        assert(other.is_spread_path(path));
    }

    /// A reveal never spreads onto a mine: of all that it reaches, only
    /// the cell it starts from can hold one.
    pub proof fn lemma_spread_meets_no_mine(&self, r0: int, c0: int, r: int, c: int)
        requires
            self.shaped(),
            self.counts_hold(),
            self.reaches(r0, c0, r, c),
            !(r0 == r && c0 == c),
        ensures
            !self.at(r, c).spec_has_mine(),
    {
        let path = choose|path: Seq<(int, int)>|
            #[trigger] self.is_spread_path(path) && path[0] == (r0, c0) && path[path.len() - 1]
                == (r, c);
        let from = path[path.len() - 2];
        assert(self.in_bounds(from.0, from.1));
        assert(self.at(from.0, from.1).spreads() && adjacent(from.0, from.1, r, c));
        assert(self.in_bounds(path[path.len() - 1].0, path[path.len() - 1].1));
        assert(self.at(from.0, from.1).adjacent_mines == self.mines_around(from.0, from.1));
        self.lemma_none_around_means_no_mine(from.0, from.1, r, c);
    }

    /// Where no mine is counted around a position, none of the cells that
    /// touch it holds one.
    pub proof fn lemma_none_around_means_no_mine(&self, r: int, c: int, r2: int, c2: int)
        requires
            self.mines_around(r, c) == 0,
            self.in_bounds(r2, c2),
            adjacent(r, c, r2, c2),
        ensures
            !self.at(r2, c2).spec_has_mine(),
    {
        reveal(Field::mines_around);
        assert(self.mine_at(r2, c2) == 0);
    }

    /// From a cell that does not spread (a mine, or a cell next to one),
    /// a reveal reaches that cell alone.
    pub proof fn lemma_unspreading_reaches_itself_only(&self, r0: int, c0: int, r: int, c: int)
        requires
            self.reaches(r0, c0, r, c),
            !self.at(r0, c0).spreads(),
        ensures
            r == r0 && c == c0,
    {
        let path = choose|path: Seq<(int, int)>|
            #[trigger] self.is_spread_path(path) && path[0] == (r0, c0) && path[path.len() - 1]
                == (r, c);
        if path.len() > 1 {
            assert(self.at(path[0].0, path[0].1).spreads());
        }
    }

    /// A reveal on a cell that does not spread changes that cell alone.
    pub proof fn lemma_reveal_without_spread(&self, before: &Field, y: int, x: int, r: int, c: int)
        requires
            self.is_revealed_from(before, y, x),
            !before.at(y, x).spreads(),
            before.in_bounds(r, c),
            !(r == y && c == x),
        ensures
            self.at(r, c) == before.at(r, c),
    {
        if before.reaches(y, x, r, c) {
            before.lemma_unspreading_reaches_itself_only(y, x, r, c);
        }
        assert(self.in_bounds(r, c));
    }

    /// A reveal hides nothing: what was visible stays visible, and the
    /// cell it was asked for is visible afterwards.
    pub proof fn lemma_reveal_keeps_visible(&self, before: &Field, y: int, x: int, r: int, c: int)
        requires
            self.is_revealed_from(before, y, x),
            before.in_bounds(y, x),
            before.in_bounds(r, c),
        ensures
            before.at(r, c).aspect.may_become(self.at(r, c).aspect),
            self.at(y, x).spec_is_visible(),
    {
        before.lemma_reaches_itself(y, x);
        assert(self.in_bounds(r, c));
        assert(self.in_bounds(y, x));
    }

    /// Turns one unrevealed cell visible and counts it.
    fn reveal_cell(&mut self, row: usize, col: usize)
        requires
            old(self).shaped(),
            old(self).in_bounds(row as int, col as int),
            !old(self).at(row as int, col as int).spec_is_visible(),
            old(self).nb_unreveiled_cells == old(self).hidden_count(),
        ensures
            final(self).shaped(),
            final(self).height == old(self).height,
            final(self).width == old(self).width,
            final(self).nb_cells == old(self).nb_cells,
            final(self).nb_of_mines == old(self).nb_of_mines,
            final(self).at(row as int, col as int).aspect == Aspect::Visible,
            final(self).at(row as int, col as int).content == old(self).at(
                row as int,
                col as int,
            ).content,
            final(self).at(row as int, col as int).adjacent_mines == old(self).at(
                row as int,
                col as int,
            ).adjacent_mines,
            forall|i: int, j: int|
                old(self).in_bounds(i, j) && !(i == row && j == col) ==> #[trigger] final(self).at(
                    i,
                    j,
                ) == old(self).at(i, j),
            final(self).nb_unreveiled_cells == old(self).nb_unreveiled_cells - 1,
            final(self).nb_unreveiled_cells == final(self).hidden_count(),
            final(self).mine_count() == old(self).mine_count(),
    {
        proof {
            let seen = Cell { aspect: Aspect::Visible, ..self.at(row as int, col as int) };
            lemma_grid_update(self.rows(), row as int, col as int, seen, is_unrevealed());
        }
        self.cells[row][col].set_visible();
        self.nb_unreveiled_cells -= 1;
        proof {
            lemma_one_cell_changed(old(self), self, row as int, col as int, is_mine());
            lemma_one_cell_changed(old(self), self, row as int, col as int, is_unrevealed());
        }
    }

    /// Reveals the cell at `(y, x)` and, where it has no mine on it or
    /// around it, everything that the reveal spreads to. A cell that is
    /// visible already is left alone.
    pub fn show_cells(&mut self, y: usize, x: usize)
        requires
            old(self).wf(),
            old(self).in_bounds(y as int, x as int),
        ensures
            final(self).wf(),
            final(self).is_revealed_from(old(self), y as int, x as int),
            old(self).at(y as int, x as int).spec_is_visible() ==> *final(self) == *old(self),
    {
        if self.cells[y][x].is_visible() {
            proof {
                assert forall|r: int, c: int|
                    self.in_bounds(r, c) && self.reaches(y as int, x as int, r, c) implies (
                #[trigger] self.at(r, c)).spec_is_visible() by {
                    self.lemma_region_of_visible_is_visible(y as int, x as int, r, c);
                }
            }
            return;
        }
        let mut pending: Vec<(usize, usize)> = Vec::new();
        pending.push((y, x));
        proof {
            self.lemma_reaches_itself(y as int, x as int);
            assert(pending@[0] == (y, x));
            assert(listed(pending@, y as int, x as int));
        }
        while pending.len() > 0
            invariant
                self.shaped(),
                old(self).shaped(),
                self.height == old(self).height,
                self.width == old(self).width,
                self.nb_cells == old(self).nb_cells,
                self.nb_of_mines == old(self).nb_of_mines,
                self.nb_unreveiled_cells == self.hidden_count(),
                self.mine_count() == old(self).mine_count(),
                old(self).in_bounds(y as int, x as int),
                forall|r: int, c: int|
                    self.in_bounds(r, c) ==> {
                        let cell = #[trigger] self.at(r, c);
                        &&& cell.content == old(self).at(r, c).content
                        &&& cell.adjacent_mines == old(self).at(r, c).adjacent_mines
                        &&& (cell.aspect == old(self).at(r, c).aspect || (cell.spec_is_visible()
                            && old(self).reaches(y as int, x as int, r, c)))
                    },
                forall|k: int|
                    0 <= k < pending@.len() ==> {
                        let p = #[trigger] pending@[k];
                        self.in_bounds(p.0 as int, p.1 as int) && old(self).reaches(
                            y as int,
                            x as int,
                            p.0 as int,
                            p.1 as int,
                        )
                    },
                self.spread_covered(pending@),
                self.at(y as int, x as int).spec_is_visible() || listed(
                    pending@,
                    y as int,
                    x as int,
                ),
            decreases self.nb_unreveiled_cells, pending@.len(),
        {
            let ghost waiting = pending@;
            let ghost prev = *self;
            let (row, col) = pending.pop().unwrap();
            proof {
                assert(waiting[waiting.len() - 1] == (row, col));
                assert(pending@ == waiting.drop_last());
                assert forall|r: int, c: int| listed(waiting, r, c) implies listed(pending@, r, c)
                    || (r == row && c == col) by {
                    lemma_listed_without_last(waiting, r, c);
                }
            }
            if !self.cells[row][col].is_visible() {
                self.reveal_cell(row, col);
                let cell = self.cells[row][col];
                if !cell.has_mine() && !cell.has_adjacent_mine() {
                    let mut around = self.get_adjacent_positions(row, col);
                    let ghost rest = pending@;
                    let ghost found = around@;
                    pending.append(&mut around);
                    proof {
                        assert(pending@ == rest + found);
                        assert forall|r: int, c: int|
                            listed(rest, r, c) || listed(found, r, c) implies listed(
                            pending@,
                            r,
                            c,
                        ) by {
                            lemma_listed_joined(rest, found, r, c);
                        }
                        assert forall|k: int| 0 <= k < pending@.len() implies {
                            let p = #[trigger] pending@[k];
                            self.in_bounds(p.0 as int, p.1 as int) && old(self).reaches(
                                y as int,
                                x as int,
                                p.0 as int,
                                p.1 as int,
                            )
                        } by {
                            if k >= rest.len() {
                                let p = found[k - rest.len()];
                                assert(pending@[k] == p);
                                assert(old(self).at(row as int, col as int).spreads());
                                old(self).lemma_reaches_next(
                                    y as int,
                                    x as int,
                                    row as int,
                                    col as int,
                                    p.0 as int,
                                    p.1 as int,
                                );
                            } else {
                                assert(pending@[k] == rest[k]);
                            }
                        }
                    }
                }
                assert(self.spread_covered(pending@)) by {
                    assert forall|r: int, c: int, r2: int, c2: int|
                        self.in_bounds(r, c) && self.in_bounds(r2, c2) && adjacent(r, c, r2, c2)
                            && (#[trigger] self.at(r, c)).spec_is_visible() && self.at(
                            r,
                            c,
                        ).spreads() implies (#[trigger] self.at(r2, c2)).spec_is_visible()
                        || listed(pending@, r2, c2) by {
                        if r == row && c == col {
                        } else {
                            assert(self.at(r, c) == prev.at(r, c));
                            assert(prev.at(r2, c2).spec_is_visible() || listed(waiting, r2, c2));
                            if !(r2 == row && c2 == col) {
                                assert(self.at(r2, c2) == prev.at(r2, c2));
                            }
                        }
                    }
                }
            }
        }
        proof {
            assert forall|r: int, c: int, r2: int, c2: int|
                self.in_bounds(r, c) && self.in_bounds(r2, c2) && adjacent(r, c, r2, c2) && (
                #[trigger] self.at(r, c)).spec_is_visible() && self.at(r, c).spreads() implies (
            #[trigger] self.at(r2, c2)).spec_is_visible() by {
                assert(!listed(pending@, r2, c2));
            }
            assert(self.reveals_complete());
            assert(self.same_ground(old(self)));
            assert forall|r: int, c: int| self.in_bounds(r, c) implies (#[trigger] self.at(
                r,
                c,
            )).adjacent_mines == self.mines_around(r, c) by {
                self.lemma_mines_around_on_same_ground(old(self), r, c);
            }
            assert forall|r: int, c: int| self.in_bounds(r, c) implies (#[trigger] self.at(
                r,
                c,
            )).aspect == if old(self).reaches(y as int, x as int, r, c) {
                Aspect::Visible
            } else {
                old(self).at(r, c).aspect
            } by {
                if old(self).reaches(y as int, x as int, r, c) {
                    old(self).lemma_reaches_on_same_ground(self, y as int, x as int, r, c);
                    self.lemma_region_of_visible_is_visible(y as int, x as int, r, c);
                }
            }
        }
    }
}

} // verus!
