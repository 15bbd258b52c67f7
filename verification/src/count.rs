//! Counting the cells of a grid that satisfy a predicate.
//!
//! The board keeps two running counters (mines placed, cells not yet
//! revealed). Their meaning is given here, as a count over the rows of the
//! grid, together with the facts about that count which the board's
//! operations rely on.

use vstd::prelude::*;
use crate::cell::{Cell, Content};

verus! {

/// A property of a single cell.
pub type CellPred = spec_fn(Cell) -> bool;

/// The cells that hold a mine.
pub open spec fn is_mine() -> CellPred {
    |cell: Cell| cell.spec_has_mine()
}

/// The cells that hold no mine.
pub open spec fn is_empty() -> CellPred {
    |cell: Cell| cell.content == Content::Empty
}

/// The cells that are not revealed yet (hidden or flagged).
pub open spec fn is_unrevealed() -> CellPred {
    |cell: Cell| !cell.spec_is_visible()
}

/// 1 if the cell satisfies `pred`, else 0.
pub open spec fn one_if(pred: CellPred, cell: Cell) -> nat {
    if pred(cell) {
        1
    } else {
        0
    }
}

/// Number of cells of `row` that satisfy `pred`.
pub open spec fn count_in_row(row: Seq<Cell>, pred: CellPred) -> nat
    decreases row.len(),
{
    if row.len() == 0 {
        0
    } else {
        count_in_row(row.drop_last(), pred) + one_if(pred, row.last())
    }
}

/// Number of cells of the grid `rows` that satisfy `pred`.
pub open spec fn count_in_rows(rows: Seq<Seq<Cell>>, pred: CellPred) -> nat
    decreases rows.len(),
{
    if rows.len() == 0 {
        0
    } else {
        count_in_rows(rows.drop_last(), pred) + count_in_row(rows.last(), pred)
    }
}

/// Whether every row of `rows` has `width` cells.
pub open spec fn rectangular(rows: Seq<Seq<Cell>>, width: int) -> bool {
    forall|r: int| 0 <= r < rows.len() ==> (#[trigger] rows[r]).len() == width
}

/// Whether every cell of `rows` satisfies `pred`.
pub open spec fn all_cells(rows: Seq<Seq<Cell>>, pred: CellPred) -> bool {
    forall|r: int, c: int|
        0 <= r < rows.len() && 0 <= c < rows[r].len() ==> pred(#[trigger] rows[r][c])
}

/// Whether no cell of `rows` satisfies `pred`.
pub open spec fn no_cell(rows: Seq<Seq<Cell>>, pred: CellPred) -> bool {
    forall|r: int, c: int|
        0 <= r < rows.len() && 0 <= c < rows[r].len() ==> !pred(#[trigger] rows[r][c])
}

/// Whether every cell of `row` that satisfies `inner` satisfies `outer`.
pub open spec fn row_within(row: Seq<Cell>, inner: CellPred, outer: CellPred) -> bool {
    forall|c: int| 0 <= c < row.len() && inner(#[trigger] row[c]) ==> outer(row[c])
}

/// Whether every cell of `rows` that satisfies `inner` satisfies `outer`.
pub open spec fn rows_within(rows: Seq<Seq<Cell>>, inner: CellPred, outer: CellPred) -> bool {
    forall|r: int, c: int|
        0 <= r < rows.len() && 0 <= c < rows[r].len() && inner(#[trigger] rows[r][c]) ==> outer(
            rows[r][c],
        )
}

/// Replacing one cell of a row moves the count by that cell's share.
pub proof fn lemma_row_update(row: Seq<Cell>, col: int, cell: Cell, pred: CellPred)
    requires
        0 <= col < row.len(),
    ensures
        count_in_row(row.update(col, cell), pred) + one_if(pred, row[col]) == count_in_row(
            row,
            pred,
        ) + one_if(pred, cell),
    decreases row.len(),
{
    let after = row.update(col, cell);
    if col == row.len() - 1 {
        assert(after.drop_last() =~= row.drop_last());
    } else {
        lemma_row_update(row.drop_last(), col, cell, pred);
        assert(after.drop_last() =~= row.drop_last().update(col, cell));
    }
}

/// Replacing one row of a grid moves the count by the difference of the
/// two rows' counts.
pub proof fn lemma_rows_update(rows: Seq<Seq<Cell>>, r: int, row: Seq<Cell>, pred: CellPred)
    requires
        0 <= r < rows.len(),
    ensures
        count_in_rows(rows.update(r, row), pred) + count_in_row(rows[r], pred) == count_in_rows(
            rows,
            pred,
        ) + count_in_row(row, pred),
    decreases rows.len(),
{
    let after = rows.update(r, row);
    if r == rows.len() - 1 {
        assert(after.drop_last() =~= rows.drop_last());
    } else {
        lemma_rows_update(rows.drop_last(), r, row, pred);
        assert(after.drop_last() =~= rows.drop_last().update(r, row));
    }
}

/// Replacing the cell at `(r, col)` of a grid moves the count by that
/// cell's share.
pub proof fn lemma_grid_update(
    rows: Seq<Seq<Cell>>,
    r: int,
    col: int,
    cell: Cell,
    pred: CellPred,
)
    requires
        0 <= r < rows.len(),
        0 <= col < rows[r].len(),
    ensures
        count_in_rows(rows.update(r, rows[r].update(col, cell)), pred) + one_if(
            pred,
            rows[r][col],
        ) == count_in_rows(rows, pred) + one_if(pred, cell),
{
    lemma_row_update(rows[r], col, cell, pred);
    lemma_rows_update(rows, r, rows[r].update(col, cell), pred);
}

/// The rows of a grid but the last are rows of the grid.
proof fn lemma_front_rows(rows: Seq<Seq<Cell>>)
    requires
        rows.len() > 0,
    ensures
        forall|r: int| 0 <= r < rows.len() - 1 ==> #[trigger] rows.drop_last()[r] == rows[r],
        rows.drop_last().len() == rows.len() - 1,
{
}

/// A row holds at most as many matching cells as it has cells; it holds
/// none exactly when no cell matches, and as many as it has cells exactly
/// when all match.
pub proof fn lemma_row_bounds(row: Seq<Cell>, pred: CellPred)
    ensures
        count_in_row(row, pred) <= row.len(),
        count_in_row(row, pred) == 0 <==> forall|c: int|
            0 <= c < row.len() ==> !pred(#[trigger] row[c]),
        count_in_row(row, pred) == row.len() <==> forall|c: int|
            0 <= c < row.len() ==> pred(#[trigger] row[c]),
    decreases row.len(),
{
    if row.len() > 0 {
        let front = row.drop_last();
        lemma_row_bounds(front, pred);
        assert forall|c: int| 0 <= c < front.len() implies front[c] == row[c] by {}
        if count_in_row(row, pred) == 0 {
            assert forall|c: int| 0 <= c < row.len() implies !pred(#[trigger] row[c]) by {
                if c < front.len() {
                    assert(front[c] == row[c]);
                }
            }
        }
        if count_in_row(row, pred) == row.len() {
            assert forall|c: int| 0 <= c < row.len() implies pred(#[trigger] row[c]) by {
                if c < front.len() {
                    assert(front[c] == row[c]);
                }
            }
        }
        if forall|c: int| 0 <= c < row.len() ==> !pred(#[trigger] row[c]) {
            assert forall|c: int| 0 <= c < front.len() implies !pred(#[trigger] front[c]) by {
                assert(front[c] == row[c]);
            }
            assert(!pred(row[row.len() - 1]));
        }
        if forall|c: int| 0 <= c < row.len() ==> pred(#[trigger] row[c]) {
            assert forall|c: int| 0 <= c < front.len() implies pred(#[trigger] front[c]) by {
                assert(front[c] == row[c]);
            }
            assert(pred(row[row.len() - 1]));
        }
    }
}

/// In a rectangular grid the count is at most the number of cells; it is 0
/// exactly when no cell matches and the number of cells exactly when all
/// match.
pub proof fn lemma_rows_bounds(rows: Seq<Seq<Cell>>, width: int, pred: CellPred)
    requires
        rectangular(rows, width),
        0 <= width,
    ensures
        count_in_rows(rows, pred) <= rows.len() * width,
        count_in_rows(rows, pred) == 0 <==> no_cell(rows, pred),
        count_in_rows(rows, pred) == rows.len() * width <==> all_cells(rows, pred),
    decreases rows.len(),
{
    if rows.len() == 0 {
        assert(rows.len() * width == 0) by (nonlinear_arith)
            requires
                rows.len() == 0,
        ;
    } else {
        let front = rows.drop_last();
        let last = rows.last();
        let n = rows.len() as int;
        lemma_front_rows(rows);
        assert(rectangular(front, width));
        lemma_rows_bounds(front, width, pred);
        lemma_row_bounds(last, pred);
        assert(last.len() == width);
        assert(n * width == (n - 1) * width + width) by (nonlinear_arith);
        let total = count_in_rows(rows, pred);
        assert(total == count_in_rows(front, pred) + count_in_row(last, pred));
        if no_cell(rows, pred) {
            assert forall|r: int, c: int|
                0 <= r < front.len() && 0 <= c < front[r].len() implies !pred(
                #[trigger] front[r][c],
            ) by {
                assert(!pred(rows[r][c]));
            }
            assert forall|c: int| 0 <= c < last.len() implies !pred(#[trigger] last[c]) by {
                assert(!pred(rows[n - 1][c]));
            }
        }
        if all_cells(rows, pred) {
            assert forall|r: int, c: int|
                0 <= r < front.len() && 0 <= c < front[r].len() implies pred(
                #[trigger] front[r][c],
            ) by {
                assert(pred(rows[r][c]));
            }
            assert forall|c: int| 0 <= c < last.len() implies pred(#[trigger] last[c]) by {
                assert(pred(rows[n - 1][c]));
            }
        }
        if total == 0 {
            assert forall|r: int, c: int|
                0 <= r < rows.len() && 0 <= c < rows[r].len() implies !pred(
                #[trigger] rows[r][c],
            ) by {
                if r < n - 1 {
                    assert(!pred(front[r][c]));
                } else {
                    assert(!pred(last[c]));
                }
            }
        }
        if total == n * width {
            assert forall|r: int, c: int|
                0 <= r < rows.len() && 0 <= c < rows[r].len() implies pred(
                #[trigger] rows[r][c],
            ) by {
                if r < n - 1 {
                    assert(pred(front[r][c]));
                } else {
                    assert(pred(last[c]));
                }
            }
        }
    }
}

/// Where every cell satisfies exactly one of two predicates, the two
/// counts of a row add up to its length.
pub proof fn lemma_row_split(row: Seq<Cell>, pred: CellPred, other: CellPred)
    requires
        forall|c: int| 0 <= c < row.len() ==> pred(#[trigger] row[c]) != other(row[c]),
    ensures
        count_in_row(row, pred) + count_in_row(row, other) == row.len(),
    decreases row.len(),
{
    if row.len() > 0 {
        let front = row.drop_last();
        assert forall|c: int| 0 <= c < front.len() implies pred(#[trigger] front[c]) != other(
            front[c],
        ) by {
            assert(front[c] == row[c]);
        }
        lemma_row_split(front, pred, other);
        assert(pred(row[row.len() - 1]) != other(row[row.len() - 1]));
    }
}

/// Where every cell satisfies exactly one of two predicates, the two
/// counts of a rectangular grid add up to its number of cells.
pub proof fn lemma_rows_split(rows: Seq<Seq<Cell>>, width: int, pred: CellPred, other: CellPred)
    requires
        rectangular(rows, width),
        forall|r: int, c: int|
            0 <= r < rows.len() && 0 <= c < rows[r].len() ==> pred(#[trigger] rows[r][c])
                != other(rows[r][c]),
    ensures
        count_in_rows(rows, pred) + count_in_rows(rows, other) == rows.len() * width,
    decreases rows.len(),
{
    let n = rows.len() as int;
    if n == 0 {
        assert(n * width == 0) by (nonlinear_arith)
            requires
                n == 0,
        ;
    } else {
        let front = rows.drop_last();
        lemma_front_rows(rows);
        assert(rectangular(front, width));
        assert forall|r: int, c: int| 0 <= r < front.len() && 0 <= c < front[r].len() implies pred(
            #[trigger] front[r][c],
        ) != other(front[r][c]) by {
            assert(pred(rows[r][c]) != other(rows[r][c]));
        }
        lemma_rows_split(front, width, pred, other);
        assert forall|c: int| 0 <= c < rows.last().len() implies pred(#[trigger] rows.last()[c])
            != other(rows.last()[c]) by {
            assert(pred(rows[n - 1][c]) != other(rows[n - 1][c]));
        }
        lemma_row_split(rows.last(), pred, other);
        assert(rows.last().len() == width);
        assert(n * width == (n - 1) * width + width) by (nonlinear_arith);
    }
}

/// Where every cell that satisfies `inner` satisfies `outer`, a row counts
/// no more cells for `inner` than for `outer`, and as many exactly when
/// the two hold of the same cells.
pub proof fn lemma_row_subcount(row: Seq<Cell>, inner: CellPred, outer: CellPred)
    requires
        row_within(row, inner, outer),
    ensures
        count_in_row(row, inner) <= count_in_row(row, outer),
        count_in_row(row, inner) == count_in_row(row, outer) <==> row_within(row, outer, inner),
    decreases row.len(),
{
    if row.len() > 0 {
        let front = row.drop_last();
        let end = row.len() - 1;
        assert forall|c: int| 0 <= c < front.len() && inner(#[trigger] front[c]) implies outer(
            front[c],
        ) by {
            assert(front[c] == row[c]);
        }
        lemma_row_subcount(front, inner, outer);
        assert(inner(row[end]) ==> outer(row[end]));
        if count_in_row(row, inner) == count_in_row(row, outer) {
            assert forall|c: int| 0 <= c < row.len() && outer(#[trigger] row[c]) implies inner(
                row[c],
            ) by {
                if c < front.len() {
                    assert(front[c] == row[c]);
                }
            }
        }
        if row_within(row, outer, inner) {
            assert forall|c: int| 0 <= c < front.len() && outer(#[trigger] front[c]) implies inner(
                front[c],
            ) by {
                assert(front[c] == row[c]);
            }
            assert(outer(row[end]) ==> inner(row[end]));
        }
    }
}

/// Where every cell that satisfies `inner` satisfies `outer`, a grid
/// counts no more cells for `inner` than for `outer`, and as many exactly
/// when the two hold of the same cells.
pub proof fn lemma_rows_subcount(rows: Seq<Seq<Cell>>, inner: CellPred, outer: CellPred)
    requires
        rows_within(rows, inner, outer),
    ensures
        count_in_rows(rows, inner) <= count_in_rows(rows, outer),
        count_in_rows(rows, inner) == count_in_rows(rows, outer) <==> rows_within(
            rows,
            outer,
            inner,
        ),
    decreases rows.len(),
{
    if rows.len() > 0 {
        let n = rows.len() as int;
        let front = rows.drop_last();
        let last = rows.last();
        lemma_front_rows(rows);
        assert forall|r: int, c: int|
            0 <= r < front.len() && 0 <= c < front[r].len() && inner(
                #[trigger] front[r][c],
            ) implies outer(front[r][c]) by {
            assert(inner(rows[r][c]));
        }
        lemma_rows_subcount(front, inner, outer);
        assert forall|c: int| 0 <= c < last.len() && inner(#[trigger] last[c]) implies outer(
            last[c],
        ) by {
            assert(inner(rows[n - 1][c]));
        }
        lemma_row_subcount(last, inner, outer);
        if count_in_rows(rows, inner) == count_in_rows(rows, outer) {
            assert forall|r: int, c: int|
                0 <= r < rows.len() && 0 <= c < rows[r].len() && outer(
                    #[trigger] rows[r][c],
                ) implies inner(rows[r][c]) by {
                if r < n - 1 {
                    assert(outer(front[r][c]));
                } else {
                    assert(outer(last[c]));
                }
            }
        }
        if rows_within(rows, outer, inner) {
            assert forall|r: int, c: int|
                0 <= r < front.len() && 0 <= c < front[r].len() && outer(
                    #[trigger] front[r][c],
                ) implies inner(front[r][c]) by {
                assert(outer(rows[r][c]));
            }
            assert forall|c: int| 0 <= c < last.len() && outer(#[trigger] last[c]) implies inner(
                last[c],
            ) by {
                assert(outer(rows[n - 1][c]));
            }
        }
    }
}

} // verus!
