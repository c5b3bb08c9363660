//! The mathematical model of a grid: a sequence of 81 optional digits in
//! row-major order, its rows, columns and subgrids, and the Sudoku rule.

use vstd::prelude::*;
use crate::sudoku::reference::subgrid_at;

verus! {

/// The cells of a grid in row-major order; `None` is an empty cell.
pub type Board = Seq<Option<u8>>;

/// The position of the `k`-th cell of a row.
pub open spec fn row_cell(row: int, k: int) -> int {
    row * 9 + k
}

/// The position of the `k`-th cell of a column, counted from the top.
pub open spec fn column_cell(column: int, k: int) -> int {
    k * 9 + column
}

/// The position of the top-left cell of a subgrid.
pub open spec fn subgrid_start(subgrid: int) -> int {
    (subgrid * 3) % 9 + (subgrid / 3) * 27
}

/// The position of the `k`-th cell of a subgrid, counted row by row.
pub open spec fn subgrid_cell(subgrid: int, k: int) -> int {
    subgrid_start(subgrid) + (k / 3) * 9 + k % 3
}

/// The nine cells of a row, left to right.
pub open spec fn row_of(board: Board, row: int) -> Seq<Option<u8>> {
    Seq::new(9, |k: int| board[row_cell(row, k)])
}

/// The nine cells of a column, top to bottom.
pub open spec fn column_of(board: Board, column: int) -> Seq<Option<u8>> {
    Seq::new(9, |k: int| board[column_cell(column, k)])
}

/// The nine cells of a subgrid, row by row.
pub open spec fn subgrid_of(board: Board, subgrid: int) -> Seq<Option<u8>> {
    Seq::new(9, |k: int| board[subgrid_cell(subgrid, k)])
}

/// The digits of the filled cells of a unit, in the unit's order.
pub open spec fn values_of(unit: Seq<Option<u8>>) -> Seq<u8>
    decreases unit.len(),
{
    if unit.len() == 0 {
        Seq::empty()
    } else {
        match unit.last() {
            Some(v) => values_of(unit.drop_last()).push(v),
            None => values_of(unit.drop_last()),
        }
    }
}

/// No digit stands in two cells of the unit.
pub open spec fn distinct(unit: Seq<Option<u8>>) -> bool {
    forall|a: int, b: int| 0 <= a < b < unit.len() && unit[a] is Some ==> unit[a] != unit[b]
}

/// The board has 81 cells, and every filled cell holds a digit from 1 to 9.
pub open spec fn is_board(board: Board) -> bool {
    &&& board.len() == 81
    &&& forall|i: int| 0 <= i < 81 ==> (#[trigger] board[i] matches Some(v) ==> 1 <= v <= 9)
}

/// The row, the column and the subgrid of cell `i` each hold no digit twice.
pub open spec fn units_distinct_at(board: Board, i: int) -> bool {
    &&& distinct(row_of(board, i / 9))
    &&& distinct(column_of(board, i % 9))
    &&& distinct(subgrid_of(board, subgrid_at(i / 9, i % 9)))
}

/// The Sudoku rule: a well-formed board on which no row, no column and no
/// subgrid holds a digit twice.
pub open spec fn valid(board: Board) -> bool {
    &&& is_board(board)
    &&& forall|u: int| 0 <= u < 9 ==> distinct(#[trigger] row_of(board, u))
    &&& forall|u: int| 0 <= u < 9 ==> distinct(#[trigger] column_of(board, u))
    &&& forall|u: int| 0 <= u < 9 ==> distinct(#[trigger] subgrid_of(board, u))
}

/// The board of 81 empty cells.
pub open spec fn empty_board() -> Board {
    Seq::new(81, |i: int| None::<u8>)
}

/// `upper` keeps every filled cell of `lower`.
pub open spec fn extends(upper: Board, lower: Board) -> bool {
    &&& upper.len() == lower.len()
    &&& forall|i: int| 0 <= i < lower.len() && (#[trigger] lower[i]) is Some ==> upper[i] == lower[i]
}

/// Every cell is filled.
pub open spec fn complete(board: Board) -> bool {
    forall|i: int| 0 <= i < board.len() ==> (#[trigger] board[i]) is Some
}

/// Digit `v` already stands in the row, the column or the subgrid of cell `i`.
pub open spec fn used(board: Board, i: int, v: u8) -> bool {
    ||| row_of(board, i / 9).contains(Some(v))
    ||| column_of(board, i % 9).contains(Some(v))
    ||| subgrid_of(board, subgrid_at(i / 9, i % 9)).contains(Some(v))
}

/// Two cells share a row, a column or a subgrid.
pub open spec fn share_unit(i: int, j: int) -> bool {
    ||| i / 9 == j / 9
    ||| i % 9 == j % 9
    ||| subgrid_at(i / 9, i % 9) == subgrid_at(j / 9, j % 9)
}

/// Where the `k`-th cell of a subgrid lies: on the board, in which row and
/// column, and that it belongs to that subgrid and to no other.
pub proof fn lemma_subgrid_cell(subgrid: int, k: int)
    requires
        0 <= subgrid < 9,
        0 <= k < 9,
    ensures
        0 <= subgrid_cell(subgrid, k) < 81,
        subgrid_cell(subgrid, k) / 9 == (subgrid / 3) * 3 + k / 3,
        subgrid_cell(subgrid, k) % 9 == (subgrid % 3) * 3 + k % 3,
        subgrid_at(subgrid_cell(subgrid, k) / 9, subgrid_cell(subgrid, k) % 9) == subgrid,
{
}

/// Every cell is the cell of its own subgrid at the place given by its row
/// and column within that subgrid.
pub proof fn lemma_cell_in_subgrid(i: int)
    requires
        0 <= i < 81,
    ensures
        0 <= subgrid_at(i / 9, i % 9) < 9,
        subgrid_cell(subgrid_at(i / 9, i % 9), ((i / 9) % 3) * 3 + (i % 9) % 3) == i,
{
}

/// The Sudoku rule cell by cell: on a valid board two different cells of
/// one row, one column or one subgrid never hold the same digit.
pub proof fn lemma_valid_cells_differ(board: Board, i: int, j: int)
    requires
        valid(board),
        0 <= i < 81,
        0 <= j < 81,
        i != j,
        share_unit(i, j),
        board[i] is Some,
    ensures
        board[i] != board[j],
{
    let low = if i < j { i } else { j };
    let high = if i < j { j } else { i };
    if board[i] == board[j] {
        if i / 9 == j / 9 {
            let row = row_of(board, i / 9);
            assert(distinct(row));
            assert(row[low % 9] == board[low] && row[high % 9] == board[high]);
        } else if i % 9 == j % 9 {
            let column = column_of(board, i % 9);
            assert(distinct(column));
            assert(column[low / 9] == board[low] && column[high / 9] == board[high]);
        } else {
            let s = subgrid_at(i / 9, i % 9);
            let subgrid = subgrid_of(board, s);
            let at_i = ((i / 9) % 3) * 3 + (i % 9) % 3;
            let at_j = ((j / 9) % 3) * 3 + (j % 9) % 3;
            lemma_cell_in_subgrid(i);
            lemma_cell_in_subgrid(j);
            assert(distinct(subgrid));
            assert(subgrid[at_i] == board[i] && subgrid[at_j] == board[j]);
            assert(at_i != at_j);
        }
    }
}

/// A digit is among the values of a unit exactly when a cell of the unit
/// holds it.
pub proof fn lemma_values_of_contains(unit: Seq<Option<u8>>, v: u8)
    ensures
        values_of(unit).contains(v) <==> unit.contains(Some(v)),
    decreases unit.len(),
{
    if unit.len() > 0 {
        let front = unit.drop_last();
        lemma_values_of_contains(front, v);
        if unit.contains(Some(v)) {
            let k = choose|k: int| 0 <= k < unit.len() && unit[k] == Some(v);
            if k < unit.len() - 1 {
                assert(front[k] == Some(v));
                assert(values_of(front).contains(v));
                let j = choose|j: int| 0 <= j < values_of(front).len() && values_of(front)[j] == v;
                assert(values_of(unit)[j] == v);
            } else {
                assert(values_of(unit) == values_of(front).push(v));
                assert(values_of(unit)[values_of(front).len() as int] == v);
            }
        }
        if values_of(unit).contains(v) {
            let j = choose|j: int| 0 <= j < values_of(unit).len() && values_of(unit)[j] == v;
            if j < values_of(front).len() {
                assert(values_of(front)[j] == v);
                assert(values_of(front).contains(v));
                let k = choose|k: int| 0 <= k < front.len() && front[k] == Some(v);
                assert(unit[k] == Some(v));
            } else {
                assert(unit.last() == Some(v));
                assert(unit[unit.len() - 1] == Some(v));
            }
        }
    }
}

/// The values of a unit repeat no digit exactly when the unit is distinct.
pub proof fn lemma_values_of_distinct(unit: Seq<Option<u8>>)
    ensures
        values_of(unit).no_duplicates() <==> distinct(unit),
    decreases unit.len(),
{
    if unit.len() > 0 {
        let front = unit.drop_last();
        let n = unit.len() - 1;
        lemma_values_of_distinct(front);
        match unit.last() {
            None => {
                if distinct(unit) {
                    assert forall|a: int, b: int| 0 <= a < b < front.len() && front[a] is Some
                        implies front[a] != front[b] by {
                        assert(unit[a] == front[a] && unit[b] == front[b]);
                    }
                }
                if distinct(front) {
                    assert forall|a: int, b: int| 0 <= a < b < unit.len() && unit[a] is Some
                        implies unit[a] != unit[b] by {
                        if b < n {
                            assert(unit[a] == front[a] && unit[b] == front[b]);
                        }
                    }
                }
            },
            Some(v) => {
                let vals = values_of(front);
                lemma_values_of_contains(front, v);
                assert(values_of(unit) == vals.push(v));
                if distinct(unit) {
                    assert forall|a: int, b: int| 0 <= a < b < front.len() && front[a] is Some
                        implies front[a] != front[b] by {
                        assert(unit[a] == front[a] && unit[b] == front[b]);
                    }
                    if front.contains(Some(v)) {
                        let k = choose|k: int| 0 <= k < front.len() && front[k] == Some(v);
                        assert(unit[k] == unit[n]);
                    }
                    assert(!vals.contains(v));
                    assert forall|i: int, j: int|
                        0 <= i < vals.push(v).len() && 0 <= j < vals.push(v).len() && i != j
                        implies vals.push(v)[i] != vals.push(v)[j] by {
                        if i < vals.len() && j < vals.len() {
                        } else if i < vals.len() {
                            assert(vals[i] != v);
                        } else {
                            assert(vals[j] != v);
                        }
                    }
                }
                if values_of(unit).no_duplicates() {
                    assert forall|i: int, j: int| 0 <= i < vals.len() && 0 <= j < vals.len() && i != j
                        implies vals[i] != vals[j] by {
                        assert(vals.push(v)[i] == vals[i] && vals.push(v)[j] == vals[j]);
                    }
                    if vals.contains(v) {
                        let j = choose|j: int| 0 <= j < vals.len() && vals[j] == v;
                        assert(vals.push(v)[j] == vals.push(v)[vals.len() as int]);
                    }
                    assert(!front.contains(Some(v)));
                    assert forall|a: int, b: int| 0 <= a < b < unit.len() && unit[a] is Some
                        implies unit[a] != unit[b] by {
                        assert(unit[a] == front[a]);
                        if b < n {
                            assert(unit[b] == front[b]);
                        } else {
                            assert(front.contains(front[a]));
                        }
                    }
                }
            },
        }
    }
}

/// Taking digits away keeps a board valid: whatever a valid board extends is
/// valid too.
pub proof fn lemma_extended_is_valid(upper: Board, lower: Board)
    requires
        valid(upper),
        extends(upper, lower),
    ensures
        valid(lower),
{
    assert forall|i: int| 0 <= i < 81 implies (#[trigger] lower[i] matches Some(v) ==> 1 <= v
        <= 9) by {
        if lower[i] is Some {
            assert(upper[i] == lower[i]);
        }
    }
    assert forall|u: int| 0 <= u < 9 implies distinct(#[trigger] row_of(lower, u)) by {
        assert(distinct(row_of(upper, u)));
        assert forall|a: int, b: int|
            0 <= a < b < 9 && row_of(lower, u)[a] is Some implies row_of(lower, u)[a] != row_of(
            lower,
            u,
        )[b] by {
            if row_of(lower, u)[a] == row_of(lower, u)[b] {
                assert(row_of(upper, u)[a] == lower[row_cell(u, a)]);
                assert(row_of(upper, u)[b] == lower[row_cell(u, b)]);
            }
        }
    }
    assert forall|u: int| 0 <= u < 9 implies distinct(#[trigger] column_of(lower, u)) by {
        assert(distinct(column_of(upper, u)));
        assert forall|a: int, b: int|
            0 <= a < b < 9 && column_of(lower, u)[a] is Some implies column_of(lower, u)[a]
            != column_of(lower, u)[b] by {
            if column_of(lower, u)[a] == column_of(lower, u)[b] {
                assert(column_of(upper, u)[a] == lower[column_cell(u, a)]);
                assert(column_of(upper, u)[b] == lower[column_cell(u, b)]);
            }
        }
    }
    assert forall|u: int| 0 <= u < 9 implies distinct(#[trigger] subgrid_of(lower, u)) by {
        assert(distinct(subgrid_of(upper, u)));
        assert forall|a: int, b: int|
            0 <= a < b < 9 && subgrid_of(lower, u)[a] is Some implies subgrid_of(lower, u)[a]
            != subgrid_of(lower, u)[b] by {
            lemma_subgrid_cell(u, a);
            lemma_subgrid_cell(u, b);
            if subgrid_of(lower, u)[a] == subgrid_of(lower, u)[b] {
                assert(subgrid_of(upper, u)[a] == lower[subgrid_cell(u, a)]);
                assert(subgrid_of(upper, u)[b] == lower[subgrid_cell(u, b)]);
            }
        }
    }
}

/// Writing a digit into a valid board gives a valid board as soon as the
/// three units of the written cell are distinct: no other unit changes.
pub proof fn lemma_write_keeps_valid(board: Board, i: int, v: u8)
    requires
        valid(board),
        0 <= i < 81,
        1 <= v <= 9,
        units_distinct_at(board.update(i, Some(v)), i),
    ensures
        valid(board.update(i, Some(v))),
{
    let written = board.update(i, Some(v));
    assert forall|u: int| 0 <= u < 9 implies distinct(#[trigger] row_of(written, u)) by {
        if u != i / 9 {
            assert(row_of(written, u) =~= row_of(board, u));
        }
    }
    assert forall|u: int| 0 <= u < 9 implies distinct(#[trigger] column_of(written, u)) by {
        if u != i % 9 {
            assert(column_of(written, u) =~= column_of(board, u));
        }
    }
    assert forall|u: int| 0 <= u < 9 implies distinct(#[trigger] subgrid_of(written, u)) by {
        if u != subgrid_at(i / 9, i % 9) {
            assert forall|k: int| 0 <= k < 9 implies subgrid_of(written, u)[k] == subgrid_of(
                board,
                u,
            )[k] by {
                lemma_subgrid_cell(u, k);
            }
            assert(subgrid_of(written, u) =~= subgrid_of(board, u));
        }
    }
}

} // verus!
