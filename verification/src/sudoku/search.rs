//! What the backtracking search finds: the first solution of a board in
//! row-major, ascending order, and the facts that each step of the search
//! rests on.

use vstd::prelude::*;
use crate::sudoku::board::{
    column_of, complete, distinct, extends, lemma_cell_in_subgrid, lemma_extended_is_valid,
    lemma_subgrid_cell, row_of, subgrid_of, units_distinct_at, used, valid, Board,
};
use crate::sudoku::option_finder::is_option_list;
use crate::sudoku::reference::subgrid_at;

verus! {

/// `full` is a solution of `puzzle`: a valid board with every cell filled
/// that keeps every digit of the puzzle.
pub open spec fn solves(full: Board, puzzle: Board) -> bool {
    valid(full) && complete(full) && extends(full, puzzle)
}

/// The two boards agree before cell `k`, and there `first` holds the
/// smaller digit.
pub open spec fn lower_at(first: Board, second: Board, k: int) -> bool {
    &&& 0 <= k < first.len()
    &&& forall|j: int| 0 <= j < k ==> first[j] == second[j]
    &&& first[k] matches Some(a) && second[k] matches Some(b) && a < b
}

/// `first` comes no later than `second` when full boards are ordered like
/// words, cell by cell in row-major order.
pub open spec fn precedes(first: Board, second: Board) -> bool {
    first == second || exists|k: int| #[trigger] lower_at(first, second, k)
}

/// `full` is the first solution of `puzzle`: a solution that precedes every
/// solution.
pub open spec fn first_solution(full: Board, puzzle: Board) -> bool {
    solves(full, puzzle) && forall|other: Board| #[trigger]
        solves(other, puzzle) ==> precedes(full, other)
}

/// The puzzle has no solution.
pub open spec fn unsolvable(puzzle: Board) -> bool {
    forall|full: Board| !#[trigger] solves(full, puzzle)
}

/// What a search of `puzzle` ends with: its first solution, or nothing when
/// it has none.
pub open spec fn is_outcome(puzzle: Board, outcome: Option<Board>) -> bool {
    match outcome {
        Some(full) => first_solution(full, puzzle),
        None => unsolvable(puzzle),
    }
}

/// Every cell before position `n` is filled.
pub open spec fn filled_before(board: Board, n: int) -> bool {
    forall|j: int| 0 <= j < n && j < board.len() ==> (#[trigger] board[j]) is Some
}

/// The position at which the search stands when it looks at (`row`,
/// `column`); a column of 9 is the start of the next row, and a row of 9 or
/// more is the end of the board.
pub open spec fn search_position(row: int, column: int) -> int {
    if row >= 9 {
        81
    } else {
        row * 9 + column
    }
}

/// No solution of `puzzle` has digit `v` in cell `i`.
pub open spec fn no_solution_with(puzzle: Board, i: int, v: u8) -> bool {
    forall|full: Board| #[trigger] solves(full, puzzle) ==> full[i] != Some(v)
}

/// A puzzle has at most one first solution, so its search has one outcome:
/// searching twice gives the same.
pub proof fn lemma_outcome_unique(puzzle: Board, one: Option<Board>, other: Option<Board>)
    requires
        is_outcome(puzzle, one),
        is_outcome(puzzle, other),
    ensures
        one == other,
{
    match (one, other) {
        (Some(a), Some(b)) => {
            assert(solves(a, puzzle) && solves(b, puzzle));
            assert(precedes(a, b) && precedes(b, a));
            if a != b {
                let i = choose|k: int| #[trigger] lower_at(a, b, k);
                let j = choose|k: int| #[trigger] lower_at(b, a, k);
                if i < j {
                    assert(b[i] == a[i]);
                } else if j < i {
                    assert(a[j] == b[j]);
                }
            }
        },
        (Some(a), None) => {
            assert(solves(a, puzzle));
        },
        (None, Some(b)) => {
            assert(solves(b, puzzle));
        },
        (None, None) => {},
    }
}

/// A valid board with every cell filled is its own first solution, and its
/// only one.
pub proof fn lemma_full_board_solves_itself(board: Board)
    requires
        valid(board),
        complete(board),
    ensures
        first_solution(board, board),
        forall|other: Board| #[trigger] solves(other, board) ==> other == board,
{
    assert forall|other: Board| #[trigger] solves(other, board) implies other == board by {
        assert(other =~= board);
    }
}

/// In a solution of a puzzle, the digit of a cell that the puzzle leaves
/// empty is one of the cell's candidates: it is not in use on the puzzle.
pub proof fn lemma_solution_digit_is_unused(full: Board, puzzle: Board, i: int)
    requires
        solves(full, puzzle),
        0 <= i < 81,
        puzzle[i] is None,
    ensures
        full[i] matches Some(v) && 1 <= v <= 9 && !used(puzzle, i, v),
{
    let v = full[i].unwrap();
    let row = i / 9;
    let column = i % 9;
    let subgrid = subgrid_at(row, column);
    if row_of(puzzle, row).contains(Some(v)) {
        let k = choose|k: int| 0 <= k < 9 && row_of(puzzle, row)[k] == Some(v);
        assert(row_of(full, row)[k] == Some(v));
        assert(row_of(full, row)[column] == Some(v));
        assert(distinct(row_of(full, row)));
    }
    if column_of(puzzle, column).contains(Some(v)) {
        let k = choose|k: int| 0 <= k < 9 && column_of(puzzle, column)[k] == Some(v);
        assert(column_of(full, column)[k] == Some(v));
        assert(column_of(full, column)[row] == Some(v));
        assert(distinct(column_of(full, column)));
    }
    if subgrid_of(puzzle, subgrid).contains(Some(v)) {
        lemma_cell_in_subgrid(i);
        let here = (row % 3) * 3 + column % 3;
        let k = choose|k: int| 0 <= k < 9 && subgrid_of(puzzle, subgrid)[k] == Some(v);
        lemma_subgrid_cell(subgrid, k);
        assert(subgrid_of(full, subgrid)[k] == Some(v));
        assert(subgrid_of(full, subgrid)[here] == Some(v));
        assert(distinct(subgrid_of(full, subgrid)));
    }
}

/// A digit whose write the grid refuses is in no solution: the clash that
/// it makes stays in every board that keeps it.
pub proof fn lemma_refused_digit(puzzle: Board, i: int, v: u8)
    requires
        puzzle.len() == 81,
        0 <= i < 81,
        !units_distinct_at(puzzle.update(i, Some(v)), i),
    ensures
        no_solution_with(puzzle, i, v),
{
    let written = puzzle.update(i, Some(v));
    assert forall|full: Board| #[trigger] solves(full, puzzle) implies full[i] != Some(v) by {
        if full[i] == Some(v) {
            assert(extends(full, written));
            lemma_extended_is_valid(full, written);
            lemma_cell_in_subgrid(i);
            assert(distinct(row_of(written, i / 9)));
            assert(distinct(column_of(written, i % 9)));
            assert(distinct(subgrid_of(written, subgrid_at(i / 9, i % 9))));
        }
    }
}

/// A digit after whose write the rest cannot be solved is in no solution.
pub proof fn lemma_failed_digit(puzzle: Board, i: int, v: u8)
    requires
        puzzle.len() == 81,
        0 <= i < 81,
        unsolvable(puzzle.update(i, Some(v))),
    ensures
        no_solution_with(puzzle, i, v),
{
    let written = puzzle.update(i, Some(v));
    assert forall|full: Board| #[trigger] solves(full, puzzle) implies full[i] != Some(v) by {
        if full[i] == Some(v) {
            assert(extends(full, written));
            assert(solves(full, written));
        }
    }
}

/// The step that ends a search with success. The search stands at the empty
/// cell `i` of `board` with everything before it filled; `options` are the
/// candidates of the cell on `puzzle`, which `board` extends; the digits
/// before `options[k]` are in no solution of `board`. Then the first
/// solution of `board` with `options[k]` written is the first solution of
/// `board`.
pub proof fn lemma_first_digit_found(
    board: Board,
    puzzle: Board,
    i: int,
    options: Seq<u8>,
    k: int,
    full: Board,
)
    requires
        valid(board),
        extends(board, puzzle),
        0 <= i < 81,
        board[i] is None,
        filled_before(board, i),
        is_option_list(puzzle, i, options),
        0 <= k < options.len(),
        forall|j: int| 0 <= j < k ==> no_solution_with(board, i, #[trigger] options[j]),
        first_solution(full, board.update(i, Some(options[k]))),
    ensures
        first_solution(full, board),
{
    let v = options[k];
    let written = board.update(i, Some(v));
    assert forall|m: int| 0 <= m < 81 && (#[trigger] board[m]) is Some implies full[m]
        == board[m] by {
        assert(written[m] == board[m]);
    }
    assert(full[i] == Some(v)) by {
        assert(written[i] is Some);
    }
    assert forall|other: Board| #[trigger] solves(other, board) implies precedes(full, other) by {
        assert(solves(other, puzzle));
        lemma_solution_digit_is_unused(other, puzzle, i);
        let w = other[i].unwrap();
        assert(options.contains(w));
        let j = choose|j: int| 0 <= j < options.len() && options[j] == w;
        if j < k {
            assert(no_solution_with(board, i, options[j]));
        } else if j == k {
            assert(extends(other, written));
            assert(solves(other, written));
        } else {
            assert forall|m: int| 0 <= m < i implies full[m] == other[m] by {
                assert(board[m] is Some);
            }
            assert(lower_at(full, other, i));
        }
    }
}

/// The step that ends a search of one cell with failure: when no candidate
/// of the empty cell `i` is in a solution of `board`, `board` has none.
pub proof fn lemma_no_digit_left(board: Board, puzzle: Board, i: int, options: Seq<u8>)
    requires
        extends(board, puzzle),
        0 <= i < 81,
        board.len() == 81,
        board[i] is None,
        is_option_list(puzzle, i, options),
        forall|j: int| 0 <= j < options.len() ==> no_solution_with(board, i, #[trigger] options[j]),
    ensures
        unsolvable(board),
{
    assert forall|full: Board| !#[trigger] solves(full, board) by {
        if solves(full, board) {
            assert(solves(full, puzzle));
            lemma_solution_digit_is_unused(full, puzzle, i);
            let w = full[i].unwrap();
            assert(options.contains(w));
            let j = choose|j: int| 0 <= j < options.len() && options[j] == w;
            assert(no_solution_with(board, i, options[j]));
        }
    }
}

} // verus!
