//! The candidate finder: the digits that may still go into a cell.

use vstd::prelude::*;
use vstd::seq_lib::to_multiset_contains;
use crate::sudoku::board::{
    column_of, is_board, lemma_values_of_contains, row_of, subgrid_of, used, values_of, Board,
};
use crate::sudoku::grid::Grid;
use crate::sudoku::reference::{subgrid_at, GridReference};
use crate::sudoku::sorting::{dedup, lemma_strictly_ascending_unique, sort, strictly_ascending};

verus! {

/// The candidates of a cell, in ascending order.
pub type OptionList = Vec<u8>;

/// `list` is the list of candidates of cell `i` on `board`: in strictly
/// ascending order, the digits from 1 to 9 that stand neither in the cell's
/// row nor in its column nor in its subgrid; nothing at all for a filled
/// cell. There is one such list for each cell.
pub open spec fn is_option_list(board: Board, i: int, list: Seq<u8>) -> bool {
    &&& strictly_ascending(list)
    &&& forall|v: u8| #[trigger]
        list.contains(v) <==> board[i] is None && 1 <= v <= 9 && !used(board, i, v)
}

/// A cell has one list of candidates: two lists that both are it are equal.
pub proof fn lemma_option_list_unique(board: Board, i: int, one: Seq<u8>, other: Seq<u8>)
    requires
        is_option_list(board, i, one),
        is_option_list(board, i, other),
    ensures
        one == other,
{
    lemma_strictly_ascending_unique(one, other);
}

/// The candidates of a cell are digits from 1 to 9, none of which stands in
/// the cell's row, in its column or in its subgrid; a filled cell has no
/// candidates.
pub proof fn lemma_option_list_avoids_units(board: Board, i: int, list: Seq<u8>)
    requires
        is_option_list(board, i, list),
    ensures
        board[i] is Some ==> list.len() == 0,
        forall|k: int|
            0 <= k < list.len() ==> {
                &&& 1 <= #[trigger] list[k] <= 9
                &&& !row_of(board, i / 9).contains(Some(list[k]))
                &&& !column_of(board, i % 9).contains(Some(list[k]))
                &&& !subgrid_of(board, subgrid_at(i / 9, i % 9)).contains(Some(list[k]))
            },
{
    if list.len() > 0 {
        assert(list.contains(list[0]));
    }
    assert forall|k: int| 0 <= k < list.len() implies {
        &&& 1 <= #[trigger] list[k] <= 9
        &&& !used(board, i, list[k])
    } by {
        assert(list.contains(list[k]));
    }
}

/// Something that knows the candidates of every cell of one board.
pub trait OptionFinder {
    /// The finder is in a state in which it may be asked.
    spec fn wf(&self) -> bool;

    /// The board whose candidates the finder reports.
    spec fn problem(&self) -> Board;

    /// The candidates of the cell on the finder's board.
    fn find_for_cell(&mut self, grid_ref: &GridReference) -> (options: OptionList)
        requires
            old(self).wf(),
        ensures
            final(self).wf(),
            final(self).problem() == old(self).problem(),
            is_option_list(old(self).problem(), grid_ref.index(), options@),
    ;
}

/// The finder that works the candidates out from the grid on every call.
#[derive(Debug)]
pub struct StandardOptionFinder<'problem> {
    problem: &'problem Grid,
}

impl<'problem> StandardOptionFinder<'problem> {
    /// A finder that reads `problem`.
    pub fn new(problem: &'problem Grid) -> (finder: StandardOptionFinder<'problem>)
        ensures
            finder.problem() == problem@,
    {
        Self { problem }
    }

    /// The digits that stand in the cell's row, column or subgrid, each
    /// once, in ascending order.
    fn build_used_list(&self, grid_ref: &GridReference) -> (used_values: OptionList)
        requires
            is_board(self.problem()),
        ensures
            strictly_ascending(used_values@),
            forall|v: u8| #[trigger]
                used_values@.contains(v) <==> used(self.problem(), grid_ref.index(), v),
    {
        let ghost i = grid_ref.index();
        let ghost row = row_of(self.problem(), grid_ref.row());
        let ghost column = column_of(self.problem(), grid_ref.column());
        let ghost subgrid = subgrid_of(
            self.problem(),
            subgrid_at(grid_ref.row(), grid_ref.column()),
        );
        let mut used_values: OptionList = self.problem.row_values(grid_ref.row_ref());
        let mut column_values: OptionList = self.problem.col_values(grid_ref.column_ref());
        let mut subgrid_values: OptionList = self.problem.subgrid_values_at(grid_ref);

        used_values.append(&mut column_values);
        used_values.append(&mut subgrid_values);
        let ghost gathered = used_values@;
        proof {
            assert(gathered == values_of(row) + values_of(column) + values_of(subgrid));
            assert forall|v: u8| #[trigger]
                gathered.contains(v) <==> used(self.problem(), i, v) by {
                lemma_values_of_contains(row, v);
                lemma_values_of_contains(column, v);
                lemma_values_of_contains(subgrid, v);
                lemma_contains_of_three(values_of(row), values_of(column), values_of(subgrid), v);
            }
        }

        sort(&mut used_values);
        proof {
            assert forall|v: u8| #[trigger]
                used_values@.contains(v) <==> gathered.contains(v) by {
                to_multiset_contains(used_values@, v);
                to_multiset_contains(gathered, v);
            }
        }
        dedup(&mut used_values);

        used_values
    }
}

impl<'problem> OptionFinder for StandardOptionFinder<'problem> {
    /// The grid that the finder reads is a board.
    open spec fn wf(&self) -> bool {
        is_board(self.problem())
    }

    closed spec fn problem(&self) -> Board {
        self.problem@
    }

    /// The candidates of the cell on the grid as it is now: nothing for a
    /// filled cell; otherwise the digits from 1 to 9 less those in use in
    /// the cell's row, column and subgrid.
    fn find_for_cell(&mut self, grid_ref: &GridReference) -> (options: OptionList) {
        // Early out: a cell that has a value has no options
        if self.problem.cell(grid_ref).is_some() {
            return Vec::new();
        }
        let mut options: OptionList = vec![1, 2, 3, 4, 5, 6, 7, 8, 9];
        let used_vals = self.build_used_list(grid_ref);
        proof {
            assert forall|v: u8| #[trigger] options@.contains(v) <==> 1 <= v <= 9 by {
                if 1 <= v <= 9 {
                    assert(options@[v - 1] == v);
                }
            }
        }

        let mut k: usize = 0;
        while k < used_vals.len()
            invariant
                k <= used_vals@.len(),
                strictly_ascending(options@),
                forall|v: u8| #[trigger]
                    options@.contains(v) <==> 1 <= v <= 9 && !used_vals@.take(k as int).contains(v),
            decreases used_vals@.len() - k,
        {
            let value: u8 = used_vals[k];
            let ghost before = options@;
            let found: Option<usize> = position(&options, value);
            if let Some(index) = found {
                options.remove(index);
                proof {
                    lemma_remove_from_strictly_ascending(before, index as int);
                }
            }
            proof {
                let seen = used_vals@.take(k as int);
                let seen_next = used_vals@.take(k + 1);
                assert(seen_next =~= seen.push(value));
                assert forall|v: u8| #[trigger]
                    options@.contains(v) <==> 1 <= v <= 9 && !seen_next.contains(v) by {
                    if seen_next.contains(v) && v != value {
                        let j = choose|j: int| 0 <= j < seen_next.len() && seen_next[j] == v;
                        assert(seen[j] == v);
                    }
                    if seen.contains(v) {
                        let j = choose|j: int| 0 <= j < seen.len() && seen[j] == v;
                        assert(seen_next[j] == v);
                    }
                    if v == value {
                        assert(seen_next[k as int] == v);
                    }
                }
            }
            k = k + 1;
        }
        proof {
            assert(used_vals@.take(used_vals@.len() as int) =~= used_vals@);
        }
        options
    }
}

/// The place of the first element equal to `value`, if there is one.
fn position(list: &Vec<u8>, value: u8) -> (found: Option<usize>)
    ensures
        match found {
            Some(index) => index < list@.len() && list@[index as int] == value && forall|j: int|
                0 <= j < index ==> list@[j] != value,
            None => !list@.contains(value),
        },
{
    let mut index: usize = 0;
    while index < list.len()
        invariant
            index <= list@.len(),
            forall|j: int| 0 <= j < index ==> list@[j] != value,
        decreases list@.len() - index,
    {
        if list[index] == value {
            return Some(index);
        }
        index = index + 1;
    }
    None
}

/// A value is in the concatenation of three lists exactly when it is in one
/// of them.
proof fn lemma_contains_of_three(a: Seq<u8>, b: Seq<u8>, c: Seq<u8>, v: u8)
    ensures
        (a + b + c).contains(v) <==> a.contains(v) || b.contains(v) || c.contains(v),
{
    let all = a + b + c;
    if a.contains(v) {
        let j = choose|j: int| 0 <= j < a.len() && a[j] == v;
        assert(all[j] == v);
    }
    if b.contains(v) {
        let j = choose|j: int| 0 <= j < b.len() && b[j] == v;
        assert(all[a.len() + j] == v);
    }
    if c.contains(v) {
        let j = choose|j: int| 0 <= j < c.len() && c[j] == v;
        assert(all[a.len() + b.len() + j] == v);
    }
    if all.contains(v) {
        let j = choose|j: int| 0 <= j < all.len() && all[j] == v;
        if j < a.len() {
            assert(a[j] == v);
        } else if j < a.len() + b.len() {
            assert(b[j - a.len()] == v);
        } else {
            assert(c[j - a.len() - b.len()] == v);
        }
    }
}

/// Taking one element out of a strictly ascending list leaves it strictly
/// ascending, without that element's value and with every other.
proof fn lemma_remove_from_strictly_ascending(list: Seq<u8>, index: int)
    requires
        strictly_ascending(list),
        0 <= index < list.len(),
    ensures
        strictly_ascending(list.remove(index)),
        !list.remove(index).contains(list[index]),
        forall|v: u8|
            v != list[index] ==> (#[trigger] list.remove(index).contains(v) <==> list.contains(v)),
{
    let rest = list.remove(index);
    assert forall|j: int| 0 <= j < rest.len() implies #[trigger] rest[j] == (if j < index {
        list[j]
    } else {
        list[j + 1]
    }) by {}
    assert forall|i: int, j: int| 0 <= i < j < rest.len() implies rest[i] < rest[j] by {
        let from_i = if i < index { i } else { i + 1 };
        let from_j = if j < index { j } else { j + 1 };
        assert(rest[i] == list[from_i] && rest[j] == list[from_j]);
    }
    if rest.contains(list[index]) {
        let j = choose|j: int| 0 <= j < rest.len() && rest[j] == list[index];
        let from_j = if j < index { j } else { j + 1 };
        assert(rest[j] == list[from_j]);
        if from_j < index {
            assert(list[from_j] < list[index]);
        } else {
            assert(list[index] < list[from_j]);
        }
    }
    assert forall|v: u8| v != list[index] implies (#[trigger] rest.contains(v) <==> list.contains(
        v,
    )) by {
        if rest.contains(v) {
            let j = choose|j: int| 0 <= j < rest.len() && rest[j] == v;
            let from_j = if j < index { j } else { j + 1 };
            assert(list[from_j] == v);
        }
        if list.contains(v) {
            let j = choose|j: int| 0 <= j < list.len() && list[j] == v;
            let to_j = if j < index { j } else { j - 1 };
            assert(rest[to_j] == v);
        }
    }
}

} // verus!
