//! The grid: 81 cells in row-major order, read by row, column and subgrid,
//! and written only through calls that keep the Sudoku rule.

use vstd::prelude::*;
use crate::sudoku::board::{
    column_of, distinct, empty_board, is_board, lemma_extended_is_valid, lemma_subgrid_cell,
    lemma_values_of_distinct, lemma_write_keeps_valid, row_of, subgrid_of, units_distinct_at, valid,
    values_of, Board,
};
use crate::sudoku::error::{
    AnswerRangeError, InvalidColumn, SudokuError, UniquenessConstraint, UniquenessError,
};
use crate::sudoku::reference::{
    subgrid_at, ColumnReference, GridReference, RowReference, SubgridReference,
};
use crate::sudoku::sorting::{
    ascending, lemma_ascending_repeat_is_adjacent, lemma_same_elements_same_repeats, sort,
};

verus! {

/// The smallest digit a cell can hold.
pub const MIN_VALID_VAL: u8 = 1;

/// The largest digit a cell can hold.
pub const MAX_VALID_VAL: u8 = 9;

/// A digit from 1 to 9.
#[derive(Debug, Clone, Copy, PartialEq, Eq, Structural)]
pub struct CellValue {
    value: u8,
}

impl CellValue {
    #[verifier::type_invariant]
    spec fn in_range(self) -> bool {
        1 <= self.value <= 9
    }

    /// The digit held.
    pub closed spec fn digit(&self) -> u8 {
        self.value
    }

    /// `Ok` exactly for `1 <= value <= 9`; otherwise the error carries
    /// `value`.
    pub fn new(value: u8) -> (res: Result<Self, AnswerRangeError>)
        ensures
            1 <= value <= 9 ==> res is Ok && res->Ok_0.digit() == value,
            !(1 <= value <= 9) ==> res == Err::<Self, AnswerRangeError>(
                AnswerRangeError { value },
            ),
    {
        match Self::validate_cell_value(value) {
            Ok(value) => Ok(Self { value }),
            Err(e) => Err(e),
        }
    }

    pub fn value(&self) -> (value: u8)
        ensures
            value == self.digit(),
            1 <= value <= 9,
    {
        proof {
            use_type_invariant(self);
        }
        self.value
    }

    fn validate_cell_value(value: u8) -> (res: Result<u8, AnswerRangeError>)
        ensures
            1 <= value <= 9 ==> res == Ok::<u8, AnswerRangeError>(value),
            !(1 <= value <= 9) ==> res == Err::<u8, AnswerRangeError>(AnswerRangeError { value }),
    {
        if MIN_VALID_VAL <= value && value <= MAX_VALID_VAL {
            Ok(value)
        } else {
            Err(AnswerRangeError::new(value))
        }
    }
}

/// The unit that makes a write at cell `i` fail: the first of row, column
/// and subgrid, in this order, that holds a digit twice; `None` when all
/// three are distinct.
pub open spec fn first_violation(board: Board, i: int) -> Option<UniquenessConstraint> {
    if !distinct(row_of(board, i / 9)) {
        Some(UniquenessConstraint::Row)
    } else if !distinct(column_of(board, i % 9)) {
        Some(UniquenessConstraint::Column)
    } else if !distinct(subgrid_of(board, subgrid_at(i / 9, i % 9))) {
        Some(UniquenessConstraint::SubGrid)
    } else {
        None
    }
}

/// The cells of a 9x9 array, rows outer, as a board.
pub open spec fn cells_of(rows: [[Option<u8>; 9]; 9]) -> Board {
    Seq::new(81, |i: int| rows@[i / 9]@[i % 9])
}

/// The board that holds the first `n` of `cells` and is empty after them.
pub open spec fn first_cells(cells: Board, n: int) -> Board {
    Seq::new(
        81,
        |i: int|
            if i < n {
                cells[i]
            } else {
                None
            },
    )
}

/// Filling a grid cell by cell, cell `n` is the first that is refused.
pub open spec fn first_rejected(cells: Board, n: int) -> bool {
    valid(first_cells(cells, n)) && !valid(first_cells(cells, n + 1))
}

/// The error for the refused cell `n`: a digit out of range before any
/// clash of digits.
pub open spec fn rejection(cells: Board, n: int) -> SudokuError {
    let value = cells[n].unwrap();
    if !(1 <= value <= 9) {
        SudokuError::AnswerRange(AnswerRangeError { value })
    } else {
        SudokuError::Uniqueness(
            UniquenessError {
                row: (n / 9) as usize,
                column: (n % 9) as usize,
                value,
                violation: first_violation(first_cells(cells, n + 1), n).unwrap(),
            },
        )
    }
}

/// A 9x9 Sudoku grid.
#[derive(Debug)]
pub struct Grid {
    grid_data: Vec<Option<u8>>,
}

impl View for Grid {
    type V = Board;

    closed spec fn view(&self) -> Board {
        self.grid_data@
    }
}

impl Clone for Grid {
    fn clone(&self) -> (copy: Self)
        ensures
            copy@ == self@,
    {
        let mut grid_data: Vec<Option<u8>> = Vec::new();
        let mut i: usize = 0;
        while i < self.grid_data.len()
            invariant
                i <= self.grid_data@.len(),
                grid_data@ == self.grid_data@.take(i as int),
            decreases self.grid_data@.len() - i,
        {
            grid_data.push(self.grid_data[i]);
            proof {
                assert(self.grid_data@.take(i + 1) =~= self.grid_data@.take(i as int).push(
                    self.grid_data@[i as int],
                ));
            }
            i = i + 1;
        }
        proof {
            assert(self.grid_data@.take(self.grid_data@.len() as int) =~= self.grid_data@);
        }
        Grid { grid_data }
    }
}

impl Grid {
    /// The invariant of a grid: its board is valid. Every function that
    /// makes or changes a grid keeps it. The functions that only read ask
    /// for less, a board of 81 cells with digits from 1 to 9, so that a
    /// write can be checked before it is settled.
    pub open spec fn wf(&self) -> bool {
        valid(self@)
    }

    /// The empty grid.
    pub fn new() -> (grid: Self)
        ensures
            grid.wf(),
            grid@ == empty_board(),
    {
        let mut grid_data: Vec<Option<u8>> = Vec::new();
        let mut i: usize = 0;
        while i < 81
            invariant
                i <= 81,
                grid_data@ == Seq::new(i as nat, |k: int| None::<u8>),
            decreases 81 - i,
        {
            grid_data.push(None);
            proof {
                assert(grid_data@ =~= Seq::new((i + 1) as nat, |k: int| None::<u8>));
            }
            i = i + 1;
        }
        let grid = Self { grid_data };
        proof {
            lemma_empty_board_valid();
        }
        grid
    }

    /// Builds a grid from 81 optional digits, rows outer, writing the filled
    /// cells in row-major order. It succeeds exactly when the array is a
    /// valid board, and the grid then holds the array. Otherwise the error
    /// is that of the first cell that cannot be written: its digit is out of
    /// range, or it repeats a digit written before it.
    pub fn from_array(array_grid: [[Option<u8>; 9]; 9]) -> (res: Result<Self, SudokuError>)
        ensures
            res is Ok <==> valid(cells_of(array_grid)),
            match res {
                Ok(grid) => grid.wf() && grid@ == cells_of(array_grid),
                Err(e) => exists|n: int|
                    0 <= n < 81 && #[trigger] first_rejected(cells_of(array_grid), n) && e
                        == rejection(cells_of(array_grid), n),
            },
    {
        let ghost cells = cells_of(array_grid);
        let mut this_grid = Self::new();
        proof {
            assert(this_grid@ =~= first_cells(cells, 0));
        }
        let mut row: usize = 0;
        while row < 9
            invariant
                row <= 9,
                cells == cells_of(array_grid),
                this_grid.wf(),
                this_grid@ == first_cells(cells, row * 9),
            decreases 9 - row,
        {
            let mut col: usize = 0;
            while col < 9
                invariant
                    row < 9,
                    col <= 9,
                    cells == cells_of(array_grid),
                    this_grid.wf(),
                    this_grid@ == first_cells(cells, row * 9 + col),
                decreases 9 - col,
            {
                let ghost n = row * 9 + col;
                let val: Option<u8> = array_grid[row][col];
                proof {
                    assert(cells[n] == val);
                }
                match val {
                    Some(digit) => {
                        let grid_ref = match GridReference::from_numbers(row, col) {
                            Ok(grid_ref) => grid_ref,
                            Err(e) => {
                                return Err(e);
                            },
                        };
                        let value = match CellValue::new(digit) {
                            Ok(value) => value,
                            Err(e) => {
                                proof {
                                    assert(first_cells(cells, n + 1)[n] == Some(digit));
                                    assert(first_rejected(cells, n));
                                    lemma_bad_start_is_invalid(cells, n + 1);
                                }
                                return Err(SudokuError::AnswerRange(e));
                            },
                        };
                        proof {
                            assert(this_grid@.update(n, Some(digit)) =~= first_cells(cells, n + 1));
                        }
                        match this_grid.set_cell(&grid_ref, &value) {
                            Ok(_) => {},
                            Err(e) => {
                                proof {
                                    assert(first_rejected(cells, n));
                                    lemma_bad_start_is_invalid(cells, n + 1);
                                }
                                return Err(SudokuError::Uniqueness(e));
                            },
                        }
                    },
                    None => {
                        proof {
                            assert(this_grid@ =~= first_cells(cells, n + 1));
                        }
                    },
                }
                col = col + 1;
            }
            row = row + 1;
        }
        proof {
            assert(this_grid@ =~= cells);
        }
        Ok(this_grid)
    }

    /// The value of one cell.
    pub fn cell(&self, grid_ref: &GridReference) -> (value: &Option<u8>)
        requires
            is_board(self@),
        ensures
            *value == self@[grid_ref.index()],
    {
        &self.grid_data[grid_ref.to_index()]
    }

    /// The nine cells of a row, left to right.
    pub fn row(&self, row_ref: &RowReference) -> (row: &[Option<u8>])
        requires
            is_board(self@),
        ensures
            row@ == row_of(self@, row_ref.index()),
    {
        let row: usize = row_ref.row();
        let cells = &self.grid_data[row * 9..(row + 1) * 9];
        proof {
            assert(cells@ =~= row_of(self@, row as int));
        }
        cells
    }

    /// The nine cells of a column, top to bottom: every ninth cell of the
    /// store, from the column's index on.
    pub fn column(&self, column_ref: &ColumnReference) -> (column: Vec<&Option<u8>>)
        requires
            is_board(self@),
        ensures
            column@.len() == 9,
            forall|k: int| 0 <= k < 9 ==> *column@[k] == column_of(self@, column_ref.index())[k],
    {
        let first: usize = column_ref.column();
        let mut column: Vec<&Option<u8>> = Vec::new();
        let mut k: usize = 0;
        while k < 9
            invariant
                k <= 9,
                first < 9,
                first == column_ref.index(),
                is_board(self@),
                column@.len() == k,
                forall|j: int| 0 <= j < k ==> *column@[j] == column_of(self@, first as int)[j],
            decreases 9 - k,
        {
            column.push(&self.grid_data[k * 9 + first]);
            k = k + 1;
        }
        column
    }

    /// The nine cells of the column with the given index, top to bottom;
    /// an index of 9 or more is refused.
    pub fn col(&self, col_id: usize) -> (res: Result<Vec<&Option<u8>>, InvalidColumn>)
        requires
            is_board(self@),
        ensures
            col_id >= 9 ==> res == Err::<Vec<&Option<u8>>, InvalidColumn>(
                InvalidColumn { column_id: col_id },
            ),
            col_id < 9 ==> res is Ok && res->Ok_0@.len() == 9 && forall|k: int|
                0 <= k < 9 ==> *res->Ok_0@[k] == column_of(self@, col_id as int)[k],
    {
        match ColumnReference::new(col_id) {
            Ok(column_ref) => Ok(self.column(&column_ref)),
            Err(e) => Err(e),
        }
    }

    /// The nine cells of a subgrid, row by row: three runs of three cells,
    /// nine cells apart, from the subgrid's top-left cell on.
    pub fn subgrid(&self, subgrid_ref: &SubgridReference) -> (subgrid: Vec<Option<u8>>)
        requires
            is_board(self@),
        ensures
            subgrid@ == subgrid_of(self@, subgrid_ref.index()),
    {
        let subgrid_id: usize = subgrid_ref.subgrid();
        let subgrid_col: usize = subgrid_id * 3 % 9;
        let subgrid_row: usize = ((subgrid_id * 9) / 27) * 27;
        let subgrid_index: usize = subgrid_col + subgrid_row;

        let mut subgrid: Vec<Option<u8>> = Vec::new();
        let mut row_start: usize = 0;
        while row_start < 3
            invariant
                row_start <= 3,
                subgrid_id < 9,
                subgrid_id == subgrid_ref.index(),
                subgrid_index == (subgrid_id * 3) % 9 + (subgrid_id / 3) * 27,
                is_board(self@),
                subgrid@.len() == row_start * 3,
                forall|j: int|
                    0 <= j < row_start * 3 ==> subgrid@[j] == subgrid_of(self@, subgrid_id as int)[j],
            decreases 3 - row_start,
        {
            let mut k: usize = 0;
            while k < 3
                invariant
                    k <= 3,
                    row_start < 3,
                    subgrid_id < 9,
                    subgrid_index == (subgrid_id * 3) % 9 + (subgrid_id / 3) * 27,
                    is_board(self@),
                    subgrid@.len() == row_start * 3 + k,
                    forall|j: int|
                        0 <= j < row_start * 3 + k ==> subgrid@[j] == subgrid_of(
                            self@,
                            subgrid_id as int,
                        )[j],
                decreases 3 - k,
            {
                proof {
                    lemma_subgrid_cell(subgrid_id as int, row_start * 3 + k);
                }
                subgrid.push(self.grid_data[subgrid_index + 9 * row_start + k]);
                k = k + 1;
            }
            row_start = row_start + 1;
        }
        proof {
            assert(subgrid@ =~= subgrid_of(self@, subgrid_id as int));
        }
        subgrid
    }

    /// The nine cells of the subgrid that holds the given cell.
    pub fn subgrid_at(&self, grid_ref: &GridReference) -> (subgrid: Vec<Option<u8>>)
        requires
            is_board(self@),
        ensures
            subgrid@ == subgrid_of(self@, subgrid_at(grid_ref.row(), grid_ref.column())),
    {
        self.subgrid(&SubgridReference::from_grid_ref(grid_ref))
    }

    /// The digits of the filled cells of a row, left to right.
    pub fn row_values(&self, row_ref: &RowReference) -> (values: Vec<u8>)
        requires
            is_board(self@),
        ensures
            values@ == values_of(row_of(self@, row_ref.index())),
    {
        let row: &[Option<u8>] = self.row(row_ref);
        let mut values: Vec<u8> = Vec::new();
        let mut k: usize = 0;
        while k < row.len()
            invariant
                k <= row@.len(),
                values@ == values_of(row@.take(k as int)),
            decreases row@.len() - k,
        {
            proof {
                assert(row@.take(k + 1).drop_last() =~= row@.take(k as int));
            }
            match row[k] {
                Some(digit) => {
                    values.push(digit);
                },
                None => {},
            }
            k = k + 1;
        }
        proof {
            assert(row@.take(row@.len() as int) =~= row@);
        }
        values
    }

    /// The digits of the filled cells of a column, top to bottom.
    pub fn col_values(&self, column_ref: &ColumnReference) -> (values: Vec<u8>)
        requires
            is_board(self@),
        ensures
            values@ == values_of(column_of(self@, column_ref.index())),
    {
        let col: Vec<&Option<u8>> = self.column(column_ref);
        let ghost unit = column_of(self@, column_ref.index());
        let mut values: Vec<u8> = Vec::new();
        let mut k: usize = 0;
        while k < col.len()
            invariant
                k <= 9,
                col@.len() == 9,
                unit.len() == 9,
                forall|j: int| 0 <= j < 9 ==> *col@[j] == unit[j],
                values@ == values_of(unit.take(k as int)),
            decreases 9 - k,
        {
            proof {
                assert(unit.take(k + 1).drop_last() =~= unit.take(k as int));
            }
            match *col[k] {
                Some(digit) => {
                    values.push(digit);
                },
                None => {},
            }
            k = k + 1;
        }
        proof {
            assert(unit.take(9) =~= unit);
        }
        values
    }

    /// The digits of the filled cells of a subgrid, row by row.
    pub fn subgrid_values(&self, subgrid_ref: &SubgridReference) -> (values: Vec<u8>)
        requires
            is_board(self@),
        ensures
            values@ == values_of(subgrid_of(self@, subgrid_ref.index())),
    {
        let subgrid: Vec<Option<u8>> = self.subgrid(subgrid_ref);
        let mut values: Vec<u8> = Vec::new();
        let mut k: usize = 0;
        while k < subgrid.len()
            invariant
                k <= subgrid@.len(),
                values@ == values_of(subgrid@.take(k as int)),
            decreases subgrid@.len() - k,
        {
            proof {
                assert(subgrid@.take(k + 1).drop_last() =~= subgrid@.take(k as int));
            }
            match subgrid[k] {
                Some(digit) => {
                    values.push(digit);
                },
                None => {},
            }
            k = k + 1;
        }
        proof {
            assert(subgrid@.take(subgrid@.len() as int) =~= subgrid@);
        }
        values
    }

    /// The digits of the filled cells of the subgrid that holds the given
    /// cell.
    pub fn subgrid_values_at(&self, grid_ref: &GridReference) -> (values: Vec<u8>)
        requires
            is_board(self@),
        ensures
            values@ == values_of(subgrid_of(self@, subgrid_at(grid_ref.row(), grid_ref.column()))),
    {
        self.subgrid_values(&SubgridReference::from_grid_ref(grid_ref))
    }

    /// Writes the digit into the cell, over whatever the cell held, then
    /// checks the cell's row, column and subgrid in this order. If one of
    /// them now holds a digit twice, the cell gets its former value back and
    /// the error names the first such unit; otherwise the write stays.
    pub fn set_cell(&mut self, grid_ref: &GridReference, value: &CellValue) -> (res: Result<
        &mut Self,
        UniquenessError,
    >)
        requires
            is_board(old(self)@),
        ensures
            res is Ok <==> units_distinct_at(
                old(self)@.update(grid_ref.index(), Some(value.digit())),
                grid_ref.index(),
            ),
            match res {
                Ok(grid) => {
                    &&& grid@ == old(self)@.update(grid_ref.index(), Some(value.digit()))
                    &&& old(self).wf() ==> grid.wf()
                    &&& *final(self) == *final(grid)
                },
                Err(e) => {
                    &&& final(self)@ == old(self)@
                    &&& first_violation(
                        old(self)@.update(grid_ref.index(), Some(value.digit())),
                        grid_ref.index(),
                    ) == Some(e.violation)
                    &&& e.row == grid_ref.row()
                    &&& e.column == grid_ref.column()
                    &&& e.value == value.digit()
                },
            },
    {
        let value: u8 = value.value();
        let index: usize = grid_ref.to_index();
        let old_value: Option<u8> = self.grid_data[index];

        self.grid_data[index] = Some(value);

        let validated = self.validate_uniqueness(grid_ref);
        match validated {
            Err(e) => {
                self.grid_data[index] = old_value;
                proof {
                    assert(self@ =~= old(self)@);
                }
                Err(e)
            },
            Ok(_) => {
                proof {
                    if old(self).wf() {
                        lemma_write_keeps_valid(old(self)@, index as int, value);
                    }
                }
                Ok(self)
            },
        }
    }

    /// Empties the cell.
    pub fn clear_cell(&mut self, grid_ref: &GridReference) -> (grid: &mut Self)
        requires
            is_board(old(self)@),
        ensures
            grid@ == old(self)@.update(grid_ref.index(), None),
            old(self).wf() ==> grid.wf(),
            *final(self) == *final(grid),
    {
        let index: usize = grid_ref.to_index();
        self.grid_data[index] = None;
        proof {
            if old(self).wf() {
                lemma_extended_is_valid(old(self)@, self@);
            }
        }
        self
    }

    /// Checks the row, the column and the subgrid of a filled cell, in this
    /// order, and reports the first that holds a digit twice.
    fn validate_uniqueness(&self, grid_ref: &GridReference) -> (res: Result<(), UniquenessError>)
        requires
            is_board(self@),
            self@[grid_ref.index()] is Some,
        ensures
            res is Ok <==> units_distinct_at(self@, grid_ref.index()),
            res matches Err(e) ==> {
                &&& first_violation(self@, grid_ref.index()) == Some(e.violation)
                &&& e.row == grid_ref.row()
                &&& e.column == grid_ref.column()
                &&& Some(e.value) == self@[grid_ref.index()]
            },
    {
        let row_ref = grid_ref.row_ref();
        let column_ref = grid_ref.column_ref();
        let row: usize = row_ref.row();
        let column: usize = column_ref.column();

        if !self.row_is_unique(row_ref) {
            return Err(
                UniquenessError::new(
                    row,
                    column,
                    self.cell(grid_ref).unwrap(),
                    UniquenessConstraint::Row,
                ),
            );
        }
        if !self.col_is_unique(column_ref) {
            return Err(
                UniquenessError::new(
                    row,
                    column,
                    self.cell(grid_ref).unwrap(),
                    UniquenessConstraint::Column,
                ),
            );
        }
        if !self.subgrid_is_unique_at(grid_ref) {
            return Err(
                UniquenessError::new(
                    row,
                    column,
                    self.cell(grid_ref).unwrap(),
                    UniquenessConstraint::SubGrid,
                ),
            );
        }
        Ok(())
    }

    fn row_is_unique(&self, row_ref: &RowReference) -> (unique: bool)
        requires
            is_board(self@),
        ensures
            unique == distinct(row_of(self@, row_ref.index())),
    {
        let mut row_values = self.row_values(row_ref);
        proof {
            lemma_values_of_distinct(row_of(self@, row_ref.index()));
        }
        Self::values_are_unique(&mut row_values)
    }

    fn col_is_unique(&self, column_ref: &ColumnReference) -> (unique: bool)
        requires
            is_board(self@),
        ensures
            unique == distinct(column_of(self@, column_ref.index())),
    {
        let mut col_values = self.col_values(column_ref);
        proof {
            lemma_values_of_distinct(column_of(self@, column_ref.index()));
        }
        Self::values_are_unique(&mut col_values)
    }

    fn subgrid_is_unique(&self, subgrid_ref: &SubgridReference) -> (unique: bool)
        requires
            is_board(self@),
        ensures
            unique == distinct(subgrid_of(self@, subgrid_ref.index())),
    {
        let mut subgrid_values = self.subgrid_values(subgrid_ref);
        proof {
            lemma_values_of_distinct(subgrid_of(self@, subgrid_ref.index()));
        }
        Self::values_are_unique(&mut subgrid_values)
    }

    fn subgrid_is_unique_at(&self, grid_ref: &GridReference) -> (unique: bool)
        requires
            is_board(self@),
        ensures
            unique == distinct(subgrid_of(self@, subgrid_at(grid_ref.row(), grid_ref.column()))),
    {
        self.subgrid_is_unique(&SubgridReference::from_grid_ref(grid_ref))
    }

    /// Sorts the digits, then looks for two equal neighbours: there are
    /// none exactly when no digit occurs twice.
    fn values_are_unique(values: &mut Vec<u8>) -> (unique: bool)
        ensures
            unique == old(values)@.no_duplicates(),
            ascending(final(values)@),
            final(values)@.to_multiset() == old(values)@.to_multiset(),
    {
        sort(values);
        proof {
            lemma_same_elements_same_repeats(values@, old(values)@);
        }
        let mut index: usize = 1;
        while index < values.len()
            invariant
                1 <= index,
                ascending(values@),
                values@.to_multiset() == old(values)@.to_multiset(),
                values@.no_duplicates() <==> old(values)@.no_duplicates(),
                forall|i: int| 0 <= i < index - 1 ==> #[trigger] values@[i] != values@[i + 1],
            decreases values@.len() - index,
        {
            if values[index - 1] == values[index] {
                proof {
                    assert(values@[index - 1] == values@[index as int]);
                }
                return false;
            }
            index = index + 1;
        }
        proof {
            assert forall|i: int, j: int|
                0 <= i < values@.len() && 0 <= j < values@.len() && i != j implies values@[i]
                != values@[j] by {
                if values@[i] == values@[j] {
                    let low = if i < j { i } else { j };
                    let high = if i < j { j } else { i };
                    lemma_ascending_repeat_is_adjacent(values@, low, high);
                    assert(values@[low] != values@[low + 1]);
                }
            }
        }
        true
    }
}

/// The empty board is valid.
pub proof fn lemma_empty_board_valid()
    ensures
        valid(empty_board()),
{
    assert forall|u: int| 0 <= u < 9 implies distinct(#[trigger] row_of(empty_board(), u)) by {}
    assert forall|u: int| 0 <= u < 9 implies distinct(#[trigger] column_of(empty_board(), u)) by {}
    assert forall|u: int| 0 <= u < 9 implies distinct(#[trigger] subgrid_of(empty_board(), u)) by {
        assert forall|k: int| 0 <= k < 9 implies subgrid_of(empty_board(), u)[k] is None by {
            lemma_subgrid_cell(u, k);
        }
    }
}

/// A board whose first `n` cells alone break the rule is not valid.
pub proof fn lemma_bad_start_is_invalid(cells: Board, n: int)
    requires
        cells.len() == 81,
        !valid(first_cells(cells, n)),
    ensures
        !valid(cells),
{
    if valid(cells) {
        lemma_extended_is_valid(cells, first_cells(cells, n));
    }
}

} // verus!
