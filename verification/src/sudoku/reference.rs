//! Bounds-checked coordinates: a value of one of these types always names
//! an existing row, column, cell or subgrid.

use vstd::prelude::*;
use crate::sudoku::error::{InvalidColumn, InvalidRow, InvalidSubGrid, SudokuError};

verus! {

/// The number of rows, of columns and of subgrids of a grid.
pub const GRID_SIZE: usize = 9;

/// The number of rows and of columns of a subgrid.
pub const SUBGRID_SIZE: usize = 3;

/// The number of subgrids: the 81 cells of a grid by the 9 cells of a
/// subgrid.
pub const SUBGRID_ID_LIMIT: usize = 9;

/// The subgrid that holds the cell at (`row`, `column`): subgrids are
/// numbered row by row, three to a band.
pub open spec fn subgrid_at(row: int, column: int) -> int {
    (row / 3) * 3 + column / 3
}

/// A row index in `0..9`.
#[derive(Debug, Clone, Copy, PartialEq, Eq, Structural)]
pub struct RowReference {
    row: usize,
}

impl RowReference {
    #[verifier::type_invariant]
    spec fn in_range(self) -> bool {
        self.row < 9
    }

    /// The row index as a mathematical integer.
    pub closed spec fn index(&self) -> int {
        self.row as int
    }

    /// `Ok` exactly for `row < 9`; otherwise the error carries `row`.
    pub fn new(row: usize) -> (res: Result<Self, InvalidRow>)
        ensures
            row < 9 ==> res is Ok && res->Ok_0.index() == row,
            row >= 9 ==> res == Err::<Self, InvalidRow>(InvalidRow { row_id: row }),
    {
        match Self::validate_row_id(row) {
            Ok(row) => Ok(RowReference { row }),
            Err(e) => Err(e),
        }
    }

    fn validate_row_id(row_id: usize) -> (res: Result<usize, InvalidRow>)
        ensures
            row_id < 9 ==> res == Ok::<usize, InvalidRow>(row_id),
            row_id >= 9 ==> res == Err::<usize, InvalidRow>(InvalidRow { row_id }),
    {
        if row_id < GRID_SIZE {
            Ok(row_id)
        } else {
            Err(InvalidRow::new(row_id))
        }
    }

    pub fn row(&self) -> (row: usize)
        ensures
            row == self.index(),
            row < 9,
    {
        proof {
            use_type_invariant(self);
        }
        self.row
    }
}

/// A column index in `0..9`.
#[derive(Debug, Clone, Copy, PartialEq, Eq, Structural)]
pub struct ColumnReference {
    column: usize,
}

impl ColumnReference {
    #[verifier::type_invariant]
    spec fn in_range(self) -> bool {
        self.column < 9
    }

    /// The column index as a mathematical integer.
    pub closed spec fn index(&self) -> int {
        self.column as int
    }

    /// `Ok` exactly for `column < 9`; otherwise the error carries `column`.
    pub fn new(column: usize) -> (res: Result<Self, InvalidColumn>)
        ensures
            column < 9 ==> res is Ok && res->Ok_0.index() == column,
            column >= 9 ==> res == Err::<Self, InvalidColumn>(InvalidColumn { column_id: column }),
    {
        match Self::validate_column_id(column) {
            Ok(column) => Ok(ColumnReference { column }),
            Err(e) => Err(e),
        }
    }

    fn validate_column_id(column_id: usize) -> (res: Result<usize, InvalidColumn>)
        ensures
            column_id < 9 ==> res == Ok::<usize, InvalidColumn>(column_id),
            column_id >= 9 ==> res == Err::<usize, InvalidColumn>(InvalidColumn { column_id }),
    {
        if column_id < GRID_SIZE {
            Ok(column_id)
        } else {
            Err(InvalidColumn::new(column_id))
        }
    }

    pub fn column(&self) -> (column: usize)
        ensures
            column == self.index(),
            column < 9,
    {
        proof {
            use_type_invariant(self);
        }
        self.column
    }
}

/// The coordinate of one cell: a valid row and a valid column.
#[derive(Debug, Clone, Copy, PartialEq, Eq, Structural)]
pub struct GridReference {
    row_ref: RowReference,
    column_ref: ColumnReference,
}

impl GridReference {
    /// The row of the cell.
    pub closed spec fn row(&self) -> int {
        self.row_ref.index()
    }

    /// The column of the cell.
    pub closed spec fn column(&self) -> int {
        self.column_ref.index()
    }

    /// The position of the cell in the row-major cell store.
    pub open spec fn index(&self) -> int {
        self.row() * 9 + self.column()
    }

    pub fn new(row: RowReference, column: ColumnReference) -> (r: Self)
        ensures
            r.row() == row.index(),
            r.column() == column.index(),
    {
        GridReference { row_ref: row, column_ref: column }
    }

    /// `Ok` exactly when both numbers are below 9. The row is checked
    /// first, so a pair with both out of range reports the row.
    pub fn from_numbers(row_id: usize, column_id: usize) -> (res: Result<GridReference, SudokuError>)
        ensures
            row_id < 9 && column_id < 9 ==> res is Ok && res->Ok_0.row() == row_id
                && res->Ok_0.column() == column_id,
            row_id >= 9 ==> res == Err::<GridReference, SudokuError>(
                SudokuError::InvalidRow(InvalidRow { row_id }),
            ),
            row_id < 9 && column_id >= 9 ==> res == Err::<GridReference, SudokuError>(
                SudokuError::InvalidColumn(InvalidColumn { column_id }),
            ),
    {
        let row = match RowReference::new(row_id) {
            Ok(row) => row,
            Err(e) => {
                return Err(SudokuError::InvalidRow(e));
            },
        };
        let column = match ColumnReference::new(column_id) {
            Ok(column) => column,
            Err(e) => {
                return Err(SudokuError::InvalidColumn(e));
            },
        };
        Ok(Self::new(row, column))
    }

    pub fn row_ref(&self) -> (r: &RowReference)
        ensures
            r.index() == self.row(),
            0 <= self.row() < 9,
    {
        proof {
            use_type_invariant(&self.row_ref);
        }
        &self.row_ref
    }

    pub fn column_ref(&self) -> (c: &ColumnReference)
        ensures
            c.index() == self.column(),
            0 <= self.column() < 9,
    {
        proof {
            use_type_invariant(&self.column_ref);
        }
        &self.column_ref
    }

    pub fn to_index(&self) -> (i: usize)
        ensures
            i == self.index(),
            i < 81,
            self.row() == i / 9,
            self.column() == i % 9,
    {
        proof {
            use_type_invariant(&self.row_ref);
            use_type_invariant(&self.column_ref);
        }
        self.row_ref.row * GRID_SIZE + self.column_ref.column
    }
}

/// A subgrid index in `0..9`.
#[derive(Debug, Clone, Copy, PartialEq, Eq, Structural)]
pub struct SubgridReference {
    subgrid: usize,
}

impl SubgridReference {
    #[verifier::type_invariant]
    spec fn in_range(self) -> bool {
        self.subgrid < 9
    }

    /// The subgrid index as a mathematical integer.
    pub closed spec fn index(&self) -> int {
        self.subgrid as int
    }

    /// `Ok` exactly for `subgrid < 9`; otherwise the error carries `subgrid`.
    pub fn new(subgrid: usize) -> (res: Result<Self, InvalidSubGrid>)
        ensures
            subgrid < 9 ==> res is Ok && res->Ok_0.index() == subgrid,
            subgrid >= 9 ==> res == Err::<Self, InvalidSubGrid>(InvalidSubGrid { subgrid_id: subgrid }),
    {
        match Self::validate_subgrid_id(subgrid) {
            Ok(subgrid) => Ok(SubgridReference { subgrid }),
            Err(e) => Err(e),
        }
    }

    fn validate_subgrid_id(subgrid_id: usize) -> (res: Result<usize, InvalidSubGrid>)
        ensures
            subgrid_id < 9 ==> res == Ok::<usize, InvalidSubGrid>(subgrid_id),
            subgrid_id >= 9 ==> res == Err::<usize, InvalidSubGrid>(InvalidSubGrid { subgrid_id }),
    {
        if subgrid_id < SUBGRID_ID_LIMIT {
            Ok(subgrid_id)
        } else {
            Err(InvalidSubGrid::new(subgrid_id))
        }
    }

    /// The subgrid that holds the cell.
    pub fn from_grid_ref(grid_ref: &GridReference) -> (s: SubgridReference)
        ensures
            s.index() == subgrid_at(grid_ref.row(), grid_ref.column()),
    {
        let row: usize = grid_ref.row_ref().row();
        let column: usize = grid_ref.column_ref().column();
        let subgrid: usize = (row / SUBGRID_SIZE) * SUBGRID_SIZE + column / SUBGRID_SIZE;
        SubgridReference { subgrid }
    }

    pub fn subgrid(&self) -> (subgrid: usize)
        ensures
            subgrid == self.index(),
            subgrid < 9,
    {
        proof {
            use_type_invariant(self);
        }
        self.subgrid
    }
}

} // verus!
