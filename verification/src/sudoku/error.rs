//! The errors that the grid and its coordinate types report.

use vstd::prelude::*;
use vstd::string::StringExecFns;
use crate::sudoku::text::{decimal, push_decimal};

verus! {

/// The unit whose uniqueness rule a rejected write would have broken.
#[derive(Debug, Clone, Copy, PartialEq, Eq, Structural)]
pub enum UniquenessConstraint {
    Row,
    Column,
    SubGrid,
}

/// A row index outside `0..9`.
#[derive(Debug, Clone, Copy, PartialEq, Eq, Structural)]
pub struct InvalidRow {
    pub row_id: usize,
}

/// A column index outside `0..9`.
#[derive(Debug, Clone, Copy, PartialEq, Eq, Structural)]
pub struct InvalidColumn {
    pub column_id: usize,
}

/// A subgrid index outside `0..9`.
#[derive(Debug, Clone, Copy, PartialEq, Eq, Structural)]
pub struct InvalidSubGrid {
    pub subgrid_id: usize,
}

/// A write of `value` at (`row`, `column`) that would repeat a digit within
/// the unit named by `violation`.
#[derive(Debug, Clone, Copy, PartialEq, Eq, Structural)]
pub struct UniquenessError {
    pub row: usize,
    pub column: usize,
    pub value: u8,
    pub violation: UniquenessConstraint,
}

/// A cell value outside `1..=9`.
#[derive(Debug, Clone, Copy, PartialEq, Eq, Structural)]
pub struct AnswerRangeError {
    pub value: u8,
}

/// The error of a function that can fail in more than one way: one of the
/// errors above.
#[derive(Debug, Clone, Copy, PartialEq, Eq, Structural)]
pub enum SudokuError {
    InvalidRow(InvalidRow),
    InvalidColumn(InvalidColumn),
    Uniqueness(UniquenessError),
    AnswerRange(AnswerRangeError),
}

impl InvalidRow {
    pub fn new(row_id: usize) -> (e: Self)
        ensures
            e.row_id == row_id,
    {
        Self { row_id }
    }

    /// The text of the error.
    pub open spec fn text(&self) -> Seq<char> {
        "Invalid row id: "@ + decimal(self.row_id as nat)
    }

    /// The error as a line for a reader.
    pub fn message(&self) -> (message: String)
        ensures
            message@ == self.text(),
    {
        let mut message = String::from_str("Invalid row id: ");
        push_decimal(&mut message, self.row_id);
        message
    }
}

impl InvalidColumn {
    pub fn new(column_id: usize) -> (e: Self)
        ensures
            e.column_id == column_id,
    {
        Self { column_id }
    }

    /// The text of the error.
    pub open spec fn text(&self) -> Seq<char> {
        "Invalid column id: "@ + decimal(self.column_id as nat)
    }

    /// The error as a line for a reader.
    pub fn message(&self) -> (message: String)
        ensures
            message@ == self.text(),
    {
        let mut message = String::from_str("Invalid column id: ");
        push_decimal(&mut message, self.column_id);
        message
    }
}

impl InvalidSubGrid {
    pub fn new(subgrid_id: usize) -> (e: Self)
        ensures
            e.subgrid_id == subgrid_id,
    {
        Self { subgrid_id }
    }

    /// The text of the error.
    pub open spec fn text(&self) -> Seq<char> {
        "Invalid subgrid id: "@ + decimal(self.subgrid_id as nat)
    }

    /// The error as a line for a reader.
    pub fn message(&self) -> (message: String)
        ensures
            message@ == self.text(),
    {
        let mut message = String::from_str("Invalid subgrid id: ");
        push_decimal(&mut message, self.subgrid_id);
        message
    }
}

impl UniquenessError {
    pub fn new(row: usize, column: usize, value: u8, violation: UniquenessConstraint) -> (e: Self)
        ensures
            e == (UniquenessError { row, column, value, violation }),
    {
        Self { row, column, value, violation }
    }

    /// The text of the error.
    pub open spec fn text(&self) -> Seq<char> {
        "Cannot insert value "@ + decimal(self.value as nat) + " at "@ + decimal(self.row as nat)
            + ", "@ + decimal(self.column as nat) + " due to "@ + self.violation.name()@
            + " uniqueness constraints"@
    }

    /// The error as a line for a reader.
    pub fn message(&self) -> (message: String)
        ensures
            message@ == self.text(),
    {
        let violation: &'static str = match self.violation {
            UniquenessConstraint::Row => "row",
            UniquenessConstraint::Column => "column",
            UniquenessConstraint::SubGrid => "subgrid",
        };
        let mut message = String::from_str("Cannot insert value ");
        push_decimal(&mut message, self.value as usize);
        message.append(" at ");
        push_decimal(&mut message, self.row);
        message.append(", ");
        push_decimal(&mut message, self.column);
        message.append(" due to ");
        message.append(violation);
        message.append(" uniqueness constraints");
        message
    }
}

impl UniquenessConstraint {
    /// The word for the unit in an error's text.
    pub open spec fn name(&self) -> &'static str {
        match self {
            UniquenessConstraint::Row => "row",
            UniquenessConstraint::Column => "column",
            UniquenessConstraint::SubGrid => "subgrid",
        }
    }
}

impl AnswerRangeError {
    pub fn new(value: u8) -> (e: Self)
        ensures
            e.value == value,
    {
        Self { value }
    }

    /// The text of the error.
    pub open spec fn text(&self) -> Seq<char> {
        "Cell value of "@ + decimal(self.value as nat) + " is out of bounds: must be between "@
            + decimal(1) + " and "@ + decimal(9)
    }

    /// The error as a line for a reader.
    pub fn message(&self) -> (message: String)
        ensures
            message@ == self.text(),
    {
        let mut message = String::from_str("Cell value of ");
        push_decimal(&mut message, self.value as usize);
        message.append(" is out of bounds: must be between ");
        push_decimal(&mut message, 1);
        message.append(" and ");
        push_decimal(&mut message, 9);
        message
    }
}

impl SudokuError {
    /// The text of the error: that of the error it wraps.
    pub open spec fn text(&self) -> Seq<char> {
        match self {
            SudokuError::InvalidRow(e) => e.text(),
            SudokuError::InvalidColumn(e) => e.text(),
            SudokuError::Uniqueness(e) => e.text(),
            SudokuError::AnswerRange(e) => e.text(),
        }
    }

    /// The error as a line for a reader.
    pub fn message(&self) -> (message: String)
        ensures
            message@ == self.text(),
    {
        match self {
            SudokuError::InvalidRow(e) => e.message(),
            SudokuError::InvalidColumn(e) => e.message(),
            SudokuError::Uniqueness(e) => e.message(),
            SudokuError::AnswerRange(e) => e.message(),
        }
    }
}

} // verus!
