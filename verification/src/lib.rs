//! A 9x9 Sudoku solver: a grid that enforces the uniqueness rule on every
//! write, a finder of the digits still open for a cell, and a depth-first
//! backtracking search, each with a machine-checked contract.

pub mod sudoku;
