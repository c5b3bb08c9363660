//! The Sudoku grid, its coordinates, the candidate finders and the solvers.

pub mod board;
pub mod cached_option_finder;
pub mod display;
pub mod error;
pub mod grid;
pub mod grid_diff;
pub mod option_finder;
pub mod reference;
pub mod search;
pub mod solver;
pub mod sorting;
pub mod text;

pub use self::cached_option_finder::CachedOptionFinder;
pub use self::grid::{CellValue, Grid};
pub use self::grid_diff::GridDiff;
pub use self::option_finder::{OptionFinder, OptionList, StandardOptionFinder};
pub use self::reference::{ColumnReference, GridReference, RowReference, SubgridReference};
pub use self::solver::{DepthFirstSolver, Solver};
