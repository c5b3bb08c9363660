//! A solved grid shown against the puzzle it came from: the digits that the
//! solver filled in stand out from those that were given.

use vstd::prelude::*;
use crate::sudoku::board::{is_board, Board};
use crate::sudoku::display::{is_colored, layout, layout_with, Palette, PaletteView};
use crate::sudoku::grid::Grid;

verus! {

/// Two grids to be shown as one: `current`, with what `base` does not
/// hold marked as filled.
#[derive(Debug)]
pub struct GridDiff<'a> {
    base: &'a Grid,
    current: &'a Grid,
}

impl<'a> GridDiff<'a> {
    /// The board that the other is held against.
    pub closed spec fn base(&self) -> Board {
        self.base@
    }

    /// The board that is shown.
    pub closed spec fn current(&self) -> Board {
        self.current@
    }

    pub fn new(base: &'a Grid, current: &'a Grid) -> (diff: GridDiff<'a>)
        ensures
            diff.base() == base@,
            diff.current() == current@,
    {
        GridDiff { base, current }
    }

    /// The current grid as text for a terminal: a digit shows as given
    /// where the base holds it too, and as filled where it does not.
    pub fn render(&self) -> (output: String)
        requires
            is_board(self.base()),
            is_board(self.current()),
        ensures
            exists|palette: PaletteView|
                is_colored(palette) && output@ == #[trigger] layout(
                    self.current(),
                    self.base(),
                    palette,
                ),
    {
        let palette = Palette::colored();
        layout_with(self.current, self.base, &palette)
    }
}

} // verus!
