//! Grids as text for a terminal: nine lines of digits and placeholders, in
//! three bands of three subgrids, painted through the `colored` crate.

use colored::Colorize;
use vstd::prelude::*;
use vstd::string::StringExecFns;
use crate::sudoku::board::{is_board, Board};
use crate::sudoku::grid::Grid;
use crate::sudoku::reference::GridReference;
use crate::sudoku::text::{digit_char, digit_str};

verus! {

/// The colours that a grid is painted with.
#[derive(Debug, Clone, Copy, PartialEq, Eq, Structural)]
pub enum Paint {
    White,
    Blue,
    Yellow,
    BrightGreen,
}

/// The number of a colour in the escape sequence that switches it on.
pub open spec fn paint_code(paint: Paint) -> Seq<char> {
    match paint {
        Paint::White => seq!['3', '7'],
        Paint::Blue => seq!['3', '4'],
        Paint::Yellow => seq!['3', '3'],
        Paint::BrightGreen => seq!['9', '2'],
    }
}

/// The escape sequence that ends all colouring.
pub open spec fn paint_end() -> Seq<char> {
    seq!['\u{1b}', '[', '0', 'm']
}

/// The text between the escape sequence that switches the colour on and
/// the one that ends it.
pub open spec fn painted(paint: Paint, text: Seq<char>) -> Seq<char> {
    seq!['\u{1b}', '['] + paint_code(paint) + seq!['m'] + text + paint_end()
}

/// What painting `text` may give. Whether colours are on depends on where
/// the program runs and on what it writes to: `out` is the painted text, or
/// the text as it is. The switch is read more than once while a text is
/// painted, so if it is turned off in between, `out` is the text with only
/// the ending sequence.
pub open spec fn shows(out: Seq<char>, paint: Paint, text: Seq<char>) -> bool {
    out == painted(paint, text) || out == text || out == text + paint_end()
}

/// `colored::Colorize::white` on a `&str`, formatted by the `Display` of
/// the `ColoredString` it returns. The contract is for a text without the
/// escape character, which the crate would otherwise look into: the result
/// then `shows` the text in white.
#[verifier::external_body]
fn white(text: &str) -> (out: String)
    ensures
        !text@.contains('\u{1b}') ==> shows(out@, Paint::White, text@),
{
    text.white().to_string()
}

/// `colored::Colorize::blue` on a `&str`, formatted by the `Display` of the
/// `ColoredString` it returns. For a text without the escape character the
/// result `shows` the text in blue.
#[verifier::external_body]
fn blue(text: &str) -> (out: String)
    ensures
        !text@.contains('\u{1b}') ==> shows(out@, Paint::Blue, text@),
{
    text.blue().to_string()
}

/// `colored::Colorize::yellow` on a `&str`, formatted by the `Display` of
/// the `ColoredString` it returns. For a text without the escape character
/// the result `shows` the text in yellow.
#[verifier::external_body]
fn yellow(text: &str) -> (out: String)
    ensures
        !text@.contains('\u{1b}') ==> shows(out@, Paint::Yellow, text@),
{
    text.yellow().to_string()
}

/// `colored::Colorize::bright_green` on a `&str`, formatted by the
/// `Display` of the `ColoredString` it returns. For a text without the
/// escape character the result `shows` the text in bright green.
#[verifier::external_body]
fn bright_green(text: &str) -> (out: String)
    ensures
        !text@.contains('\u{1b}') ==> shows(out@, Paint::BrightGreen, text@),
{
    text.bright_green().to_string()
}

/// The pieces that a grid's text is put together from, as plain values.
pub struct PaletteView {
    /// The digits 1 to 9 as they show in a cell that was filled from the
    /// start.
    pub given: Seq<Seq<char>>,
    /// The digits 1 to 9 as they show in a cell that was filled since.
    pub filled: Seq<Seq<char>>,
    /// An empty cell.
    pub blank: Seq<char>,
    /// The bar between two subgrids of a band.
    pub bar: Seq<char>,
    /// The line between two bands.
    pub rule: Seq<char>,
}

/// The text of an empty cell, before painting.
pub open spec fn blank_text() -> Seq<char> {
    seq![' ', '-']
}

/// The text of the bar between two subgrids, before painting.
pub open spec fn bar_text() -> Seq<char> {
    seq![' ', '|']
}

/// The text of the line between two bands, before painting.
pub open spec fn rule_text() -> Seq<char> {
    "\t-------+-------+-------\n"@
}

/// The pieces are those of a terminal: each `shows` its text in its colour.
pub open spec fn is_colored(palette: PaletteView) -> bool {
    &&& palette.given.len() == 9
    &&& palette.filled.len() == 9
    &&& forall|d: int|
        0 <= d < 9 ==> shows(#[trigger] palette.given[d], Paint::White, seq![digit_char(d + 1)])
    &&& forall|d: int|
        0 <= d < 9 ==> shows(
            #[trigger] palette.filled[d],
            Paint::BrightGreen,
            seq![digit_char(d + 1)],
        )
    &&& shows(palette.blank, Paint::Blue, blank_text())
    &&& shows(palette.bar, Paint::Yellow, bar_text())
    &&& shows(palette.rule, Paint::Yellow, rule_text())
}

/// The text of cell `i`: a blank, or a space and the digit, which shows as
/// filled where `base` holds something else than `current`.
pub open spec fn cell_text(current: Board, base: Board, palette: PaletteView, i: int) -> Seq<char> {
    match current[i] {
        Some(v) => seq![' '] + (if base[i] != current[i] {
            palette.filled[v - 1]
        } else {
            palette.given[v - 1]
        }),
        None => palette.blank,
    }
}

/// The text of the first `n` cells of a row, with a bar after the third and
/// after the sixth.
pub open spec fn cells_text(
    current: Board,
    base: Board,
    palette: PaletteView,
    row: int,
    n: int,
) -> Seq<char>
    decreases n,
{
    if n <= 0 {
        Seq::empty()
    } else {
        cells_text(current, base, palette, row, n - 1) + cell_text(
            current,
            base,
            palette,
            row * 9 + n - 1,
        ) + (if (n - 1) % 3 == 2 && n - 1 < 8 {
            palette.bar
        } else {
            Seq::empty()
        })
    }
}

/// The line of a row: a tab, its cells, a line end; and the rule after the
/// third and after the sixth row.
pub open spec fn row_text(current: Board, base: Board, palette: PaletteView, row: int) -> Seq<
    char,
> {
    seq!['\t'] + cells_text(current, base, palette, row, 9) + seq!['\n'] + (if row % 3 == 2 && row
        < 8 {
        palette.rule
    } else {
        Seq::empty()
    })
}

/// The lines of the first `n` rows.
pub open spec fn rows_text(current: Board, base: Board, palette: PaletteView, n: int) -> Seq<char>
    decreases n,
{
    if n <= 0 {
        Seq::empty()
    } else {
        rows_text(current, base, palette, n - 1) + row_text(current, base, palette, n - 1)
    }
}

/// The text of a grid: its nine rows.
pub open spec fn layout(current: Board, base: Board, palette: PaletteView) -> Seq<char> {
    rows_text(current, base, palette, 9)
}

/// The pieces that a grid's text is put together from.
#[derive(Debug)]
pub struct Palette {
    given: Vec<String>,
    filled: Vec<String>,
    blank: String,
    bar: String,
    rule: String,
}

impl View for Palette {
    type V = PaletteView;

    closed spec fn view(&self) -> PaletteView {
        PaletteView {
            given: Seq::new(self.given@.len(), |d: int| self.given@[d]@),
            filled: Seq::new(self.filled@.len(), |d: int| self.filled@[d]@),
            blank: self.blank@,
            bar: self.bar@,
            rule: self.rule@,
        }
    }
}

impl Palette {
    #[verifier::type_invariant]
    spec fn nine_digits(self) -> bool {
        self.given@.len() == 9 && self.filled@.len() == 9
    }

    /// A palette of the given pieces; `None` unless there are nine digits
    /// of each kind.
    pub fn new(
        given: Vec<String>,
        filled: Vec<String>,
        blank: String,
        bar: String,
        rule: String,
    ) -> (palette: Option<Self>)
        ensures
            palette is Some <==> given@.len() == 9 && filled@.len() == 9,
            palette matches Some(p) ==> {
                &&& p@.given.len() == 9
                &&& p@.filled.len() == 9
                &&& forall|d: int| 0 <= d < 9 ==> #[trigger] p@.given[d] == given@[d]@
                &&& forall|d: int| 0 <= d < 9 ==> #[trigger] p@.filled[d] == filled@[d]@
                &&& p@.blank == blank@
                &&& p@.bar == bar@
                &&& p@.rule == rule@
            },
    {
        if given.len() == 9 && filled.len() == 9 {
            Some(Palette { given, filled, blank, bar, rule })
        } else {
            None
        }
    }

    /// The palette of a terminal: given digits in white, filled ones in
    /// bright green, blanks in blue, bars and rules in yellow.
    pub fn colored() -> (palette: Self)
        ensures
            is_colored(palette@),
    {
        let mut given: Vec<String> = Vec::new();
        let mut filled: Vec<String> = Vec::new();
        let mut d: usize = 0;
        while d < 9
            invariant
                d <= 9,
                given@.len() == d,
                filled@.len() == d,
                forall|k: int|
                    0 <= k < d ==> shows(
                        #[trigger] given@[k]@,
                        Paint::White,
                        seq![digit_char(k + 1)],
                    ),
                forall|k: int|
                    0 <= k < d ==> shows(
                        #[trigger] filled@[k]@,
                        Paint::BrightGreen,
                        seq![digit_char(k + 1)],
                    ),
            decreases 9 - d,
        {
            let digit: &'static str = digit_str(d + 1);
            proof {
                assert(!digit@.contains('\u{1b}'));
            }
            given.push(white(digit));
            filled.push(bright_green(digit));
            d = d + 1;
        }
        proof {
            reveal_strlit(" -");
            reveal_strlit(" |");
            reveal_strlit("\t-------+-------+-------\n");
            assert(" -"@ =~= blank_text());
            assert(" |"@ =~= bar_text());
            assert(!" -"@.contains('\u{1b}'));
            assert(!" |"@.contains('\u{1b}'));
            assert(!"\t-------+-------+-------\n"@.contains('\u{1b}'));
        }
        let blank = blue(" -");
        let bar = yellow(" |");
        let rule = yellow("\t-------+-------+-------\n");
        Palette { given, filled, blank, bar, rule }
    }
}

/// The text of `current`, cell by cell, with the digits that `base` does
/// not hold shown as filled, put together from the pieces of `palette`.
pub fn layout_with(current: &Grid, base: &Grid, palette: &Palette) -> (output: String)
    requires
        is_board(current@),
        is_board(base@),
    ensures
        output@ == layout(current@, base@, palette@),
{
    proof {
        use_type_invariant(palette);
        reveal_strlit("\t");
        reveal_strlit("\n");
        reveal_strlit(" ");
    }
    let mut output = String::new();
    let mut row: usize = 0;
    while row < 9
        invariant
            row <= 9,
            is_board(current@),
            is_board(base@),
            palette.given@.len() == 9,
            palette.filled@.len() == 9,
            "\t"@ =~= seq!['\t'],
            "\n"@ =~= seq!['\n'],
            " "@ =~= seq![' '],
            output@ == rows_text(current@, base@, palette@, row as int),
        decreases 9 - row,
    {
        let ghost done = output@;
        output.append("\t");
        let mut col: usize = 0;
        while col < 9
            invariant
                row < 9,
                col <= 9,
                is_board(current@),
                is_board(base@),
                palette.given@.len() == 9,
                palette.filled@.len() == 9,
                " "@ =~= seq![' '],
                output@ == done + seq!['\t'] + cells_text(
                    current@,
                    base@,
                    palette@,
                    row as int,
                    col as int,
                ),
            decreases 9 - col,
        {
            let ghost line = output@;
            let grid_ref = match GridReference::from_numbers(row, col) {
                Ok(grid_ref) => grid_ref,
                Err(_) => vstd::pervasive::unreached(),
            };
            let raw_val = current.cell(&grid_ref);
            match raw_val {
                Some(val) => {
                    let prev_val = base.cell(&grid_ref);
                    let at: usize = (*val - 1) as usize;
                    output.append(" ");
                    if *prev_val != *raw_val {
                        output.append(palette.filled[at].as_str());
                    } else {
                        output.append(palette.given[at].as_str());
                    }
                },
                None => {
                    output.append(palette.blank.as_str());
                },
            }
            if 2 == col % 3 && col < 8 {
                output.append(palette.bar.as_str());
            }
            proof {
                assert(output@ =~= line + cell_text(current@, base@, palette@, row * 9 + col) + (if col
                    % 3 == 2 && col < 8 {
                    palette@.bar
                } else {
                    Seq::empty()
                }));
                assert(output@ =~= done + seq!['\t'] + cells_text(
                    current@,
                    base@,
                    palette@,
                    row as int,
                    col + 1,
                ));
            }
            col = col + 1;
        }
        output.append("\n");
        if 2 == row % 3 && row < 8 {
            output.append(palette.rule.as_str());
        }
        proof {
            assert(output@ =~= done + row_text(current@, base@, palette@, row as int));
        }
        row = row + 1;
    }
    output
}

impl Grid {
    /// The grid as text for a terminal: every digit shows as given.
    pub fn render(&self) -> (output: String)
        requires
            is_board(self@),
        ensures
            exists|palette: PaletteView|
                is_colored(palette) && output@ == #[trigger] layout(self@, self@, palette),
    {
        let palette = Palette::colored();
        layout_with(self, self, &palette)
    }
}

} // verus!
