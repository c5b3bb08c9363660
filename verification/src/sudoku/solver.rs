//! The solvers: a depth-first search with backtracking over the empty cells
//! in row-major order, trying each cell's candidates in ascending order.

use vstd::prelude::*;
use crate::sudoku::board::{extends, valid, Board};
use crate::sudoku::cached_option_finder::CachedOptionFinder;
use crate::sudoku::grid::{CellValue, Grid};
use crate::sudoku::option_finder::{is_option_list, OptionFinder, OptionList, StandardOptionFinder};
use crate::sudoku::reference::GridReference;
use crate::sudoku::search::{
    filled_before, first_solution, is_outcome, lemma_failed_digit, lemma_first_digit_found,
    lemma_full_board_solves_itself, lemma_no_digit_left, lemma_refused_digit, no_solution_with,
    search_position, unsolvable,
};

verus! {

/// The board of the grid in `found`, if there is one.
pub open spec fn board_of(found: Option<Grid>) -> Option<Board> {
    match found {
        Some(grid) => Some(grid@),
        None => None,
    }
}

/// A solver that works out the candidates of a cell from the grid as the
/// search has filled it so far.
#[derive(Debug)]
pub struct Solver<'problem> {
    problem: &'problem Grid,
    solution: Option<Grid>,
}

impl<'problem> Solver<'problem> {
    /// The board of the puzzle.
    pub closed spec fn puzzle(&self) -> Board {
        self.problem@
    }

    /// What the last search ended with; `None` before the first.
    pub closed spec fn found(&self) -> Option<Grid> {
        self.solution
    }

    pub fn new(problem: &'problem Grid) -> (solver: Self)
        ensures
            solver.puzzle() == problem@,
            solver.found() is None,
    {
        Self { problem, solution: None }
    }

    /// Searches the puzzle. Afterwards the solver holds the first solution
    /// of the puzzle, in a grid of its own, or nothing when the puzzle has
    /// no solution. The puzzle itself is left as it was.
    pub fn solve(&mut self) -> (solver: &mut Self)
        requires
            valid(old(self).puzzle()),
        ensures
            solver.puzzle() == old(self).puzzle(),
            is_outcome(old(self).puzzle(), board_of(solver.found())),
            solver.found() matches Some(grid) ==> grid.wf(),
            *final(self) == *final(solver),
    {
        let mut solution = self.problem.clone();

        let solved = self.find_solution(&mut solution, 0, 0);
        if solved {
            self.solution = Some(solution);
        } else {
            self.solution = None;
        }

        self
    }

    pub fn get_solution(&self) -> (solution: &Option<Grid>)
        ensures
            *solution == self.found(),
    {
        &self.solution
    }

    /// Searches from (`row_id`, `column_id`) on, every cell before it being
    /// filled. On success the grid holds the first solution of what it held
    /// before; on failure there is none and the grid is as before.
    fn find_solution(&self, solution: &mut Grid, row_id: usize, column_id: usize) -> (found: bool)
        requires
            valid(old(solution)@),
            row_id <= 9,
            column_id <= 9,
            filled_before(old(solution)@, search_position(row_id as int, column_id as int)),
        ensures
            found ==> first_solution(final(solution)@, old(solution)@),
            !found ==> final(solution)@ == old(solution)@ && unsolvable(old(solution)@),
        decreases 9 - row_id, 10 - column_id,
    {
        if row_id > 8 {
            // Past the end of the grid: every cell is filled
            proof {
                lemma_full_board_solves_itself(solution@);
            }
            true
        } else if column_id > 8 {
            // Past the end of this row: on to the next one
            self.find_solution(solution, row_id + 1, 0)
        } else {
            let grid_ref = match GridReference::from_numbers(row_id, column_id) {
                Ok(grid_ref) => grid_ref,
                Err(_) => vstd::pervasive::unreached(),
            };
            let ghost i = grid_ref.index();
            if solution.cell(&grid_ref).is_some() {
                // This cell has a value: on to the next one
                self.find_solution(solution, row_id, column_id + 1)
            } else {
                // Try each possible value in this cell, then the rest of the puzzle
                let mut finder = StandardOptionFinder::new(&*solution);
                let options: OptionList = finder.find_for_cell(&grid_ref);

                let mut k: usize = 0;
                while k < options.len()
                    invariant
                        k <= options@.len(),
                        row_id <= 8,
                        column_id <= 8,
                        i == row_id * 9 + column_id,
                        i == grid_ref.index(),
                        solution@ == old(solution)@,
                        valid(solution@),
                        solution@[i] is None,
                        filled_before(solution@, i),
                        is_option_list(solution@, i, options@),
                        forall|j: int|
                            0 <= j < k ==> no_solution_with(solution@, i, #[trigger] options@[j]),
                    decreases options@.len() - k,
                {
                    let option: u8 = options[k];
                    let ghost board = solution@;
                    proof {
                        assert(options@.contains(option));
                    }
                    let value = match CellValue::new(option) {
                        Ok(value) => value,
                        Err(_) => vstd::pervasive::unreached(),
                    };
                    if solution.set_cell(&grid_ref, &value).is_ok() {
                        if self.find_solution(solution, row_id, column_id + 1) {
                            proof {
                                lemma_first_digit_found(board, board, i, options@, k as int, solution@);
                            }
                            return true;
                        }
                        proof {
                            lemma_failed_digit(board, i, option);
                        }
                    } else {
                        proof {
                            lemma_refused_digit(board, i, option);
                        }
                    }
                    solution.clear_cell(&grid_ref);
                    proof {
                        assert(solution@ =~= board);
                    }
                    k = k + 1;
                }
                // No option worked on this branch: the caller has to try
                // another one, or the puzzle has no solution
                proof {
                    lemma_no_digit_left(solution@, solution@, i, options@);
                }
                false
            }
        }
    }
}

/// A solver that asks a caching finder for the candidates of a cell on the
/// puzzle as it was given.
#[derive(Debug)]
pub struct DepthFirstSolver<'problem> {
    problem: &'problem Grid,
    option_finder: CachedOptionFinder<'problem>,
    solution: Option<Grid>,
}

impl<'problem> DepthFirstSolver<'problem> {
    /// The board of the puzzle.
    pub closed spec fn puzzle(&self) -> Board {
        self.problem@
    }

    /// What the last search ended with; `None` before the first.
    pub closed spec fn found(&self) -> Option<Grid> {
        self.solution
    }

    /// The puzzle is valid, and the finder is one for the puzzle that may
    /// be asked.
    pub closed spec fn wf(&self) -> bool {
        &&& valid(self.problem@)
        &&& self.option_finder.wf()
        &&& self.option_finder.problem() == self.problem@
    }

    /// A solver for `problem` that takes its candidates from
    /// `option_finder`, which has to be a finder for the same grid.
    pub fn new(problem: &'problem Grid, option_finder: CachedOptionFinder<'problem>) -> (solver:
        Self)
        requires
            problem.wf(),
            option_finder.wf(),
            option_finder.problem() == problem@,
        ensures
            solver.wf(),
            solver.puzzle() == problem@,
            solver.found() is None,
    {
        Self { problem, option_finder, solution: None }
    }

    /// Searches the puzzle. Afterwards the solver holds the first solution
    /// of the puzzle, in a grid of its own, or nothing when the puzzle has
    /// no solution. The puzzle itself is left as it was.
    pub fn solve(&mut self) -> (solver: &mut Self)
        requires
            old(self).wf(),
        ensures
            solver.wf(),
            solver.puzzle() == old(self).puzzle(),
            is_outcome(old(self).puzzle(), board_of(solver.found())),
            solver.found() matches Some(grid) ==> grid.wf(),
            *final(self) == *final(solver),
    {
        let mut solution = self.problem.clone();

        let solved = self.find_solution(&mut solution, 0, 0);
        if solved {
            self.solution = Some(solution);
        } else {
            self.solution = None;
        }

        self
    }

    pub fn get_solution(&self) -> (solution: &Option<Grid>)
        ensures
            *solution == self.found(),
    {
        &self.solution
    }

    /// Searches from (`row_id`, `column_id`) on, every cell before it being
    /// filled. On success the grid holds the first solution of what it held
    /// before; on failure there is none and the grid is as before.
    fn find_solution(&mut self, solution: &mut Grid, row_id: usize, column_id: usize) -> (found:
        bool)
        requires
            old(self).wf(),
            valid(old(solution)@),
            extends(old(solution)@, old(self).puzzle()),
            row_id <= 9,
            column_id <= 9,
            filled_before(old(solution)@, search_position(row_id as int, column_id as int)),
        ensures
            final(self).wf(),
            final(self).puzzle() == old(self).puzzle(),
            final(self).found() == old(self).found(),
            found ==> first_solution(final(solution)@, old(solution)@),
            !found ==> final(solution)@ == old(solution)@ && unsolvable(old(solution)@),
        decreases 9 - row_id, 10 - column_id,
    {
        if row_id > 8 {
            // Past the end of the grid: every cell is filled
            proof {
                lemma_full_board_solves_itself(solution@);
            }
            true
        } else if column_id > 8 {
            // Past the end of this row: on to the next one
            self.find_solution(solution, row_id + 1, 0)
        } else {
            let grid_ref = match GridReference::from_numbers(row_id, column_id) {
                Ok(grid_ref) => grid_ref,
                Err(_) => vstd::pervasive::unreached(),
            };
            let ghost i = grid_ref.index();
            if solution.cell(&grid_ref).is_some() {
                // This cell has a value: on to the next one
                self.find_solution(solution, row_id, column_id + 1)
            } else {
                // Try each possible value in this cell, then the rest of the puzzle
                let options: OptionList = self.option_finder.find_for_cell(&grid_ref);

                let mut k: usize = 0;
                while k < options.len()
                    invariant
                        k <= options@.len(),
                        row_id <= 8,
                        column_id <= 8,
                        i == row_id * 9 + column_id,
                        i == grid_ref.index(),
                        self.wf(),
                        self.puzzle() == old(self).puzzle(),
                        self.found() == old(self).found(),
                        solution@ == old(solution)@,
                        valid(solution@),
                        extends(solution@, self.puzzle()),
                        solution@[i] is None,
                        filled_before(solution@, i),
                        is_option_list(self.puzzle(), i, options@),
                        forall|j: int|
                            0 <= j < k ==> no_solution_with(solution@, i, #[trigger] options@[j]),
                    decreases options@.len() - k,
                {
                    let option: u8 = options[k];
                    let ghost board = solution@;
                    proof {
                        assert(options@.contains(option));
                    }
                    let value = match CellValue::new(option) {
                        Ok(value) => value,
                        Err(_) => vstd::pervasive::unreached(),
                    };
                    if solution.set_cell(&grid_ref, &value).is_ok() {
                        if self.find_solution(solution, row_id, column_id + 1) {
                            proof {
                                lemma_first_digit_found(
                                    board,
                                    self.puzzle(),
                                    i,
                                    options@,
                                    k as int,
                                    solution@,
                                );
                            }
                            return true;
                        }
                        proof {
                            lemma_failed_digit(board, i, option);
                        }
                    } else {
                        proof {
                            lemma_refused_digit(board, i, option);
                        }
                    }
                    solution.clear_cell(&grid_ref);
                    proof {
                        assert(solution@ =~= board);
                    }
                    k = k + 1;
                }
                // No option worked on this branch: the caller has to try
                // another one, or the puzzle has no solution
                proof {
                    lemma_no_digit_left(solution@, self.puzzle(), i, options@);
                }
                false
            }
        }
    }
}

} // verus!
