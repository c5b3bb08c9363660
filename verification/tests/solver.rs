use sudoku_rust::sudoku::{
    CachedOptionFinder, ColumnReference, DepthFirstSolver, Grid, GridReference, RowReference,
    Solver, StandardOptionFinder, SubgridReference,
};

const CLASSIC: [[u8; 9]; 9] = [
    [5, 3, 0, 0, 7, 0, 0, 0, 0],
    [6, 0, 0, 1, 9, 5, 0, 0, 0],
    [0, 9, 8, 0, 0, 0, 0, 6, 0],
    [8, 0, 0, 0, 6, 0, 0, 0, 3],
    [4, 0, 0, 8, 0, 3, 0, 0, 1],
    [7, 0, 0, 0, 2, 0, 0, 0, 6],
    [0, 6, 0, 0, 0, 0, 2, 8, 0],
    [0, 0, 0, 4, 1, 9, 0, 0, 5],
    [0, 0, 0, 0, 8, 0, 0, 7, 9],
];

const CLASSIC_SOLVED: [[u8; 9]; 9] = [
    [5, 3, 4, 6, 7, 8, 9, 1, 2],
    [6, 7, 2, 1, 9, 5, 3, 4, 8],
    [1, 9, 8, 3, 4, 2, 5, 6, 7],
    [8, 5, 9, 7, 6, 1, 4, 2, 3],
    [4, 2, 6, 8, 5, 3, 7, 9, 1],
    [7, 1, 3, 9, 2, 4, 8, 5, 6],
    [9, 6, 1, 5, 3, 7, 2, 8, 4],
    [2, 8, 7, 4, 1, 9, 6, 3, 5],
    [3, 4, 5, 2, 8, 6, 1, 7, 9],
];

// The classic puzzle with the 7 of the first row turned into a 4: every
// clue still agrees with the others, but no solution is left
const UNSOLVABLE: [[u8; 9]; 9] = [
    [5, 3, 0, 0, 4, 0, 0, 0, 0],
    [6, 0, 0, 1, 9, 5, 0, 0, 0],
    [0, 9, 8, 0, 0, 0, 0, 6, 0],
    [8, 0, 0, 0, 6, 0, 0, 0, 3],
    [4, 0, 0, 8, 0, 3, 0, 0, 1],
    [7, 0, 0, 0, 2, 0, 0, 0, 6],
    [0, 6, 0, 0, 0, 0, 2, 8, 0],
    [0, 0, 0, 4, 1, 9, 0, 0, 5],
    [0, 0, 0, 0, 8, 0, 0, 7, 9],
];

// Eight clues, no two in one row, column or subgrid
const SPARSE: [[u8; 9]; 9] = [
    [1, 0, 0, 0, 0, 0, 0, 0, 0],
    [0, 0, 0, 2, 0, 0, 0, 0, 0],
    [0, 0, 0, 0, 0, 0, 3, 0, 0],
    [0, 4, 0, 0, 0, 0, 0, 0, 0],
    [0, 0, 0, 0, 5, 0, 0, 0, 0],
    [0, 0, 0, 0, 0, 0, 0, 6, 0],
    [0, 0, 7, 0, 0, 0, 0, 0, 0],
    [0, 0, 0, 0, 0, 8, 0, 0, 0],
    [0, 0, 0, 0, 0, 0, 0, 0, 0],
];

fn grid_of(digits: [[u8; 9]; 9]) -> Grid {
    let mut cells = [[None; 9]; 9];
    for row in 0..9 {
        for column in 0..9 {
            if digits[row][column] != 0 {
                cells[row][column] = Some(digits[row][column]);
            }
        }
    }
    Grid::from_array(cells).unwrap()
}

fn digits_of(grid: &Grid) -> [[u8; 9]; 9] {
    let mut digits = [[0u8; 9]; 9];
    for row in 0..9 {
        for column in 0..9 {
            let grid_ref = GridReference::from_numbers(row, column).unwrap();
            digits[row][column] = grid.cell(&grid_ref).unwrap_or(0);
        }
    }
    digits
}

fn is_one_to_nine(unit: &[Option<u8>]) -> bool {
    let mut digits: Vec<u8> = unit.iter().map(|cell| cell.unwrap_or(0)).collect();
    digits.sort();
    digits == vec![1, 2, 3, 4, 5, 6, 7, 8, 9]
}

fn is_solution_of(full: &Grid, puzzle: &Grid) -> bool {
    for unit in 0..9 {
        let row = full.row(&RowReference::new(unit).unwrap()).to_vec();
        let column: Vec<Option<u8>> = full
            .column(&ColumnReference::new(unit).unwrap())
            .into_iter()
            .map(|cell| *cell)
            .collect();
        let subgrid = full.subgrid(&SubgridReference::new(unit).unwrap());
        if !is_one_to_nine(&row) || !is_one_to_nine(&column) || !is_one_to_nine(&subgrid) {
            return false;
        }
    }
    let full = digits_of(full);
    let puzzle = digits_of(puzzle);
    for row in 0..9 {
        for column in 0..9 {
            if puzzle[row][column] != 0 && puzzle[row][column] != full[row][column] {
                return false;
            }
        }
    }
    true
}

#[test]
fn no_solution_before_the_search() {
    let grid = grid_of(CLASSIC);
    let solver = Solver::new(&grid);
    assert!(solver.get_solution().is_none());
    let finder = CachedOptionFinder::new(StandardOptionFinder::new(&grid));
    let solver = DepthFirstSolver::new(&grid, finder);
    assert!(solver.get_solution().is_none());
}

#[test]
fn the_classic_puzzle_is_solved() {
    let grid = grid_of(CLASSIC);
    let mut solver = Solver::new(&grid);
    let solution = solver.solve().get_solution();
    let solution = solution.as_ref().unwrap();
    assert_eq!(digits_of(solution), CLASSIC_SOLVED);
    assert!(is_solution_of(solution, &grid));
}

#[test]
fn the_puzzle_is_left_as_it_was() {
    let grid = grid_of(CLASSIC);
    let mut solver = Solver::new(&grid);
    solver.solve();
    assert!(solver.get_solution().is_some());
    assert_eq!(digits_of(&grid), CLASSIC);
}

#[test]
fn the_unsolvable_puzzle_has_no_solution() {
    let grid = grid_of(UNSOLVABLE);
    let mut solver = Solver::new(&grid);
    assert!(solver.solve().get_solution().is_none());
    assert_eq!(digits_of(&grid), UNSOLVABLE);
}

#[test]
fn a_sparse_puzzle_is_solved() {
    let grid = grid_of(SPARSE);
    let mut solver = Solver::new(&grid);
    let solution = solver.solve().get_solution();
    let solution = solution.as_ref().unwrap();
    assert!(is_solution_of(solution, &grid));
}

#[test]
fn the_empty_grid_gets_the_first_of_all_solutions() {
    let grid = Grid::new();
    let mut solver = Solver::new(&grid);
    let solution = solver.solve().get_solution();
    let solution = solution.as_ref().unwrap();
    assert!(is_solution_of(solution, &grid));
    // No solution of the empty grid comes before this one, cell by cell
    assert_eq!(
        digits_of(solution),
        [
            [1, 2, 3, 4, 5, 6, 7, 8, 9],
            [4, 5, 6, 7, 8, 9, 1, 2, 3],
            [7, 8, 9, 1, 2, 3, 4, 5, 6],
            [2, 1, 4, 3, 6, 5, 8, 9, 7],
            [3, 6, 5, 8, 9, 7, 2, 1, 4],
            [8, 9, 7, 2, 1, 4, 3, 6, 5],
            [5, 3, 1, 6, 4, 2, 9, 7, 8],
            [6, 4, 2, 9, 7, 8, 5, 3, 1],
            [9, 7, 8, 5, 3, 1, 6, 4, 2],
        ]
    );
}

#[test]
fn a_solved_grid_is_its_own_solution() {
    let grid = grid_of(CLASSIC_SOLVED);
    let mut solver = Solver::new(&grid);
    let solution = solver.solve().get_solution();
    assert_eq!(digits_of(solution.as_ref().unwrap()), CLASSIC_SOLVED);
}

#[test]
fn the_first_of_two_solutions_is_found() {
    // A solved grid less a rectangle of 1s and 2s, which can be filled in
    // two ways: the search has to come back with the one that starts with 1
    let mut digits = [
        [1, 2, 3, 4, 5, 6, 7, 8, 9],
        [4, 5, 6, 7, 8, 9, 1, 2, 3],
        [7, 8, 9, 1, 2, 3, 4, 5, 6],
        [2, 1, 4, 3, 6, 5, 8, 9, 7],
        [3, 6, 5, 8, 9, 7, 2, 1, 4],
        [8, 9, 7, 2, 1, 4, 3, 6, 5],
        [5, 3, 1, 6, 4, 2, 9, 7, 8],
        [6, 4, 2, 9, 7, 8, 5, 3, 1],
        [9, 7, 8, 5, 3, 1, 6, 4, 2],
    ];
    let full = digits;
    digits[0][0] = 0;
    digits[0][1] = 0;
    digits[3][0] = 0;
    digits[3][1] = 0;
    let grid = grid_of(digits);
    let mut solver = Solver::new(&grid);
    let solution = solver.solve().get_solution();
    assert_eq!(digits_of(solution.as_ref().unwrap()), full);
}

#[test]
fn solving_twice_gives_the_same() {
    let grid = grid_of(CLASSIC);
    let mut solver = Solver::new(&grid);
    let first = digits_of(solver.solve().get_solution().as_ref().unwrap());
    let second = digits_of(solver.solve().get_solution().as_ref().unwrap());
    assert_eq!(first, second);
    assert_eq!(first, CLASSIC_SOLVED);

    let unsolvable = grid_of(UNSOLVABLE);
    let mut solver = Solver::new(&unsolvable);
    assert!(solver.solve().get_solution().is_none());
    assert!(solver.solve().get_solution().is_none());
}

#[test]
fn the_depth_first_solver_solves_the_classic_puzzle() {
    let grid = grid_of(CLASSIC);
    let finder = CachedOptionFinder::new(StandardOptionFinder::new(&grid));
    let mut solver = DepthFirstSolver::new(&grid, finder);
    let solution = solver.solve().get_solution();
    let solution = solution.as_ref().unwrap();
    assert_eq!(digits_of(solution), CLASSIC_SOLVED);
    assert!(is_solution_of(solution, &grid));
    assert_eq!(digits_of(&grid), CLASSIC);
}

#[test]
fn the_depth_first_solver_finds_no_solution_of_the_unsolvable_puzzle() {
    let grid = grid_of(UNSOLVABLE);
    let finder = CachedOptionFinder::new(StandardOptionFinder::new(&grid));
    let mut solver = DepthFirstSolver::new(&grid, finder);
    assert!(solver.solve().get_solution().is_none());
}

#[test]
fn the_depth_first_solver_solves_a_sparse_puzzle() {
    let grid = grid_of(SPARSE);
    let finder = CachedOptionFinder::new(StandardOptionFinder::new(&grid));
    let mut solver = DepthFirstSolver::new(&grid, finder);
    let solution = solver.solve().get_solution();
    assert!(is_solution_of(solution.as_ref().unwrap(), &grid));
}

#[test]
fn the_depth_first_solver_keeps_a_solved_grid() {
    let grid = grid_of(CLASSIC_SOLVED);
    let finder = CachedOptionFinder::new(StandardOptionFinder::new(&grid));
    let mut solver = DepthFirstSolver::new(&grid, finder);
    let solution = solver.solve().get_solution();
    assert_eq!(digits_of(solution.as_ref().unwrap()), CLASSIC_SOLVED);
}

#[test]
fn the_depth_first_solver_gives_the_same_twice() {
    let grid = grid_of(CLASSIC);
    let finder = CachedOptionFinder::new(StandardOptionFinder::new(&grid));
    let mut solver = DepthFirstSolver::new(&grid, finder);
    let first = digits_of(solver.solve().get_solution().as_ref().unwrap());
    let second = digits_of(solver.solve().get_solution().as_ref().unwrap());
    assert_eq!(first, second);
}

#[test]
fn both_solvers_find_the_same() {
    for digits in [CLASSIC, SPARSE, CLASSIC_SOLVED, [[0u8; 9]; 9]] {
        let grid = grid_of(digits);
        let mut solver = Solver::new(&grid);
        let plain = digits_of(solver.solve().get_solution().as_ref().unwrap());
        let finder = CachedOptionFinder::new(StandardOptionFinder::new(&grid));
        let mut solver = DepthFirstSolver::new(&grid, finder);
        let cached = digits_of(solver.solve().get_solution().as_ref().unwrap());
        assert_eq!(plain, cached);
    }
}
