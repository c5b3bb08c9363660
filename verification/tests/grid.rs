use sudoku_rust::sudoku::error::{
    AnswerRangeError, InvalidColumn, SudokuError, UniquenessConstraint, UniquenessError,
};
use sudoku_rust::sudoku::{
    CellValue, ColumnReference, Grid, GridReference, RowReference, SubgridReference,
};

const CLASSIC: [[u8; 9]; 9] = [
    [5, 3, 0, 0, 7, 0, 0, 0, 0],
    [6, 0, 0, 1, 9, 5, 0, 0, 0],
    [0, 9, 8, 0, 0, 0, 0, 6, 0],
    [8, 0, 0, 0, 6, 0, 0, 0, 3],
    [4, 0, 0, 8, 0, 3, 0, 0, 1],
    [7, 0, 0, 0, 2, 0, 0, 0, 6],
    [0, 6, 0, 0, 0, 0, 2, 8, 0],
    [0, 0, 0, 4, 1, 9, 0, 0, 5],
    [0, 0, 0, 0, 8, 0, 0, 7, 9],
];

fn cells(digits: [[u8; 9]; 9]) -> [[Option<u8>; 9]; 9] {
    let mut cells = [[None; 9]; 9];
    for row in 0..9 {
        for column in 0..9 {
            if digits[row][column] != 0 {
                cells[row][column] = Some(digits[row][column]);
            }
        }
    }
    cells
}

fn at(row: usize, column: usize) -> GridReference {
    GridReference::from_numbers(row, column).unwrap()
}

fn digit(value: u8) -> CellValue {
    CellValue::new(value).unwrap()
}

fn snapshot(grid: &Grid) -> Vec<Option<u8>> {
    let mut all = Vec::new();
    for row in 0..9 {
        for column in 0..9 {
            all.push(*grid.cell(&at(row, column)));
        }
    }
    all
}

fn has_no_repeat(unit: &[Option<u8>]) -> bool {
    for a in 0..unit.len() {
        for b in a + 1..unit.len() {
            if unit[a].is_some() && unit[a] == unit[b] {
                return false;
            }
        }
    }
    true
}

fn keeps_the_rule(grid: &Grid) -> bool {
    for unit in 0..9 {
        let row = grid.row(&RowReference::new(unit).unwrap()).to_vec();
        let column: Vec<Option<u8>> = grid
            .column(&ColumnReference::new(unit).unwrap())
            .into_iter()
            .map(|cell| *cell)
            .collect();
        let subgrid = grid.subgrid(&SubgridReference::new(unit).unwrap());
        if !has_no_repeat(&row) || !has_no_repeat(&column) || !has_no_repeat(&subgrid) {
            return false;
        }
    }
    true
}

#[test]
fn new_grid_is_empty() {
    let grid = Grid::new();
    assert_eq!(snapshot(&grid), vec![None; 81]);
}

#[test]
fn from_array_holds_the_array() {
    let grid = Grid::from_array(cells(CLASSIC)).unwrap();
    for row in 0..9 {
        for column in 0..9 {
            assert_eq!(*grid.cell(&at(row, column)), cells(CLASSIC)[row][column]);
        }
    }
    assert!(keeps_the_rule(&grid));
}

#[test]
fn from_array_of_nothing_is_the_empty_grid() {
    let grid = Grid::from_array([[None; 9]; 9]).unwrap();
    assert_eq!(snapshot(&grid), vec![None; 81]);
}

#[test]
fn from_array_rejects_a_digit_above_nine() {
    let mut digits = CLASSIC;
    digits[4][4] = 10;
    assert_eq!(
        Grid::from_array(cells(digits)).unwrap_err(),
        SudokuError::AnswerRange(AnswerRangeError { value: 10 })
    );
}

#[test]
fn from_array_rejects_a_zero() {
    let mut array = cells(CLASSIC);
    array[8][0] = Some(0);
    assert_eq!(
        Grid::from_array(array).unwrap_err(),
        SudokuError::AnswerRange(AnswerRangeError { value: 0 })
    );
}

#[test]
fn from_array_rejects_a_repeat_in_a_row() {
    let mut digits = CLASSIC;
    digits[0][8] = 5;
    assert_eq!(
        Grid::from_array(cells(digits)).unwrap_err(),
        SudokuError::Uniqueness(UniquenessError {
            row: 0,
            column: 8,
            value: 5,
            violation: UniquenessConstraint::Row,
        })
    );
}

#[test]
fn from_array_rejects_a_repeat_in_a_column() {
    let mut digits = CLASSIC;
    digits[8][0] = 5;
    assert_eq!(
        Grid::from_array(cells(digits)).unwrap_err(),
        SudokuError::Uniqueness(UniquenessError {
            row: 8,
            column: 0,
            value: 5,
            violation: UniquenessConstraint::Column,
        })
    );
}

#[test]
fn from_array_rejects_a_repeat_in_a_subgrid() {
    let mut digits = CLASSIC;
    digits[1][1] = 8;
    assert_eq!(
        Grid::from_array(cells(digits)).unwrap_err(),
        SudokuError::Uniqueness(UniquenessError {
            row: 2,
            column: 2,
            value: 8,
            violation: UniquenessConstraint::SubGrid,
        })
    );
}

#[test]
fn from_array_reports_the_first_bad_cell() {
    let mut digits = CLASSIC;
    digits[0][2] = 5;
    digits[0][3] = 11;
    assert_eq!(
        Grid::from_array(cells(digits)).unwrap_err(),
        SudokuError::Uniqueness(UniquenessError {
            row: 0,
            column: 2,
            value: 5,
            violation: UniquenessConstraint::Row,
        })
    );
    let mut digits = CLASSIC;
    digits[0][2] = 11;
    digits[0][3] = 5;
    assert_eq!(
        Grid::from_array(cells(digits)).unwrap_err(),
        SudokuError::AnswerRange(AnswerRangeError { value: 11 })
    );
}

#[test]
fn row_is_nine_cells_left_to_right() {
    let grid = Grid::from_array(cells(CLASSIC)).unwrap();
    assert_eq!(
        grid.row(&RowReference::new(1).unwrap()),
        &[Some(6), None, None, Some(1), Some(9), Some(5), None, None, None]
    );
    assert_eq!(
        grid.row(&RowReference::new(8).unwrap()),
        &[None, None, None, None, Some(8), None, None, Some(7), Some(9)]
    );
}

#[test]
fn column_is_nine_cells_top_to_bottom() {
    let grid = Grid::from_array(cells(CLASSIC)).unwrap();
    let column: Vec<Option<u8>> = grid
        .column(&ColumnReference::new(4).unwrap())
        .into_iter()
        .map(|cell| *cell)
        .collect();
    assert_eq!(
        column,
        vec![Some(7), Some(9), None, Some(6), None, Some(2), None, Some(1), Some(8)]
    );
    let column: Vec<Option<u8>> = grid
        .column(&ColumnReference::new(0).unwrap())
        .into_iter()
        .map(|cell| *cell)
        .collect();
    assert_eq!(
        column,
        vec![Some(5), Some(6), None, Some(8), Some(4), Some(7), None, None, None]
    );
}

#[test]
fn col_takes_a_number() {
    let grid = Grid::from_array(cells(CLASSIC)).unwrap();
    let column: Vec<Option<u8>> = grid.col(8).unwrap().into_iter().map(|cell| *cell).collect();
    assert_eq!(
        column,
        vec![None, None, None, Some(3), Some(1), Some(6), None, Some(5), Some(9)]
    );
    assert_eq!(grid.col(9).unwrap_err(), InvalidColumn { column_id: 9 });
}

#[test]
fn subgrid_is_nine_cells_row_by_row() {
    let grid = Grid::from_array(cells(CLASSIC)).unwrap();
    assert_eq!(
        grid.subgrid(&SubgridReference::new(0).unwrap()),
        vec![Some(5), Some(3), None, Some(6), None, None, None, Some(9), Some(8)]
    );
    assert_eq!(
        grid.subgrid(&SubgridReference::new(4).unwrap()),
        vec![None, Some(6), None, Some(8), None, Some(3), None, Some(2), None]
    );
    assert_eq!(
        grid.subgrid(&SubgridReference::new(5).unwrap()),
        vec![None, None, Some(3), None, None, Some(1), None, None, Some(6)]
    );
    assert_eq!(
        grid.subgrid(&SubgridReference::new(8).unwrap()),
        vec![Some(2), Some(8), None, None, None, Some(5), None, Some(7), Some(9)]
    );
}

#[test]
fn subgrid_cells_lie_where_the_layout_says() {
    let mut grid = Grid::new();
    grid.set_cell(&at(3, 3), &digit(1)).unwrap();
    grid.set_cell(&at(3, 5), &digit(2)).unwrap();
    grid.set_cell(&at(5, 3), &digit(3)).unwrap();
    grid.set_cell(&at(5, 5), &digit(4)).unwrap();
    assert_eq!(
        grid.subgrid(&SubgridReference::new(4).unwrap()),
        vec![Some(1), None, Some(2), None, None, None, Some(3), None, Some(4)]
    );
    assert_eq!(snapshot(&grid)[30], Some(1));
    assert_eq!(snapshot(&grid)[32], Some(2));
    assert_eq!(snapshot(&grid)[48], Some(3));
    assert_eq!(snapshot(&grid)[50], Some(4));
}

#[test]
fn subgrid_at_is_the_subgrid_of_the_cell() {
    let grid = Grid::from_array(cells(CLASSIC)).unwrap();
    for row in 0..9 {
        for column in 0..9 {
            let subgrid = SubgridReference::new((row / 3) * 3 + column / 3).unwrap();
            assert_eq!(grid.subgrid_at(&at(row, column)), grid.subgrid(&subgrid));
            assert_eq!(grid.subgrid_values_at(&at(row, column)), grid.subgrid_values(&subgrid));
        }
    }
}

#[test]
fn values_are_the_filled_cells_in_order() {
    let grid = Grid::from_array(cells(CLASSIC)).unwrap();
    assert_eq!(grid.row_values(&RowReference::new(0).unwrap()), vec![5, 3, 7]);
    assert_eq!(grid.row_values(&RowReference::new(4).unwrap()), vec![4, 8, 3, 1]);
    assert_eq!(grid.col_values(&ColumnReference::new(4).unwrap()), vec![7, 9, 6, 2, 1, 8]);
    assert_eq!(grid.col_values(&ColumnReference::new(2).unwrap()), vec![8]);
    assert_eq!(grid.subgrid_values(&SubgridReference::new(0).unwrap()), vec![5, 3, 6, 9, 8]);
    assert_eq!(grid.subgrid_values(&SubgridReference::new(7).unwrap()), vec![4, 1, 9, 8]);
    assert_eq!(grid.subgrid_values_at(&at(4, 4)), vec![6, 8, 3, 2]);
}

#[test]
fn values_of_an_empty_grid_are_none() {
    let grid = Grid::new();
    assert_eq!(grid.row_values(&RowReference::new(0).unwrap()), Vec::<u8>::new());
    assert_eq!(grid.col_values(&ColumnReference::new(0).unwrap()), Vec::<u8>::new());
    assert_eq!(grid.subgrid_values(&SubgridReference::new(0).unwrap()), Vec::<u8>::new());
}

#[test]
fn set_cell_writes_the_digit() {
    let mut grid = Grid::from_array(cells(CLASSIC)).unwrap();
    let before = snapshot(&grid);
    assert!(grid.set_cell(&at(0, 2), &digit(4)).is_ok());
    let mut expected = before;
    expected[2] = Some(4);
    assert_eq!(snapshot(&grid), expected);
}

#[test]
fn set_cell_hands_back_the_grid() {
    let mut grid = Grid::new();
    grid.set_cell(&at(0, 0), &digit(1))
        .unwrap()
        .set_cell(&at(0, 1), &digit(2))
        .unwrap()
        .clear_cell(&at(0, 0));
    assert_eq!(*grid.cell(&at(0, 0)), None);
    assert_eq!(*grid.cell(&at(0, 1)), Some(2));
}

#[test]
fn set_cell_refuses_a_repeat_in_the_row() {
    let mut grid = Grid::from_array(cells(CLASSIC)).unwrap();
    let before = snapshot(&grid);
    let error = grid.set_cell(&at(0, 8), &digit(3)).unwrap_err();
    assert_eq!(error, UniquenessError::new(0, 8, 3, UniquenessConstraint::Row));
    assert_eq!(snapshot(&grid), before);
}

#[test]
fn set_cell_refuses_a_repeat_in_the_column() {
    let mut grid = Grid::from_array(cells(CLASSIC)).unwrap();
    let before = snapshot(&grid);
    let error = grid.set_cell(&at(2, 0), &digit(4)).unwrap_err();
    assert_eq!(error, UniquenessError::new(2, 0, 4, UniquenessConstraint::Column));
    assert_eq!(snapshot(&grid), before);
}

#[test]
fn set_cell_refuses_a_repeat_in_the_subgrid() {
    let mut grid = Grid::from_array(cells(CLASSIC)).unwrap();
    let before = snapshot(&grid);
    let error = grid.set_cell(&at(1, 1), &digit(8)).unwrap_err();
    assert_eq!(error, UniquenessError::new(1, 1, 8, UniquenessConstraint::SubGrid));
    assert_eq!(snapshot(&grid), before);
}

#[test]
fn set_cell_names_the_row_before_the_column_and_the_subgrid() {
    let mut grid = Grid::new();
    grid.set_cell(&at(0, 0), &digit(7)).unwrap();
    // (0, 1) shares the row and the subgrid with (0, 0)
    let error = grid.set_cell(&at(0, 1), &digit(7)).unwrap_err();
    assert_eq!(error.violation, UniquenessConstraint::Row);
    // (1, 0) shares the column and the subgrid with (0, 0)
    let error = grid.set_cell(&at(1, 0), &digit(7)).unwrap_err();
    assert_eq!(error.violation, UniquenessConstraint::Column);
    // (1, 1) shares only the subgrid with (0, 0)
    let error = grid.set_cell(&at(1, 1), &digit(7)).unwrap_err();
    assert_eq!(error.violation, UniquenessConstraint::SubGrid);
    // (4, 4) shares nothing with (0, 0)
    assert!(grid.set_cell(&at(4, 4), &digit(7)).is_ok());
}

#[test]
fn set_cell_failure_keeps_the_former_digit() {
    let mut grid = Grid::from_array(cells(CLASSIC)).unwrap();
    let before = snapshot(&grid);
    // (0, 0) holds 5; 3 stands in its row
    let error = grid.set_cell(&at(0, 0), &digit(3)).unwrap_err();
    assert_eq!(error, UniquenessError::new(0, 0, 3, UniquenessConstraint::Row));
    assert_eq!(*grid.cell(&at(0, 0)), Some(5));
    assert_eq!(snapshot(&grid), before);
}

#[test]
fn set_cell_overwrites_a_filled_cell() {
    let mut grid = Grid::from_array(cells(CLASSIC)).unwrap();
    assert!(grid.set_cell(&at(0, 0), &digit(1)).is_ok());
    assert_eq!(*grid.cell(&at(0, 0)), Some(1));
    assert!(keeps_the_rule(&grid));
}

#[test]
fn set_cell_accepts_the_digit_the_cell_holds() {
    let mut grid = Grid::from_array(cells(CLASSIC)).unwrap();
    let before = snapshot(&grid);
    assert!(grid.set_cell(&at(0, 0), &digit(5)).is_ok());
    assert_eq!(snapshot(&grid), before);
}

#[test]
fn clear_cell_empties_the_cell() {
    let mut grid = Grid::from_array(cells(CLASSIC)).unwrap();
    let before = snapshot(&grid);
    grid.clear_cell(&at(0, 0));
    let mut expected = before;
    expected[0] = None;
    assert_eq!(snapshot(&grid), expected);
    grid.clear_cell(&at(0, 0));
    assert_eq!(snapshot(&grid), expected);
}

#[test]
fn clear_cell_makes_room_for_the_digit() {
    let mut grid = Grid::new();
    grid.set_cell(&at(0, 0), &digit(9)).unwrap();
    assert!(grid.set_cell(&at(0, 8), &digit(9)).is_err());
    grid.clear_cell(&at(0, 0));
    assert!(grid.set_cell(&at(0, 8), &digit(9)).is_ok());
}

#[test]
fn clone_is_a_grid_of_its_own() {
    let grid = Grid::from_array(cells(CLASSIC)).unwrap();
    let mut copy = grid.clone();
    assert_eq!(snapshot(&copy), snapshot(&grid));
    copy.set_cell(&at(0, 2), &digit(4)).unwrap();
    assert_eq!(*grid.cell(&at(0, 2)), None);
    assert_eq!(*copy.cell(&at(0, 2)), Some(4));
}

#[test]
fn the_rule_holds_after_every_write() {
    let mut grid = Grid::new();
    let mut written = 0;
    for row in 0..9 {
        for column in 0..9 {
            for value in 1..=9u8 {
                if grid.set_cell(&at(row, column), &digit(value)).is_ok() {
                    written += 1;
                    break;
                }
            }
            assert!(keeps_the_rule(&grid));
        }
    }
    assert!(written >= 27);
}
