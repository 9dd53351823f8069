use sudoku_engine::grid::{SudokuCell, SudokuField, SudokuRow};
use sudoku_engine::units::box_of;

fn solution_digit(row: usize, col: usize) -> u8 {
    ((row * 3 + row / 3 + col) % 9 + 1) as u8
}

#[test]
fn new_cell_is_blank() {
    let cell = SudokuCell::new();
    assert_eq!(cell.value, None);
    assert!(!cell.fixed);
    assert!(!cell.invalid);
    assert!(cell.is_valid());
    assert!(!cell.is_solved());
}

#[test]
fn cell_predicates_read_the_cell() {
    let filled = SudokuCell { value: Some(4), fixed: false, invalid: false };
    assert!(filled.is_solved());
    assert!(filled.is_valid());
    let marked = SudokuCell { value: Some(4), fixed: false, invalid: true };
    assert!(marked.is_solved());
    assert!(!marked.is_valid());
}

#[test]
fn new_row_has_nine_blank_cells() {
    let row = SudokuRow::new();
    assert_eq!(row.cells.len(), 9);
    for cell in row.cells.iter() {
        assert_eq!(*cell, SudokuCell::new());
    }
    assert!(row.is_valid());
    assert!(!row.is_solved());
}

#[test]
fn row_is_solved_only_when_every_cell_holds_a_digit() {
    let mut row = SudokuRow::new();
    for col in 0..8 {
        row.cells[col].value = Some((col + 1) as u8);
    }
    assert!(!row.is_solved());
    row.cells[8].value = Some(9);
    assert!(row.is_solved());
}

#[test]
fn row_is_valid_only_when_no_cell_is_marked() {
    let mut row = SudokuRow::new();
    assert!(row.is_valid());
    row.cells[8].invalid = true;
    assert!(!row.is_valid());
    row.cells[8].invalid = false;
    row.cells[0].invalid = true;
    assert!(!row.is_valid());
}

#[test]
fn new_field_is_blank_valid_and_unsolved() {
    let field = SudokuField::new();
    assert_eq!(field.rows.len(), 9);
    for row in 0..9 {
        for col in 0..9 {
            let cell = field.rows[row].cells[col];
            assert_eq!(cell.value, None);
            assert!(!cell.fixed);
            assert!(!cell.invalid);
        }
    }
    assert!(field.valid);
    assert!(!field.solved);
    assert!(field.is_valid());
    assert!(!field.is_solved());
    assert_eq!(field.count_filled(), 0);
    assert!(field.holds_digits());
}

#[test]
fn field_predicates_read_the_cells_not_the_flags() {
    let mut field = SudokuField::new();
    field.valid = false;
    field.solved = true;
    assert!(field.is_valid());
    assert!(!field.is_solved());
    field.rows[8].cells[8].invalid = true;
    field.valid = true;
    assert!(!field.is_valid());
}

#[test]
fn full_field_is_solved() {
    let mut field = SudokuField::new();
    for row in 0..9 {
        for col in 0..9 {
            field.rows[row].cells[col].value = Some(solution_digit(row, col));
        }
    }
    assert!(field.is_solved());
    assert_eq!(field.count_filled(), 81);
    field.rows[3].cells[5].value = None;
    assert!(!field.is_solved());
    assert_eq!(field.count_filled(), 80);
}

#[test]
fn count_filled_counts_cells_with_a_digit() {
    let mut field = SudokuField::new();
    field.rows[0].cells[0].value = Some(1);
    field.rows[8].cells[8].value = Some(9);
    field.rows[4].cells[2].value = Some(5);
    field.rows[4].cells[2].fixed = true;
    assert_eq!(field.count_filled(), 3);
}

#[test]
fn holds_digits_refuses_zero_and_ten() {
    let mut field = SudokuField::new();
    field.rows[2].cells[2].value = Some(9);
    field.rows[2].cells[3].value = Some(1);
    assert!(field.holds_digits());
    field.rows[8].cells[8].value = Some(0);
    assert!(!field.holds_digits());
    field.rows[8].cells[8].value = Some(10);
    assert!(!field.holds_digits());
    field.rows[8].cells[8].value = None;
    assert!(field.holds_digits());
}

#[test]
fn box_of_follows_the_three_by_three_partition() {
    assert_eq!(box_of(0, 0), 0);
    assert_eq!(box_of(2, 2), 0);
    assert_eq!(box_of(0, 3), 1);
    assert_eq!(box_of(1, 8), 2);
    assert_eq!(box_of(3, 0), 3);
    assert_eq!(box_of(4, 4), 4);
    assert_eq!(box_of(5, 6), 5);
    assert_eq!(box_of(6, 2), 6);
    assert_eq!(box_of(7, 5), 7);
    assert_eq!(box_of(8, 8), 8);
    for row in 0..9 {
        for col in 0..9 {
            assert_eq!(box_of(row, col), (row / 3) * 3 + col / 3);
        }
    }
}
