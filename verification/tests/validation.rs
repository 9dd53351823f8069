use sudoku_engine::grid::{SudokuCell, SudokuField};
use sudoku_engine::validation::check_field;

fn put(field: &mut SudokuField, row: usize, col: usize, digit: u8, fixed: bool) {
    field.rows[row].cells[col] = SudokuCell { value: Some(digit), fixed, invalid: false };
}

fn solution_digit(row: usize, col: usize) -> u8 {
    ((row * 3 + row / 3 + col) % 9 + 1) as u8
}

fn marked_cells(field: &SudokuField) -> Vec<(usize, usize)> {
    let mut marked = Vec::new();
    for row in 0..9 {
        for col in 0..9 {
            if field.rows[row].cells[col].invalid {
                marked.push((row, col));
            }
        }
    }
    marked
}

#[test]
fn blank_field_checks_valid_and_unsolved() {
    let checked = check_field(SudokuField::new());
    assert!(checked.valid);
    assert!(!checked.solved);
    assert_eq!(checked, SudokuField::new());
}

#[test]
fn row_duplicate_marks_both_cells() {
    let mut field = SudokuField::new();
    put(&mut field, 4, 1, 5, false);
    put(&mut field, 4, 7, 5, false);
    put(&mut field, 4, 3, 2, false);
    let checked = check_field(field);
    for col in 0..9 {
        let expected = col == 1 || col == 7;
        assert_eq!(checked.rows[4].cells[col].invalid, expected);
    }
    assert_eq!(marked_cells(&checked), vec![(4, 1), (4, 7)]);
    assert!(!checked.valid);
    assert!(!checked.solved);
}

#[test]
fn column_duplicate_marks_both_cells() {
    let mut field = SudokuField::new();
    put(&mut field, 0, 6, 3, false);
    put(&mut field, 8, 6, 3, false);
    put(&mut field, 5, 6, 4, false);
    let checked = check_field(field);
    assert_eq!(marked_cells(&checked), vec![(0, 6), (8, 6)]);
    assert!(!checked.valid);
}

#[test]
fn box_duplicate_off_row_and_column_marks_both_cells() {
    let mut field = SudokuField::new();
    put(&mut field, 0, 0, 7, false);
    put(&mut field, 1, 1, 7, false);
    let checked = check_field(field);
    assert!(checked.rows[0].cells[0].invalid);
    assert!(checked.rows[1].cells[1].invalid);
    assert_eq!(marked_cells(&checked), vec![(0, 0), (1, 1)]);
    assert!(!checked.valid);
}

#[test]
fn same_digit_in_unrelated_cells_is_no_duplicate() {
    let mut field = SudokuField::new();
    put(&mut field, 0, 0, 7, false);
    put(&mut field, 4, 4, 7, false);
    put(&mut field, 2, 2, 6, false);
    put(&mut field, 3, 3, 6, false);
    let checked = check_field(field);
    assert_eq!(marked_cells(&checked), vec![]);
    assert!(checked.valid);
}

#[test]
fn three_equal_digits_in_a_row_are_all_marked() {
    let mut field = SudokuField::new();
    put(&mut field, 6, 0, 9, false);
    put(&mut field, 6, 4, 9, false);
    put(&mut field, 6, 8, 9, false);
    let checked = check_field(field);
    assert_eq!(marked_cells(&checked), vec![(6, 0), (6, 4), (6, 8)]);
}

#[test]
fn fixed_cells_are_never_marked() {
    let mut field = SudokuField::new();
    put(&mut field, 2, 0, 5, true);
    put(&mut field, 2, 8, 5, false);
    let checked = check_field(field);
    assert!(!checked.rows[2].cells[0].invalid);
    assert!(checked.rows[2].cells[0].fixed);
    assert!(checked.rows[2].cells[8].invalid);
    assert!(!checked.valid);
}

#[test]
fn two_fixed_duplicates_leave_the_field_valid() {
    let mut field = SudokuField::new();
    put(&mut field, 3, 3, 8, true);
    put(&mut field, 3, 5, 8, true);
    let checked = check_field(field);
    assert_eq!(marked_cells(&checked), vec![]);
    assert!(checked.valid);
}

#[test]
fn fixed_duplicates_still_count_against_a_free_cell() {
    let mut field = SudokuField::new();
    put(&mut field, 3, 3, 8, true);
    put(&mut field, 3, 5, 8, true);
    put(&mut field, 7, 5, 8, false);
    let checked = check_field(field);
    assert_eq!(marked_cells(&checked), vec![(7, 5)]);
    assert!(!checked.valid);
}

#[test]
fn check_is_idempotent() {
    let mut field = SudokuField::new();
    put(&mut field, 0, 0, 7, false);
    put(&mut field, 1, 1, 7, false);
    put(&mut field, 0, 5, 7, true);
    put(&mut field, 8, 8, 1, false);
    put(&mut field, 5, 2, 4, true);
    let once = check_field(field);
    let twice = check_field(once);
    assert_eq!(twice, once);
    assert_eq!(marked_cells(&once), vec![(0, 0), (1, 1)]);
}

#[test]
fn stale_marks_and_flags_are_recomputed() {
    let mut field = SudokuField::new();
    put(&mut field, 1, 2, 3, false);
    field.rows[1].cells[2].invalid = true;
    field.rows[6].cells[6].invalid = true;
    field.valid = false;
    field.solved = true;
    let checked = check_field(field);
    assert_eq!(marked_cells(&checked), vec![]);
    assert!(checked.valid);
    assert!(!checked.solved);
    assert_eq!(checked.rows[1].cells[2].value, Some(3));
}

#[test]
fn check_keeps_digits_and_fixed_flags() {
    let mut field = SudokuField::new();
    put(&mut field, 0, 0, 1, true);
    put(&mut field, 0, 1, 1, false);
    put(&mut field, 5, 5, 9, false);
    let checked = check_field(field);
    for row in 0..9 {
        for col in 0..9 {
            assert_eq!(checked.rows[row].cells[col].value, field.rows[row].cells[col].value);
            assert_eq!(checked.rows[row].cells[col].fixed, field.rows[row].cells[col].fixed);
        }
    }
}

#[test]
fn complete_solution_is_valid_and_solved() {
    let mut field = SudokuField::new();
    for row in 0..9 {
        for col in 0..9 {
            put(&mut field, row, col, solution_digit(row, col), false);
        }
    }
    let checked = check_field(field);
    assert!(checked.valid);
    assert!(checked.solved);
    assert_eq!(marked_cells(&checked), vec![]);
}

#[test]
fn full_board_with_a_duplicate_is_solved_but_not_valid() {
    let mut field = SudokuField::new();
    for row in 0..9 {
        for col in 0..9 {
            put(&mut field, row, col, solution_digit(row, col), false);
        }
    }
    let taken = field.rows[0].cells[1].value.unwrap();
    field.rows[0].cells[0].value = Some(taken);
    let checked = check_field(field);
    assert!(checked.solved);
    assert!(!checked.valid);
    assert!(checked.rows[0].cells[0].invalid);
    assert!(checked.rows[0].cells[1].invalid);
}
