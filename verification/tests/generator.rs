use sudoku_engine::generator::{field_from_grid, RestSudokuGenerator, SudokuGenerator};
use sudoku_engine::grid::{SudokuCell, SudokuField};

fn sample_grid() -> Vec<Vec<u8>> {
    vec![
        vec![5, 3, 0, 0, 7, 0, 0, 0, 0],
        vec![6, 0, 0, 1, 9, 5, 0, 0, 0],
        vec![0, 9, 8, 0, 0, 0, 0, 6, 0],
        vec![8, 0, 0, 0, 6, 0, 0, 0, 3],
        vec![4, 0, 0, 8, 0, 3, 0, 0, 1],
        vec![7, 0, 0, 0, 2, 0, 0, 0, 6],
        vec![0, 6, 0, 0, 0, 0, 2, 8, 0],
        vec![0, 0, 0, 4, 1, 9, 0, 0, 5],
        vec![0, 0, 0, 0, 8, 0, 0, 7, 9],
    ]
}

#[test]
fn grid_entries_become_fixed_cells_and_zeros_blank_ones() {
    let grid = sample_grid();
    let field = field_from_grid(&grid).unwrap();
    for row in 0..9 {
        for col in 0..9 {
            let entry = grid[row][col];
            let expected = if entry == 0 {
                SudokuCell { value: None, fixed: false, invalid: false }
            } else {
                SudokuCell { value: Some(entry), fixed: true, invalid: false }
            };
            assert_eq!(field.rows[row].cells[col], expected);
        }
    }
    assert!(field.valid);
    assert!(!field.solved);
    assert_eq!(field.count_filled(), 30);
}

#[test]
fn all_zero_grid_decodes_to_the_blank_field() {
    let grid = vec![vec![0u8; 9]; 9];
    assert_eq!(field_from_grid(&grid), Some(SudokuField::new()));
}

#[test]
fn decoded_board_keeps_the_flags_of_a_fresh_one() {
    let grid = vec![vec![1u8; 9]; 9];
    let field = field_from_grid(&grid).unwrap();
    assert!(field.valid);
    assert!(!field.solved);
    assert_eq!(field.count_filled(), 81);
    assert_eq!(field.rows[8].cells[8], SudokuCell { value: Some(1), fixed: true, invalid: false });
}

#[test]
fn grid_with_too_few_rows_is_malformed() {
    let mut grid = sample_grid();
    grid.pop();
    assert_eq!(field_from_grid(&grid), None);
    assert_eq!(field_from_grid(&Vec::new()), None);
}

#[test]
fn grid_with_too_many_rows_is_malformed() {
    let mut grid = sample_grid();
    grid.push(vec![0; 9]);
    assert_eq!(field_from_grid(&grid), None);
}

#[test]
fn grid_with_a_short_or_long_row_is_malformed() {
    let mut short = sample_grid();
    short[8].pop();
    assert_eq!(field_from_grid(&short), None);
    let mut long = sample_grid();
    long[0].push(1);
    assert_eq!(field_from_grid(&long), None);
}

#[test]
fn grid_with_an_entry_above_nine_is_malformed() {
    let mut grid = sample_grid();
    grid[8][8] = 10;
    assert_eq!(field_from_grid(&grid), None);
    grid[8][8] = 9;
    grid[0][2] = 255;
    assert_eq!(field_from_grid(&grid), None);
    grid[0][2] = 9;
    assert!(field_from_grid(&grid).is_some());
}

#[test]
fn generator_without_a_reply_hands_over_nothing() {
    let generator = RestSudokuGenerator::new();
    assert_eq!(generator.generate(), None);
}

#[test]
fn generator_decodes_the_reply_it_received() {
    let mut generator = RestSudokuGenerator::new();
    generator.receive(Some(sample_grid()));
    let expected = field_from_grid(&sample_grid());
    assert!(expected.is_some());
    assert_eq!(generator.generate(), expected);
    assert_eq!(generator.generate(), expected);
}

#[test]
fn generator_drops_the_reply_when_the_source_failed() {
    let mut generator = RestSudokuGenerator::new();
    generator.receive(Some(sample_grid()));
    generator.receive(None);
    assert_eq!(generator.generate(), None);
}

#[test]
fn generator_hands_over_nothing_for_a_malformed_reply() {
    let mut generator = RestSudokuGenerator::new();
    let mut grid = sample_grid();
    grid[4][4] = 12;
    generator.receive(Some(grid));
    assert_eq!(generator.generate(), None);
}
