use sudoku_engine::grid::{SudokuCell, SudokuField};
use sudoku_engine::store::{MemSudokuRepo, SudokuRepo};

#[test]
fn new_store_holds_the_blank_field() {
    let repo = MemSudokuRepo::new();
    assert_eq!(repo.get_field(), SudokuField::new());
}

#[test]
fn set_field_then_get_field_round_trips() {
    let mut field = SudokuField::new();
    field.rows[0].cells[0] = SudokuCell { value: Some(3), fixed: true, invalid: false };
    field.rows[7].cells[2] = SudokuCell { value: Some(8), fixed: false, invalid: true };
    field.rows[8].cells[8] = SudokuCell { value: None, fixed: true, invalid: false };
    field.valid = false;
    field.solved = true;
    let mut repo = MemSudokuRepo::new();
    repo.set_field(field);
    assert_eq!(repo.get_field(), field);
}

#[test]
fn get_field_hands_out_a_copy() {
    let mut repo = MemSudokuRepo::new();
    let mut copy = repo.get_field();
    copy.rows[0].cells[0].value = Some(1);
    assert_eq!(repo.get_field(), SudokuField::new());
    repo.set_cell(1, 1, 2);
    assert_eq!(copy.rows[1].cells[1].value, None);
}

#[test]
fn set_cell_writes_the_digit_only() {
    let mut repo = MemSudokuRepo::new();
    repo.set_cell(3, 4, 6);
    let field = repo.get_field();
    let mut expected = SudokuField::new();
    expected.rows[3].cells[4].value = Some(6);
    assert_eq!(field, expected);
}

#[test]
fn set_cell_on_a_fixed_cell_changes_nothing() {
    let mut repo = MemSudokuRepo::new();
    repo.set_cell_fixed(2, 2, 4);
    let before = repo.get_field();
    repo.set_cell(2, 2, 9);
    assert_eq!(repo.get_field(), before);
    assert_eq!(before.rows[2].cells[2], SudokuCell { value: Some(4), fixed: true, invalid: false });
}

#[test]
fn set_cell_fixed_overwrites_a_fixed_cell_and_keeps_it_fixed() {
    let mut repo = MemSudokuRepo::new();
    repo.set_cell_fixed(2, 2, 4);
    repo.set_cell_fixed(2, 2, 9);
    let field = repo.get_field();
    assert_eq!(field.rows[2].cells[2], SudokuCell { value: Some(9), fixed: true, invalid: false });
    let mut expected = SudokuField::new();
    expected.rows[2].cells[2] = SudokuCell { value: Some(9), fixed: true, invalid: false };
    assert_eq!(field, expected);
}

#[test]
fn set_cell_fixed_pins_a_free_cell() {
    let mut repo = MemSudokuRepo::new();
    repo.set_cell(5, 0, 1);
    repo.set_cell_fixed(5, 0, 2);
    assert_eq!(
        repo.get_field().rows[5].cells[0],
        SudokuCell { value: Some(2), fixed: true, invalid: false }
    );
}

#[test]
fn reset_cell_clears_a_free_cell() {
    let mut repo = MemSudokuRepo::new();
    repo.set_cell(8, 0, 7);
    repo.reset_cell(8, 0);
    assert_eq!(repo.get_field(), SudokuField::new());
}

#[test]
fn reset_cell_on_a_fixed_cell_changes_nothing() {
    let mut repo = MemSudokuRepo::new();
    repo.set_cell_fixed(8, 0, 7);
    let before = repo.get_field();
    repo.reset_cell(8, 0);
    assert_eq!(repo.get_field(), before);
}

#[test]
fn reset_fixed_cell_clears_the_digit_and_keeps_the_flag() {
    let mut repo = MemSudokuRepo::new();
    repo.set_cell_fixed(0, 8, 7);
    repo.reset_fixed_cell(0, 8);
    assert_eq!(
        repo.get_field().rows[0].cells[8],
        SudokuCell { value: None, fixed: true, invalid: false }
    );
    repo.set_cell(0, 8, 1);
    assert_eq!(repo.get_field().rows[0].cells[8].value, None);
}

#[test]
fn reset_fixed_cell_clears_a_free_cell_too() {
    let mut repo = MemSudokuRepo::new();
    repo.set_cell(4, 4, 5);
    repo.reset_fixed_cell(4, 4);
    assert_eq!(repo.get_field(), SudokuField::new());
}

#[test]
fn an_edit_withdraws_the_mark_of_its_cell_and_leaves_the_field_flags() {
    let mut field = SudokuField::new();
    field.rows[1].cells[1] = SudokuCell { value: Some(2), fixed: false, invalid: true };
    field.rows[1].cells[7] = SudokuCell { value: Some(2), fixed: false, invalid: true };
    field.valid = false;
    field.solved = true;
    let mut repo = MemSudokuRepo::new();
    repo.set_field(field);
    repo.set_cell(1, 1, 3);
    let after = repo.get_field();
    assert_eq!(after.rows[1].cells[1], SudokuCell { value: Some(3), fixed: false, invalid: false });
    assert_eq!(after.rows[1].cells[7], SudokuCell { value: Some(2), fixed: false, invalid: true });
    assert!(!after.valid);
    assert!(after.solved);
    repo.reset_cell(1, 7);
    assert_eq!(repo.get_field().rows[1].cells[7], SudokuCell::new());
    assert!(!repo.get_field().valid);
}

#[test]
fn pinning_and_emptying_withdraw_the_mark_too() {
    let mut field = SudokuField::new();
    field.rows[0].cells[0] = SudokuCell { value: Some(2), fixed: false, invalid: true };
    field.rows[0].cells[1] = SudokuCell { value: Some(2), fixed: true, invalid: true };
    let mut repo = MemSudokuRepo::new();
    repo.set_field(field);
    repo.set_cell_fixed(0, 0, 4);
    assert_eq!(
        repo.get_field().rows[0].cells[0],
        SudokuCell { value: Some(4), fixed: true, invalid: false }
    );
    repo.reset_fixed_cell(0, 1);
    assert_eq!(
        repo.get_field().rows[0].cells[1],
        SudokuCell { value: None, fixed: true, invalid: false }
    );
}

#[test]
fn a_refused_edit_leaves_even_the_mark() {
    let mut field = SudokuField::new();
    field.rows[0].cells[1] = SudokuCell { value: Some(2), fixed: true, invalid: true };
    let mut repo = MemSudokuRepo::new();
    repo.set_field(field);
    repo.set_cell(0, 1, 5);
    repo.reset_cell(0, 1);
    assert_eq!(repo.get_field(), field);
}

#[test]
fn edits_reach_every_corner() {
    let mut repo = MemSudokuRepo::new();
    repo.set_cell(0, 0, 1);
    repo.set_cell(0, 8, 2);
    repo.set_cell(8, 0, 3);
    repo.set_cell(8, 8, 4);
    let field = repo.get_field();
    assert_eq!(field.rows[0].cells[0].value, Some(1));
    assert_eq!(field.rows[0].cells[8].value, Some(2));
    assert_eq!(field.rows[8].cells[0].value, Some(3));
    assert_eq!(field.rows[8].cells[8].value, Some(4));
    assert_eq!(field.count_filled(), 4);
}
