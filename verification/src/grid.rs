//! The grid model: cells, rows and the field.

use vstd::prelude::*;

use crate::units::{in_grid, is_digit, share_unit};

verus! {

/// One cell of the board.
#[derive(Clone, Copy, Debug, PartialEq, Eq)]
pub struct SudokuCell {
    /// The digit in the cell, if any.
    pub value: Option<u8>,
    /// A given: normal edits and invalidity marking pass it by.
    pub fixed: bool,
    /// Set by validation when the digit repeats in a unit of the cell.
    pub invalid: bool,
}

impl SudokuCell {
    /// The cell of a fresh board: no digit, not fixed, not marked.
    pub open spec fn blank() -> SudokuCell {
        SudokuCell { value: None, fixed: false, invalid: false }
    }

    /// A blank cell.
    pub fn new() -> (cell: SudokuCell)
        ensures
            cell == Self::blank(),
    {
        SudokuCell { value: None, fixed: false, invalid: false }
    }

    /// Whether the cell holds a digit.
    pub fn is_solved(&self) -> (solved: bool)
        ensures
            solved == self.value.is_some(),
    {
        self.value.is_some()
    }

    /// Whether the cell is free of the invalid mark.
    pub fn is_valid(&self) -> (valid: bool)
        ensures
            valid == !self.invalid,
    {
        !self.invalid
    }
}

/// Nine cells; position `c` is column `c`.
#[derive(Clone, Copy, Debug, PartialEq, Eq)]
pub struct SudokuRow {
    pub cells: [SudokuCell; 9],
}

impl SudokuRow {
    /// The row of a fresh board: nine blank cells.
    pub open spec fn blank() -> SudokuRow {
        SudokuRow { cells: vstd::array::spec_array_fill_for_copy_type(SudokuCell::blank()) }
    }

    /// No cell of the row carries the invalid mark.
    pub open spec fn no_cell_invalid(&self) -> bool {
        forall|c: int| 0 <= c < 9 ==> !(#[trigger] self.cells[c]).invalid
    }

    /// Every cell of the row holds a digit.
    pub open spec fn every_cell_filled(&self) -> bool {
        forall|c: int| 0 <= c < 9 ==> (#[trigger] self.cells[c]).value is Some
    }

    /// A row of blank cells.
    pub fn new() -> (row: SudokuRow)
        ensures
            row == Self::blank(),
    {
        SudokuRow { cells: [SudokuCell::new(); 9] }
    }

    /// Whether no cell of the row is marked invalid.
    pub fn is_valid(&self) -> (valid: bool)
        ensures
            valid == self.no_cell_invalid(),
    {
        let mut col: usize = 0;
        while col < 9
            invariant
                col <= 9,
                forall|c: int| 0 <= c < col ==> !(#[trigger] self.cells[c]).invalid,
            decreases 9 - col,
        {
            if !self.cells[col].is_valid() {
                return false;
            }
            col += 1;
        }
        true
    }

    /// Whether every cell of the row holds a digit.
    pub fn is_solved(&self) -> (solved: bool)
        ensures
            solved == self.every_cell_filled(),
    {
        let mut col: usize = 0;
        while col < 9
            invariant
                col <= 9,
                forall|c: int| 0 <= c < col ==> (#[trigger] self.cells[c]).value is Some,
            decreases 9 - col,
        {
            if !self.cells[col].is_solved() {
                return false;
            }
            col += 1;
        }
        true
    }
}

/// Nine rows and the two flags derived from them.
#[derive(Clone, Copy, Debug, PartialEq, Eq)]
pub struct SudokuField {
    pub rows: [SudokuRow; 9],
    pub valid: bool,
    pub solved: bool,
}

impl SudokuField {
    /// The cell in row `r`, column `c`.
    pub open spec fn cell(&self, r: int, c: int) -> SudokuCell {
        self.rows[r].cells[c]
    }

    /// The field of a fresh board: 81 blank cells, valid, not solved.
    pub open spec fn blank() -> SudokuField {
        SudokuField {
            rows: vstd::array::spec_array_fill_for_copy_type(SudokuRow::blank()),
            valid: true,
            solved: false,
        }
    }

    /// The field with cell `(r, c)` replaced by `cell`.
    pub open spec fn with_cell(self, r: int, c: int, cell: SudokuCell) -> SudokuField {
        SudokuField {
            rows: vstd::array::spec_array_update(
                self.rows,
                r,
                SudokuRow { cells: vstd::array::spec_array_update(self.rows[r].cells, c, cell) },
            ),
            ..self
        }
    }

    /// The field after cell `(r, c)` was given `value` for its digit. The
    /// cell loses its mark, which spoke of the digit it held when the field
    /// was last validated; its fixed flag and the flags of the field stay.
    pub open spec fn with_digit(self, r: int, c: int, value: Option<u8>) -> SudokuField {
        self.with_cell(r, c, SudokuCell { value, fixed: self.cell(r, c).fixed, invalid: false })
    }

    /// The field after an ordinary edit of cell `(r, c)`: a fixed cell, and
    /// with it the whole field, stays as it is; any other cell takes `value`.
    pub open spec fn edited(self, r: int, c: int, value: Option<u8>) -> SudokuField {
        if self.cell(r, c).fixed {
            self
        } else {
            self.with_digit(r, c, value)
        }
    }

    /// The field after cell `(r, c)` was pinned to `digit`: the cell holds
    /// the digit, is fixed and carries no mark.
    pub open spec fn pinned(self, r: int, c: int, digit: u8) -> SudokuField {
        self.with_cell(r, c, SudokuCell { value: Some(digit), fixed: true, invalid: false })
    }

    /// Every digit on the board is one of 1 to 9.
    pub open spec fn has_digits(&self) -> bool {
        forall|r: int, c: int|
            in_grid(r, c) ==> match (#[trigger] self.cell(r, c)).value {
                Some(d) => is_digit(d as int),
                None => true,
            }
    }

    /// Square `(r, c)` holds a digit that another cell of its row, column
    /// or block holds too.
    pub open spec fn repeats(&self, r: int, c: int) -> bool {
        &&& self.cell(r, c).value is Some
        &&& exists|r2: int, c2: int|
            in_grid(r2, c2) && (r2 != r || c2 != c) && share_unit(r, c, r2, c2) && (
            #[trigger] self.cell(r2, c2)).value == self.cell(r, c).value
    }

    /// Validation marks cell `(r, c)`: it is not fixed and its digit repeats.
    pub open spec fn conflicts(&self, r: int, c: int) -> bool {
        !self.cell(r, c).fixed && self.repeats(r, c)
    }

    /// No cell carries the invalid mark.
    pub open spec fn no_cell_invalid(&self) -> bool {
        forall|r: int, c: int| in_grid(r, c) ==> !(#[trigger] self.cell(r, c)).invalid
    }

    /// Every cell holds a digit.
    pub open spec fn every_cell_filled(&self) -> bool {
        forall|r: int, c: int| in_grid(r, c) ==> (#[trigger] self.cell(r, c)).value is Some
    }

    /// Square number `k`, counted row by row from 0.
    pub open spec fn nth_cell(&self, k: int) -> SudokuCell {
        self.cell(k / 9, k % 9)
    }

    /// How many of the first `n` cells, counted row by row, hold a digit.
    pub open spec fn filled_among(&self, n: nat) -> nat
        decreases n,
    {
        if n == 0 {
            0
        } else {
            self.filled_among((n - 1) as nat) + if self.nth_cell(n - 1).value is Some {
                1nat
            } else {
                0nat
            }
        }
    }

    /// How many cells hold a digit.
    pub open spec fn filled_count(&self) -> nat {
        self.filled_among(81)
    }

    /// The two fields agree on all 81 cells.
    pub open spec fn same_cells(&self, other: SudokuField) -> bool {
        forall|r: int, c: int| in_grid(r, c) ==> #[trigger] self.cell(r, c) == other.cell(r, c)
    }

    /// The blank field.
    pub fn new() -> (field: SudokuField)
        ensures
            field == Self::blank(),
    {
        SudokuField { rows: [SudokuRow::new(); 9], valid: true, solved: false }
    }

    /// The number of cells that hold a digit.
    pub fn count_filled(&self) -> (count: usize)
        ensures
            count == self.filled_count(),
            count <= 81,
    {
        let mut count: usize = 0;
        let mut row: usize = 0;
        while row < 9
            invariant
                row <= 9,
                count == self.filled_among((row * 9) as nat),
                count <= row * 9,
            decreases 9 - row,
        {
            let mut col: usize = 0;
            while col < 9
                invariant
                    row < 9,
                    col <= 9,
                    count == self.filled_among((row * 9 + col) as nat),
                    count <= row * 9 + col,
                decreases 9 - col,
            {
                assert((row * 9 + col) / 9 == row && (row * 9 + col) % 9 == col);
                if self.rows[row].cells[col].is_solved() {
                    count += 1;
                }
                col += 1;
            }
            row += 1;
        }
        count
    }

    /// Whether every digit on the board is one of 1 to 9. Validation asks
    /// this of its input.
    pub fn holds_digits(&self) -> (ok: bool)
        ensures
            ok == self.has_digits(),
    {
        let mut row: usize = 0;
        while row < 9
            invariant
                row <= 9,
                forall|r: int, c: int|
                    0 <= r < row && 0 <= c < 9 ==> match (#[trigger] self.cell(r, c)).value {
                        Some(d) => is_digit(d as int),
                        None => true,
                    },
            decreases 9 - row,
        {
            let mut col: usize = 0;
            while col < 9
                invariant
                    row < 9,
                    col <= 9,
                    forall|r: int, c: int|
                        (0 <= r < row && 0 <= c < 9) || (r == row && 0 <= c < col) ==> match (
                        #[trigger] self.cell(r, c)).value {
                            Some(d) => is_digit(d as int),
                            None => true,
                        },
                decreases 9 - col,
            {
                match self.rows[row].cells[col].value {
                    Some(digit) => {
                        if digit < 1 || digit > 9 {
                            assert(self.cell(row as int, col as int).value == Some(digit));
                            return false;
                        }
                    },
                    None => {},
                }
                col += 1;
            }
            row += 1;
        }
        true
    }

    /// Whether no cell is marked invalid, read from the cells themselves and
    /// not from the `valid` flag.
    pub fn is_valid(&self) -> (valid: bool)
        ensures
            valid == self.no_cell_invalid(),
    {
        let mut row: usize = 0;
        while row < 9
            invariant
                row <= 9,
                forall|r: int, c: int|
                    0 <= r < row && 0 <= c < 9 ==> !(#[trigger] self.cell(r, c)).invalid,
            decreases 9 - row,
        {
            if !self.rows[row].is_valid() {
                proof {
                    let c = choose|c: int|
                        0 <= c < 9 && (#[trigger] self.rows[row as int].cells[c]).invalid;
                    assert(self.cell(row as int, c).invalid);
                }
                return false;
            }
            assert forall|c: int| 0 <= c < 9 implies !(#[trigger] self.cell(
                row as int,
                c,
            )).invalid by {
                assert(!self.rows[row as int].cells[c].invalid);
            }
            row += 1;
        }
        true
    }

    /// Whether every cell holds a digit, read from the cells themselves and
    /// not from the `solved` flag.
    pub fn is_solved(&self) -> (solved: bool)
        ensures
            solved == self.every_cell_filled(),
    {
        let mut row: usize = 0;
        while row < 9
            invariant
                row <= 9,
                forall|r: int, c: int|
                    0 <= r < row && 0 <= c < 9 ==> (#[trigger] self.cell(r, c)).value is Some,
            decreases 9 - row,
        {
            if !self.rows[row].is_solved() {
                proof {
                    let c = choose|c: int|
                        0 <= c < 9 && (#[trigger] self.rows[row as int].cells[c]).value is None;
                    assert(self.cell(row as int, c).value is None);
                }
                return false;
            }
            assert forall|c: int| 0 <= c < 9 implies (#[trigger] self.cell(
                row as int,
                c,
            )).value is Some by {
                assert(self.rows[row as int].cells[c].value is Some);
            }
            row += 1;
        }
        true
    }
}

} // verus!
