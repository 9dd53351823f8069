//! The state store: one live field, read as a copy and changed either
//! wholesale or one cell at a time.

use vstd::prelude::*;

use crate::grid::SudokuField;
use crate::grid_laws::lemma_field_extensional;
use crate::units::in_grid;

verus! {

/// A store of one field. Coordinates are rows and columns 0 to 8. An edit
/// that takes effect gives one cell its new digit and withdraws the cell's
/// mark; the other cells and the two field flags stay as the last
/// validation left them.
pub trait SudokuRepo {
    /// The field that the store holds.
    spec fn field(&self) -> SudokuField;

    /// A copy of the field held.
    fn get_field(&self) -> (field: SudokuField)
        ensures
            field == self.field(),
    ;

    /// Replaces the field held.
    fn set_field(&mut self, field: SudokuField)
        ensures
            final(self).field() == field,
    ;

    /// Writes `value` into a cell that is not fixed; a fixed cell, and with
    /// it the whole field, stays as it is.
    fn set_cell(&mut self, row: u8, col: u8, value: u8)
        requires
            in_grid(row as int, col as int),
        ensures
            final(self).field() == old(self).field().edited(row as int, col as int, Some(value)),
            old(self).field().cell(row as int, col as int).fixed ==> final(self).field() == old(
                self,
            ).field(),
    ;

    /// Writes `value` into a cell and fixes it, whatever the cell was.
    fn set_cell_fixed(&mut self, row: u8, col: u8, value: u8)
        requires
            in_grid(row as int, col as int),
        ensures
            final(self).field() == old(self).field().pinned(row as int, col as int, value),
            final(self).field().cell(row as int, col as int).value == Some(value),
            final(self).field().cell(row as int, col as int).fixed,
    ;

    /// Empties a cell that is not fixed; a fixed cell, and with it the whole
    /// field, stays as it is.
    fn reset_cell(&mut self, row: u8, col: u8)
        requires
            in_grid(row as int, col as int),
        ensures
            final(self).field() == old(self).field().edited(row as int, col as int, None),
            old(self).field().cell(row as int, col as int).fixed ==> final(self).field() == old(
                self,
            ).field(),
    ;

    /// Empties a cell, fixed or not; the fixed flag itself stays.
    fn reset_fixed_cell(&mut self, row: u8, col: u8)
        requires
            in_grid(row as int, col as int),
        ensures
            final(self).field() == old(self).field().with_digit(row as int, col as int, None),
    ;
}

/// The store that keeps its field in memory.
pub struct MemSudokuRepo {
    field: SudokuField,
}

impl MemSudokuRepo {
    /// A store that holds the blank field.
    pub fn new() -> (repo: MemSudokuRepo)
        ensures
            repo.field() == SudokuField::blank(),
    {
        MemSudokuRepo { field: SudokuField::new() }
    }
}

impl SudokuRepo for MemSudokuRepo {
    closed spec fn field(&self) -> SudokuField {
        self.field
    }

    fn get_field(&self) -> (field: SudokuField) {
        self.field
    }

    fn set_field(&mut self, field: SudokuField) {
        self.field = field;
    }

    fn set_cell(&mut self, row: u8, col: u8, value: u8) {
        let mut new_field = self.get_field();
        if !new_field.rows[row as usize].cells[col as usize].fixed {
            new_field.rows[row as usize].cells[col as usize].value = Some(value);
            new_field.rows[row as usize].cells[col as usize].invalid = false;
            proof {
                let edited = self.field().edited(row as int, col as int, Some(value));
                assert(new_field.same_cells(edited));
                lemma_field_extensional(new_field, edited);
            }
            self.set_field(new_field);
        }
    }

    fn set_cell_fixed(&mut self, row: u8, col: u8, value: u8) {
        let mut new_field = self.get_field();
        new_field.rows[row as usize].cells[col as usize].value = Some(value);
        new_field.rows[row as usize].cells[col as usize].fixed = true;
        new_field.rows[row as usize].cells[col as usize].invalid = false;
        proof {
            let pinned = self.field().pinned(row as int, col as int, value);
            assert(new_field.same_cells(pinned));
            lemma_field_extensional(new_field, pinned);
        }
        self.set_field(new_field);
    }

    fn reset_cell(&mut self, row: u8, col: u8) {
        let mut new_field = self.get_field();
        if !new_field.rows[row as usize].cells[col as usize].fixed {
            new_field.rows[row as usize].cells[col as usize].value = None;
            new_field.rows[row as usize].cells[col as usize].invalid = false;
            proof {
                let edited = self.field().edited(row as int, col as int, None);
                assert(new_field.same_cells(edited));
                lemma_field_extensional(new_field, edited);
            }
            self.set_field(new_field);
        }
    }

    fn reset_fixed_cell(&mut self, row: u8, col: u8) {
        let mut new_field = self.get_field();
        new_field.rows[row as usize].cells[col as usize].value = None;
        new_field.rows[row as usize].cells[col as usize].invalid = false;
        proof {
            let emptied = self.field().with_digit(row as int, col as int, None);
            assert(new_field.same_cells(emptied));
            lemma_field_extensional(new_field, emptied);
        }
        self.set_field(new_field);
    }
}

} // verus!
