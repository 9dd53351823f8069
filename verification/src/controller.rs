//! The façade: one entry point that hands every operation on to the engine.

use vstd::prelude::*;

use crate::grid::SudokuField;
use crate::logic::{installed, SudokuLogic};
use crate::units::in_grid;
use crate::validation::validated;

verus! {

/// The entry point for callers. It adds nothing of its own: every operation
/// is the engine's, with the engine's contract.
pub struct SudokuController<L: SudokuLogic> {
    logic: L,
}

impl<L: SudokuLogic> SudokuController<L> {
    /// The engine behind the façade.
    pub closed spec fn logic(&self) -> L {
        self.logic
    }

    /// The stored field.
    pub open spec fn field(&self) -> SudokuField {
        self.logic().field()
    }

    /// What the generator in use hands over.
    pub open spec fn generated(&self) -> Option<SudokuField> {
        self.logic().generated()
    }

    /// A façade over `logic`.
    pub fn new(logic: L) -> (controller: SudokuController<L>)
        ensures
            controller.logic() == logic,
    {
        SudokuController { logic }
    }

    /// A copy of the stored field.
    pub fn get_field(&self) -> (field: SudokuField)
        ensures
            field == self.field(),
    {
        self.logic.get_field()
    }

    /// Writes `value` into a cell that is not fixed; a fixed cell, and with
    /// it the whole field, stays as it is.
    pub fn set_cell(&mut self, row: u8, col: u8, value: u8)
        requires
            in_grid(row as int, col as int),
        ensures
            final(self).field() == old(self).field().edited(row as int, col as int, Some(value)),
            old(self).field().cell(row as int, col as int).fixed ==> final(self).field() == old(
                self,
            ).field(),
            final(self).generated() == old(self).generated(),
    {
        self.logic.set_cell(row, col, value);
    }

    /// Writes `value` into a cell and fixes it, whatever the cell was.
    pub fn set_cell_fixed(&mut self, row: u8, col: u8, value: u8)
        requires
            in_grid(row as int, col as int),
        ensures
            final(self).field() == old(self).field().pinned(row as int, col as int, value),
            final(self).field().cell(row as int, col as int).value == Some(value),
            final(self).field().cell(row as int, col as int).fixed,
            final(self).generated() == old(self).generated(),
    {
        self.logic.set_cell_fixed(row, col, value);
    }

    /// Empties a cell that is not fixed; a fixed cell, and with it the whole
    /// field, stays as it is.
    pub fn reset_cell(&mut self, row: u8, col: u8)
        requires
            in_grid(row as int, col as int),
        ensures
            final(self).field() == old(self).field().edited(row as int, col as int, None),
            old(self).field().cell(row as int, col as int).fixed ==> final(self).field() == old(
                self,
            ).field(),
            final(self).generated() == old(self).generated(),
    {
        self.logic.reset_cell(row, col);
    }

    /// Empties a cell, fixed or not; the fixed flag itself stays.
    pub fn reset_fixed_cell(&mut self, row: u8, col: u8)
        requires
            in_grid(row as int, col as int),
        ensures
            final(self).field() == old(self).field().with_digit(row as int, col as int, None),
            final(self).generated() == old(self).generated(),
    {
        self.logic.reset_fixed_cell(row, col);
    }

    /// Validates the stored field, stores the result and returns it.
    pub fn check(&mut self) -> (checked: SudokuField)
        requires
            old(self).field().has_digits(),
        ensures
            checked == validated(old(self).field()),
            final(self).field() == checked,
            checked.has_digits(),
            final(self).generated() == old(self).generated(),
    {
        self.logic.check()
    }

    /// Stores what a generator handed over, the blank field where it handed
    /// over nothing, and returns the field then stored.
    pub fn install_generated(&mut self, generated: Option<SudokuField>) -> (field: SudokuField)
        ensures
            field == installed(generated),
            final(self).field() == field,
            final(self).generated() == old(self).generated(),
    {
        self.logic.install_generated(generated)
    }

    /// Asks the generator for a board and installs what it hands over.
    pub fn generate_field(&mut self) -> (field: SudokuField)
        ensures
            field == installed(old(self).generated()),
            final(self).field() == field,
            field.has_digits(),
            final(self).generated() == old(self).generated(),
    {
        self.logic.generate_field()
    }

    /// Replaces the stored field by the blank one and returns it.
    pub fn clear_field(&mut self) -> (field: SudokuField)
        ensures
            field == SudokuField::blank(),
            final(self).field() == field,
            final(self).generated() == old(self).generated(),
    {
        self.logic.clear_field()
    }
}

} // verus!
