//! The operations of the engine: edits of the stored field, validation of
//! it, and the installing of a generated board.

use vstd::prelude::*;

use crate::generator::SudokuGenerator;
use crate::grid::SudokuField;
use crate::store::SudokuRepo;
use crate::units::in_grid;
use crate::validation::{is_check_of, validated};

verus! {

/// What a board handed over by a generator leaves in the store: the board
/// itself, or the blank field where there was none.
pub open spec fn installed(generated: Option<SudokuField>) -> SudokuField {
    match generated {
        Some(field) => field,
        None => SudokuField::blank(),
    }
}

/// The engine behind one interface. It works on one stored field; nothing
/// but `install_generated` and `generate_field` depends on the generator,
/// and no operation changes what the generator hands over.
pub trait SudokuLogic {
    /// The stored field.
    spec fn field(&self) -> SudokuField;

    /// What the generator in use hands over.
    spec fn generated(&self) -> Option<SudokuField>;

    /// A copy of the stored field.
    fn get_field(&self) -> (field: SudokuField)
        ensures
            field == self.field(),
    ;

    /// Writes `value` into a cell that is not fixed; a fixed cell, and with
    /// it the whole field, stays as it is.
    fn set_cell(&mut self, row: u8, col: u8, value: u8)
        requires
            in_grid(row as int, col as int),
        ensures
            final(self).field() == old(self).field().edited(row as int, col as int, Some(value)),
            old(self).field().cell(row as int, col as int).fixed ==> final(self).field() == old(
                self,
            ).field(),
            final(self).generated() == old(self).generated(),
    ;

    /// Writes `value` into a cell and fixes it, whatever the cell was.
    fn set_cell_fixed(&mut self, row: u8, col: u8, value: u8)
        requires
            in_grid(row as int, col as int),
        ensures
            final(self).field() == old(self).field().pinned(row as int, col as int, value),
            final(self).field().cell(row as int, col as int).value == Some(value),
            final(self).field().cell(row as int, col as int).fixed,
            final(self).generated() == old(self).generated(),
    ;

    /// Empties a cell that is not fixed; a fixed cell, and with it the whole
    /// field, stays as it is.
    fn reset_cell(&mut self, row: u8, col: u8)
        requires
            in_grid(row as int, col as int),
        ensures
            final(self).field() == old(self).field().edited(row as int, col as int, None),
            old(self).field().cell(row as int, col as int).fixed ==> final(self).field() == old(
                self,
            ).field(),
            final(self).generated() == old(self).generated(),
    ;

    /// Empties a cell, fixed or not; the fixed flag itself stays.
    fn reset_fixed_cell(&mut self, row: u8, col: u8)
        requires
            in_grid(row as int, col as int),
        ensures
            final(self).field() == old(self).field().with_digit(row as int, col as int, None),
            final(self).generated() == old(self).generated(),
    ;

    /// Validates the stored field, stores the result and returns it.
    fn check(&mut self) -> (checked: SudokuField)
        requires
            old(self).field().has_digits(),
        ensures
            checked == validated(old(self).field()),
            final(self).field() == checked,
            checked.has_digits(),
            final(self).generated() == old(self).generated(),
    ;

    /// Validates `field`; the store is not involved.
    fn check_field(&self, field: SudokuField) -> (checked: SudokuField)
        requires
            field.has_digits(),
        ensures
            checked == validated(field),
            is_check_of(checked, field),
            checked.has_digits(),
    ;

    /// Stores what a generator handed over, the blank field where it handed
    /// over nothing, and returns the field then stored.
    fn install_generated(&mut self, generated: Option<SudokuField>) -> (field: SudokuField)
        ensures
            field == installed(generated),
            final(self).field() == field,
            final(self).generated() == old(self).generated(),
    ;

    /// Asks the generator for a board and installs what it hands over.
    fn generate_field(&mut self) -> (field: SudokuField)
        ensures
            field == installed(old(self).generated()),
            final(self).field() == field,
            field.has_digits(),
            final(self).generated() == old(self).generated(),
    ;

    /// Replaces the stored field by the blank one and returns it.
    fn clear_field(&mut self) -> (field: SudokuField)
        ensures
            field == SudokuField::blank(),
            final(self).field() == field,
            final(self).generated() == old(self).generated(),
    ;
}

/// The engine over a store and a generator of the caller's choice.
pub struct SudokuLogicImpl<R: SudokuRepo, G: SudokuGenerator> {
    sudoku_repo: R,
    generator: G,
}

impl<R: SudokuRepo, G: SudokuGenerator> SudokuLogicImpl<R, G> {
    /// The store that the engine works on.
    pub closed spec fn repo(&self) -> R {
        self.sudoku_repo
    }

    /// The generator that the engine asks for boards.
    pub closed spec fn generator(&self) -> G {
        self.generator
    }

    /// An engine that works on `sudoku_repo` and asks `generator` for boards.
    pub fn new(sudoku_repo: R, generator: G) -> (logic: SudokuLogicImpl<R, G>)
        ensures
            logic.repo() == sudoku_repo,
            logic.generator() == generator,
            logic.field() == sudoku_repo.field(),
            logic.generated() == generator.outcome(),
    {
        SudokuLogicImpl { sudoku_repo, generator }
    }
}

impl<R: SudokuRepo, G: SudokuGenerator> SudokuLogic for SudokuLogicImpl<R, G> {
    closed spec fn field(&self) -> SudokuField {
        self.sudoku_repo.field()
    }

    closed spec fn generated(&self) -> Option<SudokuField> {
        self.generator.outcome()
    }

    fn get_field(&self) -> (field: SudokuField) {
        self.sudoku_repo.get_field()
    }

    fn set_cell(&mut self, row: u8, col: u8, value: u8) {
        self.sudoku_repo.set_cell(row, col, value);
    }

    fn set_cell_fixed(&mut self, row: u8, col: u8, value: u8) {
        self.sudoku_repo.set_cell_fixed(row, col, value);
    }

    fn reset_cell(&mut self, row: u8, col: u8) {
        self.sudoku_repo.reset_cell(row, col);
    }

    fn reset_fixed_cell(&mut self, row: u8, col: u8) {
        self.sudoku_repo.reset_fixed_cell(row, col);
    }

    fn check(&mut self) -> (checked: SudokuField) {
        let field = self.sudoku_repo.get_field();
        let checked_field = self.check_field(field);
        self.sudoku_repo.set_field(checked_field);
        self.sudoku_repo.get_field()
    }

    fn check_field(&self, field: SudokuField) -> (checked: SudokuField) {
        crate::validation::check_field(field)
    }

    fn install_generated(&mut self, generated: Option<SudokuField>) -> (field: SudokuField) {
        match generated {
            Some(field) => {
                self.sudoku_repo.set_field(field);
            },
            None => {
                self.sudoku_repo.set_field(SudokuField::new());
            },
        }
        self.sudoku_repo.get_field()
    }

    fn generate_field(&mut self) -> (field: SudokuField) {
        let generated = self.generator.generate();
        self.install_generated(generated)
    }

    fn clear_field(&mut self) -> (field: SudokuField) {
        self.sudoku_repo.set_field(SudokuField::new());
        self.sudoku_repo.get_field()
    }
}

} // verus!
