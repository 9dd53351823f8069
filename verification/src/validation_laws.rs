//! What validation guarantees: it is idempotent, it passes fixed cells by,
//! and it finds a repeated digit in a row, a column or a block alike.

use vstd::prelude::*;

use crate::grid::{SudokuCell, SudokuField};
use crate::units::{in_grid, share_unit};
use crate::validation::{is_check_of, lemma_check_unique, lemma_validated, validated};

verus! {

/// Whether a digit repeats depends on the digits alone, not on the flags.
proof fn lemma_repeats_by_digits(a: SudokuField, b: SudokuField)
    requires
        forall|r: int, c: int|
            in_grid(r, c) ==> (#[trigger] a.cell(r, c)).value == b.cell(r, c).value,
    ensures
        forall|r: int, c: int| in_grid(r, c) && a.repeats(r, c) ==> b.repeats(r, c),
{
    assert forall|r: int, c: int| in_grid(r, c) && a.repeats(r, c) implies b.repeats(r, c) by {
        let (r2, c2) = choose|r2: int, c2: int|
            in_grid(r2, c2) && (r2 != r || c2 != c) && share_unit(r, c, r2, c2) && (
            #[trigger] a.cell(r2, c2)).value == a.cell(r, c).value;
        assert(a.cell(r, c).value == b.cell(r, c).value);
        assert(b.cell(r2, c2).value == b.cell(r, c).value);
    }
}

/// Validation is idempotent: validating a validated field changes nothing,
/// neither a cell's mark nor the `valid` and `solved` flags.
pub proof fn lemma_check_idempotent(field: SudokuField)
    ensures
        validated(validated(field)) == validated(field),
{
    let once = validated(field);
    let twice = validated(once);
    lemma_validated(field);
    lemma_validated(once);
    assert forall|r: int, c: int| in_grid(r, c) implies (#[trigger] once.cell(r, c)).value
        == field.cell(r, c).value by {}
    assert forall|r: int, c: int| in_grid(r, c) implies (#[trigger] field.cell(r, c)).value
        == once.cell(r, c).value by {
        assert(once.cell(r, c).value == field.cell(r, c).value);
    }
    lemma_repeats_by_digits(once, field);
    lemma_repeats_by_digits(field, once);
    assert forall|r: int, c: int| in_grid(r, c) implies #[trigger] once.cell(r, c) == (
    SudokuCell { invalid: once.conflicts(r, c), ..once.cell(r, c) }) by {
        assert(once.cell(r, c).fixed == field.cell(r, c).fixed);
        assert(once.repeats(r, c) == field.repeats(r, c));
    }
    assert(is_check_of(once, once));
    lemma_check_unique(twice, once, once);
}

/// Fixed cells are immune: validation never marks a fixed cell, whatever
/// the other cells of its row, column and block hold, and leaves it fixed.
pub proof fn lemma_fixed_cells_unmarked(field: SudokuField, r: int, c: int)
    requires
        in_grid(r, c),
        field.cell(r, c).fixed,
    ensures
        !validated(field).cell(r, c).invalid,
        validated(field).cell(r, c).fixed,
        validated(field).cell(r, c).value == field.cell(r, c).value,
{
    lemma_validated(field);
    assert(validated(field).cell(r, c) == SudokuCell {
        invalid: field.conflicts(r, c),
        ..field.cell(r, c)
    });
}

/// Duplicates are found in every kind of unit: of two different cells that
/// share a row, a column or a block and hold the same digit, each one that
/// is not fixed is marked, and the field is then not valid.
pub proof fn lemma_twins_marked(field: SudokuField, r1: int, c1: int, r2: int, c2: int)
    requires
        in_grid(r1, c1),
        in_grid(r2, c2),
        r1 != r2 || c1 != c2,
        share_unit(r1, c1, r2, c2),
        field.cell(r1, c1).value is Some,
        field.cell(r1, c1).value == field.cell(r2, c2).value,
        !field.cell(r1, c1).fixed,
    ensures
        validated(field).cell(r1, c1).invalid,
        !validated(field).valid,
{
    lemma_validated(field);
    assert(field.repeats(r1, c1));
    assert(validated(field).cell(r1, c1) == SudokuCell {
        invalid: field.conflicts(r1, c1),
        ..field.cell(r1, c1)
    });
}

/// A cell whose digit no other cell of its row, column or block holds is
/// not marked, and neither is a cell without a digit.
pub proof fn lemma_lone_cells_unmarked(field: SudokuField, r: int, c: int)
    requires
        in_grid(r, c),
        !field.repeats(r, c),
    ensures
        !validated(field).cell(r, c).invalid,
{
    lemma_validated(field);
    assert(validated(field).cell(r, c) == SudokuCell {
        invalid: field.conflicts(r, c),
        ..field.cell(r, c)
    });
}

} // verus!
