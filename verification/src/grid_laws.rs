//! What holds of fields in general: how a replaced cell shows, when two
//! fields are the same, and how the count of filled cells moves.

use vstd::prelude::*;

use crate::grid::{SudokuCell, SudokuField};
use crate::units::{in_grid, is_digit, share_unit};

verus! {

/// Replacing a cell changes that cell and nothing else.
pub proof fn lemma_with_cell(field: SudokuField, r: int, c: int, cell: SudokuCell)
    requires
        in_grid(r, c),
    ensures
        field.with_cell(r, c, cell).cell(r, c) == cell,
        forall|r2: int, c2: int|
            in_grid(r2, c2) && (r2 != r || c2 != c) ==> #[trigger] field.with_cell(r, c, cell).cell(
                r2,
                c2,
            ) == field.cell(r2, c2),
        field.with_cell(r, c, cell).valid == field.valid,
        field.with_cell(r, c, cell).solved == field.solved,
{
}

/// The blank field: all 81 cells are without a digit, not fixed and not
/// marked; the field is valid and not solved.
pub proof fn lemma_blank_field()
    ensures
        forall|r: int, c: int|
            in_grid(r, c) ==> #[trigger] SudokuField::blank().cell(r, c) == (SudokuCell {
                value: None,
                fixed: false,
                invalid: false,
            }),
        SudokuField::blank().valid,
        !SudokuField::blank().solved,
        SudokuField::blank().has_digits(),
{
    assert forall|r: int, c: int| in_grid(r, c) implies #[trigger] SudokuField::blank().cell(r, c)
        == SudokuCell::blank() by {}
}

/// Fixed cells are protected from ordinary edits: an edit of a fixed cell
/// leaves the whole field as it is. Pinning goes through: the cell then
/// holds the new digit and is fixed, and no other cell has changed.
pub proof fn lemma_edit_protection(field: SudokuField, r: int, c: int, value: Option<u8>, digit: u8)
    requires
        in_grid(r, c),
        field.cell(r, c).fixed,
    ensures
        field.edited(r, c, value) == field,
        field.pinned(r, c, digit).cell(r, c) == (SudokuCell {
            value: Some(digit),
            fixed: true,
            invalid: false,
        }),
        forall|r2: int, c2: int|
            in_grid(r2, c2) && (r2 != r || c2 != c) ==> #[trigger] field.pinned(r, c, digit).cell(
                r2,
                c2,
            ) == field.cell(r2, c2),
{
}

/// An edit that writes a digit 1 to 9, or none, into a field of such digits
/// leaves a field of such digits.
pub proof fn lemma_edits_keep_digits(field: SudokuField, r: int, c: int, value: Option<u8>)
    requires
        in_grid(r, c),
        field.has_digits(),
        value matches Some(d) ==> is_digit(d as int),
    ensures
        field.with_digit(r, c, value).has_digits(),
        field.edited(r, c, value).has_digits(),
        value matches Some(d) ==> field.pinned(r, c, d).has_digits(),
{
    let cell = SudokuCell { value, fixed: field.cell(r, c).fixed, invalid: false };
    lemma_with_cell(field, r, c, cell);
    assert forall|r2: int, c2: int| in_grid(r2, c2) implies match (#[trigger] field.with_digit(
        r,
        c,
        value,
    ).cell(r2, c2)).value {
        Some(d) => is_digit(d as int),
        None => true,
    } by {
        if r2 != r || c2 != c {
            assert(field.with_digit(r, c, value).cell(r2, c2) == field.cell(r2, c2));
        }
    }
    if let Some(d) = value {
        let pinned = SudokuCell { value: Some(d), fixed: true, invalid: false };
        lemma_with_cell(field, r, c, pinned);
        assert forall|r2: int, c2: int| in_grid(r2, c2) implies match (#[trigger] field.pinned(
            r,
            c,
            d,
        ).cell(r2, c2)).value {
            Some(d2) => is_digit(d2 as int),
            None => true,
        } by {
            if r2 != r || c2 != c {
                assert(field.pinned(r, c, d).cell(r2, c2) == field.cell(r2, c2));
            }
        }
    }
}

/// What holds of the cells of one field holds of a field with the same cells.
proof fn lemma_answers_carry(a: SudokuField, b: SudokuField)
    requires
        a.same_cells(b),
    ensures
        b.same_cells(a),
        a.has_digits() ==> b.has_digits(),
        a.no_cell_invalid() ==> b.no_cell_invalid(),
        a.every_cell_filled() ==> b.every_cell_filled(),
        forall|r: int, c: int| in_grid(r, c) && a.repeats(r, c) ==> b.repeats(r, c),
{
    assert forall|r: int, c: int| in_grid(r, c) implies #[trigger] b.cell(r, c) == a.cell(
        r,
        c,
    ) by {
        assert(a.cell(r, c) == b.cell(r, c));
    }
    assert forall|r: int, c: int| in_grid(r, c) && a.repeats(r, c) implies b.repeats(r, c) by {
        let (r2, c2) = choose|r2: int, c2: int|
            in_grid(r2, c2) && (r2 != r || c2 != c) && share_unit(r, c, r2, c2) && (
            #[trigger] a.cell(r2, c2)).value == a.cell(r, c).value;
        assert(b.cell(r2, c2).value == b.cell(r, c).value);
    }
}

/// What is asked of the cells alone has one answer on fields with the same
/// cells.
pub proof fn lemma_same_cells_same_answers(a: SudokuField, b: SudokuField)
    requires
        a.same_cells(b),
    ensures
        a.has_digits() == b.has_digits(),
        a.no_cell_invalid() == b.no_cell_invalid(),
        a.every_cell_filled() == b.every_cell_filled(),
        forall|r: int, c: int| in_grid(r, c) ==> a.repeats(r, c) == b.repeats(r, c),
        forall|r: int, c: int| in_grid(r, c) ==> a.conflicts(r, c) == b.conflicts(r, c),
{
    lemma_answers_carry(a, b);
    lemma_answers_carry(b, a);
    assert forall|r: int, c: int| in_grid(r, c) implies a.conflicts(r, c) == b.conflicts(
        r,
        c,
    ) by {
        assert(a.cell(r, c) == b.cell(r, c));
    }
}

/// A digit put into an empty cell makes one filled cell more.
pub proof fn lemma_filled_one_more(a: SudokuField, b: SudokuField, r: int, c: int, n: nat)
    requires
        n <= 81,
        in_grid(r, c),
        a.cell(r, c).value is None,
        b.cell(r, c).value is Some,
        forall|r2: int, c2: int|
            in_grid(r2, c2) && (r2 != r || c2 != c) ==> ((#[trigger] a.cell(r2, c2)).value is Some
                <==> b.cell(r2, c2).value is Some),
    ensures
        b.filled_among(n) == a.filled_among(n) + if r * 9 + c < n {
            1nat
        } else {
            0nat
        },
    decreases n,
{
    if n > 0 {
        lemma_filled_one_more(a, b, r, c, (n - 1) as nat);
        let r2 = (n - 1) / 9;
        let c2 = (n - 1) % 9;
        if r2 != r || c2 != c {
            assert(a.cell(r2, c2).value is Some <==> b.cell(r2, c2).value is Some);
        }
    }
}

/// A field is full exactly when all 81 cells are counted as filled.
pub proof fn lemma_filled_all(field: SudokuField)
    ensures
        field.filled_count() <= 81,
        field.every_cell_filled() <==> field.filled_count() == 81,
{
    lemma_filled_upto(field, 81);
    if field.filled_count() == 81 {
        assert forall|r: int, c: int| in_grid(r, c) implies (#[trigger] field.cell(
            r,
            c,
        )).value is Some by {
            let k = r * 9 + c;
            assert(k / 9 == r && k % 9 == c);
            assert(field.nth_cell(k).value is Some);
        }
    }
    if field.every_cell_filled() {
        assert forall|k: int| 0 <= k < 81 implies (#[trigger] field.nth_cell(k)).value is Some by {
            assert(field.cell(k / 9, k % 9).value is Some);
        }
    }
}

/// Among the first `n` cells at most `n` are filled, and all `n` exactly
/// when each of them is.
proof fn lemma_filled_upto(field: SudokuField, n: nat)
    requires
        n <= 81,
    ensures
        field.filled_among(n) <= n,
        field.filled_among(n) == n <==> forall|k: int|
            0 <= k < n ==> (#[trigger] field.nth_cell(k)).value is Some,
    decreases n,
{
    if n > 0 {
        lemma_filled_upto(field, (n - 1) as nat);
    }
}

/// Fields that agree on every cell and on both flags are the same field.
pub proof fn lemma_field_extensional(a: SudokuField, b: SudokuField)
    requires
        a.same_cells(b),
        a.valid == b.valid,
        a.solved == b.solved,
    ensures
        a == b,
{
    assert forall|r: int| 0 <= r < 9 implies a.rows[r] == b.rows[r] by {
        assert forall|c: int| 0 <= c < 9 implies a.rows[r].cells[c] == b.rows[r].cells[c] by {
            assert(a.cell(r, c) == b.cell(r, c));
        }
        assert(a.rows[r].cells =~= b.rows[r].cells);
    }
    assert(a.rows =~= b.rows);
}

} // verus!
