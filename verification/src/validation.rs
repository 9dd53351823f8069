//! The validation engine: marks every non-fixed cell whose digit repeats in
//! its row, column or block, and derives the two field flags.

use vstd::prelude::*;

use crate::grid::{SudokuCell, SudokuField};
use crate::grid_laws::{lemma_field_extensional, lemma_same_cells_same_answers};
use crate::tally::{hit, lemma_repeats_by_tally, lemma_tally_bound, tally, unit_of, UnitKind};
use crate::units::{box_of, in_grid, is_digit};

verus! {

/// `after` is `before` validated: each cell keeps its digit and its fixed
/// flag, carries the invalid mark exactly when it conflicts, and the two
/// field flags are read off the marked cells.
pub open spec fn is_check_of(after: SudokuField, before: SudokuField) -> bool {
    &&& forall|r: int, c: int|
        in_grid(r, c) ==> #[trigger] after.cell(r, c) == (SudokuCell {
            invalid: before.conflicts(r, c),
            ..before.cell(r, c)
        })
    &&& after.valid == after.no_cell_invalid()
    &&& after.solved == after.every_cell_filled()
}

/// The validated form of `before`: the one field that `is_check_of` relates
/// to it.
pub open spec fn validated(before: SudokuField) -> SudokuField {
    choose|after: SudokuField| is_check_of(after, before)
}

/// The first `n` cells, counted row by row, carry their mark already; the
/// others are as they were.
spec fn marked_upto(field: SudokuField, before: SudokuField, n: int) -> bool {
    forall|r: int, c: int|
        in_grid(r, c) ==> #[trigger] field.cell(r, c) == if r * 9 + c < n {
            SudokuCell { invalid: before.conflicts(r, c), ..before.cell(r, c) }
        } else {
            before.cell(r, c)
        }
}

/// `before` with the first `n` cells marked, one cell after the other.
spec fn mark_first(before: SudokuField, n: nat) -> SudokuField
    decreases n,
{
    if n == 0 {
        before
    } else {
        let r = (n - 1) / 9;
        let c = (n - 1) % 9;
        mark_first(before, (n - 1) as nat).with_cell(
            r,
            c,
            SudokuCell { invalid: before.conflicts(r, c), ..before.cell(r, c) },
        )
    }
}

/// Marking the first `n` cells marks them and leaves the others alone.
proof fn lemma_mark_first(before: SudokuField, n: nat)
    requires
        n <= 81,
    ensures
        marked_upto(mark_first(before, n), before, n as int),
    decreases n,
{
    if n > 0 {
        lemma_mark_first(before, (n - 1) as nat);
        let earlier = mark_first(before, (n - 1) as nat);
        let r = (n - 1) / 9;
        let c = (n - 1) % 9;
        let cell = SudokuCell { invalid: before.conflicts(r, c), ..before.cell(r, c) };
        assert forall|r2: int, c2: int| in_grid(r2, c2) implies #[trigger] mark_first(
            before,
            n,
        ).cell(r2, c2) == if r2 * 9 + c2 < n {
            SudokuCell { invalid: before.conflicts(r2, c2), ..before.cell(r2, c2) }
        } else {
            before.cell(r2, c2)
        } by {
            assert(mark_first(before, n).cell(r2, c2) == if r2 == r && c2 == c {
                cell
            } else {
                earlier.cell(r2, c2)
            });
        }
    }
}

/// Every field has a validated form.
pub proof fn lemma_validated(before: SudokuField)
    ensures
        is_check_of(validated(before), before),
{
    lemma_mark_first(before, 81);
    let marked = mark_first(before, 81);
    let after = SudokuField {
        valid: marked.no_cell_invalid(),
        solved: marked.every_cell_filled(),
        ..marked
    };
    assert forall|r: int, c: int| in_grid(r, c) implies #[trigger] after.cell(r, c) == (
    SudokuCell { invalid: before.conflicts(r, c), ..before.cell(r, c) }) by {
        assert(after.cell(r, c) == marked.cell(r, c));
    }
    assert(after.same_cells(marked));
    lemma_same_cells_same_answers(after, marked);
    assert(is_check_of(after, before));
}

/// A field has one validated form only.
pub proof fn lemma_check_unique(a: SudokuField, b: SudokuField, before: SudokuField)
    requires
        is_check_of(a, before),
        is_check_of(b, before),
    ensures
        a == b,
{
    assert forall|r: int, c: int| in_grid(r, c) implies #[trigger] a.cell(r, c) == b.cell(
        r,
        c,
    ) by {
        assert(b.cell(r, c) == SudokuCell { invalid: before.conflicts(r, c), ..before.cell(r, c) });
    }
    lemma_same_cells_same_answers(a, b);
    lemma_field_extensional(a, b);
}

/// `counts[u][d]` is the tally of digit `d + 1` in unit `u` over the first
/// `n` cells.
spec fn counts_are(counts: [[u8; 9]; 9], field: SudokuField, kind: UnitKind, n: nat) -> bool {
    forall|u: int, d: int|
        0 <= u < 9 && 0 <= d < 9 ==> (#[trigger] counts[u][d]) == tally(
            field,
            kind,
            u,
            (d + 1) as u8,
            n,
        )
}

/// Counting cell `(r, c)` into the table of one kind of unit moves the table
/// from the first `r * 9 + c` cells to one cell more.
proof fn lemma_count_cell(
    before: [[u8; 9]; 9],
    after: [[u8; 9]; 9],
    field: SudokuField,
    kind: UnitKind,
    r: int,
    c: int,
)
    requires
        in_grid(r, c),
        counts_are(before, field, kind, (r * 9 + c) as nat),
        forall|u: int, d: int|
            0 <= u < 9 && 0 <= d < 9 ==> (#[trigger] after[u][d]) == before[u][d] + if u
                == unit_of(kind, r, c) && field.cell(r, c).value == Some((d + 1) as u8) {
                1int
            } else {
                0int
            },
    ensures
        counts_are(after, field, kind, (r * 9 + c + 1) as nat),
{
    let k = r * 9 + c;
    assert(k / 9 == r && k % 9 == c);
    assert forall|u: int, d: int| 0 <= u < 9 && 0 <= d < 9 implies (#[trigger] after[u][d])
        == tally(field, kind, u, (d + 1) as u8, (k + 1) as nat) by {
        assert(before[u][d] == tally(field, kind, u, (d + 1) as u8, k as nat));
        assert(hit(field, kind, u, (d + 1) as u8, k) <==> (u == unit_of(kind, r, c) && field.cell(
            r,
            c,
        ).value == Some((d + 1) as u8)));
    }
}

/// Adds one to `counts[unit][slot]`.
fn bump(counts: &mut [[u8; 9]; 9], unit: usize, slot: usize)
    requires
        unit < 9,
        slot < 9,
        old(counts)[unit as int][slot as int] < 255,
    ensures
        forall|u: int, d: int|
            0 <= u < 9 && 0 <= d < 9 ==> (#[trigger] final(counts)[u][d]) == old(counts)[u][d]
                + if u == unit && d == slot {
                1int
            } else {
                0int
            },
{
    counts[unit][slot] = counts[unit][slot] + 1;
}

/// Validates a field.
///
/// Every cell keeps its digit and its fixed flag. A cell is marked invalid
/// exactly when it is not fixed and its digit occurs in another cell of its
/// row, column or block; fixed cells count as occurrences but are never
/// marked. `valid` becomes "no cell is marked", `solved` becomes "every cell
/// holds a digit".
pub fn check_field(field: SudokuField) -> (checked: SudokuField)
    requires
        field.has_digits(),
    ensures
        checked == validated(field),
        is_check_of(checked, field),
        checked.has_digits(),
{
    let mut row_counts: [[u8; 9]; 9] = [[0; 9]; 9];
    let mut col_counts: [[u8; 9]; 9] = [[0; 9]; 9];
    let mut box_counts: [[u8; 9]; 9] = [[0; 9]; 9];

    let mut row: usize = 0;
    while row < 9
        invariant
            row <= 9,
            field.has_digits(),
            counts_are(row_counts, field, UnitKind::Row, (row * 9) as nat),
            counts_are(col_counts, field, UnitKind::Column, (row * 9) as nat),
            counts_are(box_counts, field, UnitKind::Block, (row * 9) as nat),
        decreases 9 - row,
    {
        let mut col: usize = 0;
        while col < 9
            invariant
                row < 9,
                col <= 9,
                field.has_digits(),
                counts_are(row_counts, field, UnitKind::Row, (row * 9 + col) as nat),
                counts_are(col_counts, field, UnitKind::Column, (row * 9 + col) as nat),
                counts_are(box_counts, field, UnitKind::Block, (row * 9 + col) as nat),
            decreases 9 - col,
        {
            let block = box_of(row, col);
            let ghost seen = (row * 9 + col) as nat;
            let ghost rows_before = row_counts;
            let ghost cols_before = col_counts;
            let ghost boxes_before = box_counts;
            match field.rows[row].cells[col].value {
                Some(digit) => {
                    assert(is_digit(field.cell(row as int, col as int).value->0 as int));
                    let slot = (digit - 1) as usize;
                    proof {
                        lemma_tally_bound(field, UnitKind::Row, row as int, digit, seen);
                        lemma_tally_bound(field, UnitKind::Column, col as int, digit, seen);
                        lemma_tally_bound(field, UnitKind::Block, block as int, digit, seen);
                    }
                    bump(&mut row_counts, row, slot);
                    bump(&mut col_counts, col, slot);
                    bump(&mut box_counts, block, slot);
                },
                None => {},
            }
            proof {
                lemma_count_cell(
                    rows_before,
                    row_counts,
                    field,
                    UnitKind::Row,
                    row as int,
                    col as int,
                );
                lemma_count_cell(
                    cols_before,
                    col_counts,
                    field,
                    UnitKind::Column,
                    row as int,
                    col as int,
                );
                lemma_count_cell(
                    boxes_before,
                    box_counts,
                    field,
                    UnitKind::Block,
                    row as int,
                    col as int,
                );
            }
            col += 1;
        }
        row += 1;
    }

    let mut checked = field;
    let mut row: usize = 0;
    while row < 9
        invariant
            row <= 9,
            field.has_digits(),
            counts_are(row_counts, field, UnitKind::Row, 81),
            counts_are(col_counts, field, UnitKind::Column, 81),
            counts_are(box_counts, field, UnitKind::Block, 81),
            marked_upto(checked, field, row * 9),
        decreases 9 - row,
    {
        let mut col: usize = 0;
        while col < 9
            invariant
                row < 9,
                col <= 9,
                field.has_digits(),
                counts_are(row_counts, field, UnitKind::Row, 81),
                counts_are(col_counts, field, UnitKind::Column, 81),
                counts_are(box_counts, field, UnitKind::Block, 81),
                marked_upto(checked, field, row * 9 + col),
            decreases 9 - col,
        {
            let block = box_of(row, col);
            let ghost unmarked = checked;
            let cell = checked.rows[row].cells[col];
            assert(cell == unmarked.cell(row as int, col as int));
            let mark = match cell.value {
                Some(digit) => {
                    assert(is_digit(field.cell(row as int, col as int).value->0 as int));
                    let slot = (digit - 1) as usize;
                    proof {
                        lemma_repeats_by_tally(field, row as int, col as int, digit);
                    }
                    !cell.fixed && (row_counts[row][slot] > 1 || col_counts[col][slot] > 1
                        || box_counts[block][slot] > 1)
                },
                None => false,
            };
            assert(mark == field.conflicts(row as int, col as int));
            checked.rows[row].cells[col].invalid = mark;
            assert forall|r: int, c: int| in_grid(r, c) implies #[trigger] checked.cell(r, c)
                == if r * 9 + c < row * 9 + col + 1 {
                SudokuCell { invalid: field.conflicts(r, c), ..field.cell(r, c) }
            } else {
                field.cell(r, c)
            } by {
                assert(checked.cell(r, c) == if r == row && c == col {
                    SudokuCell { invalid: mark, ..cell }
                } else {
                    unmarked.cell(r, c)
                });
            }
            col += 1;
        }
        row += 1;
    }

    let ghost marked = checked;
    let valid = checked.is_valid();
    let solved = checked.is_solved();
    checked.valid = valid;
    checked.solved = solved;
    assert forall|r: int, c: int| in_grid(r, c) implies #[trigger] checked.cell(r, c) == (
    SudokuCell { invalid: field.conflicts(r, c), ..field.cell(r, c) }) by {
        assert(checked.cell(r, c) == marked.cell(r, c));
    }
    proof {
        assert(checked.same_cells(marked));
        lemma_same_cells_same_answers(checked, marked);
        lemma_validated(field);
        lemma_check_unique(checked, validated(field), field);
    }
    checked
}

} // verus!
