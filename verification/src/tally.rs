//! Counting how often a digit occurs in a unit, and what a count above one
//! says about the cells of the board.

use vstd::prelude::*;

use crate::grid::SudokuField;
use crate::units::{box_index, in_grid, share_unit};

verus! {

/// The three families of units that must not repeat a digit.
pub(crate) enum UnitKind {
    Row,
    Column,
    Block,
}

/// The unit of the given kind that cell `(r, c)` lies in.
pub(crate) open spec fn unit_of(kind: UnitKind, r: int, c: int) -> int {
    match kind {
        UnitKind::Row => r,
        UnitKind::Column => c,
        UnitKind::Block => box_index(r, c),
    }
}

/// Cell number `k`, counted row by row, lies in unit `unit` of the given
/// kind and holds `digit`.
pub(crate) open spec fn hit(
    field: SudokuField,
    kind: UnitKind,
    unit: int,
    digit: u8,
    k: int,
) -> bool {
    &&& unit_of(kind, k / 9, k % 9) == unit
    &&& field.cell(k / 9, k % 9).value == Some(digit)
}

/// How many of the first `n` cells, counted row by row, lie in unit `unit`
/// of the given kind and hold `digit`.
pub(crate) open spec fn tally(
    field: SudokuField,
    kind: UnitKind,
    unit: int,
    digit: u8,
    n: nat,
) -> nat
    decreases n,
{
    if n == 0 {
        0
    } else {
        tally(field, kind, unit, digit, (n - 1) as nat) + if hit(field, kind, unit, digit, n - 1) {
            1nat
        } else {
            0nat
        }
    }
}

/// A tally over `n` cells is at most `n`.
pub(crate) proof fn lemma_tally_bound(
    field: SudokuField,
    kind: UnitKind,
    unit: int,
    digit: u8,
    n: nat,
)
    ensures
        tally(field, kind, unit, digit, n) <= n,
    decreases n,
{
    if n > 0 {
        lemma_tally_bound(field, kind, unit, digit, (n - 1) as nat);
    }
}

/// Looking at more cells never lowers a tally.
proof fn lemma_tally_monotone(
    field: SudokuField,
    kind: UnitKind,
    unit: int,
    digit: u8,
    m: nat,
    n: nat,
)
    requires
        m <= n,
    ensures
        tally(field, kind, unit, digit, m) <= tally(field, kind, unit, digit, n),
    decreases n,
{
    if m < n {
        lemma_tally_monotone(field, kind, unit, digit, m, (n - 1) as nat);
    }
}

/// Two different cells that both count make the tally at least two.
proof fn lemma_two_hits_counted(
    field: SudokuField,
    kind: UnitKind,
    unit: int,
    digit: u8,
    i: int,
    j: int,
    n: nat,
)
    requires
        0 <= i < j < n,
        hit(field, kind, unit, digit, i),
        hit(field, kind, unit, digit, j),
    ensures
        tally(field, kind, unit, digit, n) >= 2,
{
    lemma_tally_monotone(field, kind, unit, digit, 0, i as nat);
    assert(tally(field, kind, unit, digit, (i + 1) as nat) >= 1);
    lemma_tally_monotone(field, kind, unit, digit, (i + 1) as nat, j as nat);
    assert(tally(field, kind, unit, digit, (j + 1) as nat) >= 2);
    lemma_tally_monotone(field, kind, unit, digit, (j + 1) as nat, n);
}

/// A positive tally has a cell that counts.
proof fn lemma_counted_once(
    field: SudokuField,
    kind: UnitKind,
    unit: int,
    digit: u8,
    n: nat,
)
    requires
        tally(field, kind, unit, digit, n) >= 1,
    ensures
        exists|i: int| 0 <= i < n && #[trigger] hit(field, kind, unit, digit, i),
    decreases n,
{
    if !hit(field, kind, unit, digit, n - 1) {
        lemma_counted_once(field, kind, unit, digit, (n - 1) as nat);
    }
}

/// A tally of two or more has two different cells that count.
proof fn lemma_counted_twice(
    field: SudokuField,
    kind: UnitKind,
    unit: int,
    digit: u8,
    n: nat,
)
    requires
        tally(field, kind, unit, digit, n) >= 2,
    ensures
        exists|i: int, j: int|
            0 <= i < j < n && #[trigger] hit(field, kind, unit, digit, i) && #[trigger] hit(
                field,
                kind,
                unit,
                digit,
                j,
            ),
    decreases n,
{
    if hit(field, kind, unit, digit, n - 1) {
        lemma_counted_once(field, kind, unit, digit, (n - 1) as nat);
        let i = choose|i: int| 0 <= i < n - 1 && #[trigger] hit(field, kind, unit, digit, i);
        assert(hit(field, kind, unit, digit, i) && hit(field, kind, unit, digit, n - 1));
    } else {
        lemma_counted_twice(field, kind, unit, digit, (n - 1) as nat);
    }
}

/// The digit of cell `(r, c)` is counted more than once in the cell's
/// unit of the given kind exactly when another cell of that unit holds it.
proof fn lemma_tally_finds_twin(
    field: SudokuField,
    kind: UnitKind,
    r: int,
    c: int,
    digit: u8,
)
    requires
        in_grid(r, c),
        field.cell(r, c).value == Some(digit),
    ensures
        tally(field, kind, unit_of(kind, r, c), digit, 81) > 1 <==> exists|r2: int, c2: int|
            in_grid(r2, c2) && (r2 != r || c2 != c) && unit_of(kind, r2, c2) == unit_of(kind, r, c)
                && (#[trigger] field.cell(r2, c2)).value == Some(digit),
{
    let unit = unit_of(kind, r, c);
    let k = r * 9 + c;
    assert(hit(field, kind, unit, digit, k));
    if tally(field, kind, unit, digit, 81) > 1 {
        lemma_counted_twice(field, kind, unit, digit, 81);
        let (i, j) = choose|i: int, j: int|
            0 <= i < j < 81 && #[trigger] hit(field, kind, unit, digit, i) && #[trigger] hit(
                field,
                kind,
                unit,
                digit,
                j,
            );
        let other = if i == k { j } else { i };
        assert(hit(field, kind, unit, digit, other));
        let (r2, c2) = (other / 9, other % 9);
        assert(in_grid(r2, c2) && (r2 != r || c2 != c) && unit_of(kind, r2, c2) == unit
            && field.cell(r2, c2).value == Some(digit));
    }
    if exists|r2: int, c2: int|
        in_grid(r2, c2) && (r2 != r || c2 != c) && unit_of(kind, r2, c2) == unit && (
        #[trigger] field.cell(r2, c2)).value == Some(digit) {
        let (r2, c2) = choose|r2: int, c2: int|
            in_grid(r2, c2) && (r2 != r || c2 != c) && unit_of(kind, r2, c2) == unit && (
            #[trigger] field.cell(r2, c2)).value == Some(digit);
        let other = r2 * 9 + c2;
        assert(hit(field, kind, unit, digit, other));
        if other < k {
            lemma_two_hits_counted(field, kind, unit, digit, other, k, 81);
        } else {
            lemma_two_hits_counted(field, kind, unit, digit, k, other, 81);
        }
    }
}

/// The digit of a cell repeats exactly when its tally in the cell's row,
/// column or block is above one.
pub(crate) proof fn lemma_repeats_by_tally(field: SudokuField, r: int, c: int, digit: u8)
    requires
        in_grid(r, c),
        field.cell(r, c).value == Some(digit),
    ensures
        field.repeats(r, c) <==> (tally(field, UnitKind::Row, r, digit, 81) > 1 || tally(
            field,
            UnitKind::Column,
            c,
            digit,
            81,
        ) > 1 || tally(field, UnitKind::Block, box_index(r, c), digit, 81) > 1),
{
    lemma_tally_finds_twin(field, UnitKind::Row, r, c, digit);
    lemma_tally_finds_twin(field, UnitKind::Column, r, c, digit);
    lemma_tally_finds_twin(field, UnitKind::Block, r, c, digit);
    if field.repeats(r, c) {
        let (r2, c2) = choose|r2: int, c2: int|
            in_grid(r2, c2) && (r2 != r || c2 != c) && share_unit(r, c, r2, c2) && (
            #[trigger] field.cell(r2, c2)).value == field.cell(r, c).value;
        assert(field.cell(r2, c2).value == Some(digit));
    }
}

} // verus!
