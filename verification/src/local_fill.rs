//! Generation by local random fill: digits are dropped into empty cells one
//! draw at a time, and a draw stays only if the board is still valid with it.
//!
//! The library draws no random numbers itself. The caller supplies the
//! draws; with enough of them a low target is reached, but near a full
//! board every further draw may be turned down, so no supply is sure to
//! suffice.

use vstd::prelude::*;

use crate::generator::SudokuGenerator;
use crate::grid::{SudokuCell, SudokuField};
use crate::grid_laws::{
    lemma_edits_keep_digits, lemma_field_extensional, lemma_filled_all, lemma_filled_one_more,
};
use crate::units::{in_grid, is_digit, share_unit};
use crate::validation::{check_field, lemma_validated, validated};

verus! {

/// One random choice: a cell and a digit to try there.
#[derive(Clone, Copy, Debug, PartialEq, Eq)]
pub struct Draw {
    row: u8,
    col: u8,
    digit: u8,
}

impl Draw {
    /// Every draw names a cell of the board and a digit 1 to 9.
    #[verifier::type_invariant]
    spec fn on_board(self) -> bool {
        in_grid(self.row as int, self.col as int) && is_digit(self.digit as int)
    }

    /// The row drawn.
    pub closed spec fn row_index(self) -> int {
        self.row as int
    }

    /// The column drawn.
    pub closed spec fn col_index(self) -> int {
        self.col as int
    }

    /// The digit drawn.
    pub closed spec fn digit_drawn(self) -> u8 {
        self.digit
    }

    /// The draw names a cell of the board and a digit 1 to 9. Every draw
    /// that `new` hands out does.
    pub open spec fn is_fair(self) -> bool {
        in_grid(self.row_index(), self.col_index()) && is_digit(self.digit_drawn() as int)
    }

    /// A draw of `digit` for cell `(row, col)`, or `None` where the row or
    /// the column is not 0 to 8 or the digit not 1 to 9.
    pub fn new(row: u8, col: u8, digit: u8) -> (draw: Option<Draw>)
        ensures
            draw is Some <==> in_grid(row as int, col as int) && is_digit(digit as int),
            draw matches Some(d) ==> d.row_index() == row && d.col_index() == col
                && d.digit_drawn() == digit,
    {
        if row < 9 && col < 9 && 1 <= digit && digit <= 9 {
            Some(Draw { row, col, digit })
        } else {
            None
        }
    }

    /// The row of the cell to try, 0 to 8.
    pub fn row(&self) -> (row: u8)
        ensures
            row == self.row_index(),
            self.is_fair(),
    {
        proof {
            use_type_invariant(self);
        }
        self.row
    }

    /// The column of the cell to try, 0 to 8.
    pub fn col(&self) -> (col: u8)
        ensures
            col == self.col_index(),
            self.is_fair(),
    {
        proof {
            use_type_invariant(self);
        }
        self.col
    }

    /// The digit to try, 1 to 9.
    pub fn digit(&self) -> (digit: u8)
        ensures
            digit == self.digit_drawn(),
            self.is_fair(),
    {
        proof {
            use_type_invariant(self);
        }
        self.digit
    }
}

/// The board after one draw was tried on it.
///
/// A draw for a cell that holds a digit already changes nothing. Otherwise
/// the digit is put into the cell and the board validated with it: if the
/// board is valid, the validated board stays, with the cell now fixed; if
/// not, the board is as it was before the draw.
pub open spec fn attempt(field: SudokuField, draw: Draw) -> SudokuField {
    let r = draw.row_index();
    let c = draw.col_index();
    if field.cell(r, c).value is Some {
        field
    } else {
        let checked = validated(field.with_digit(r, c, Some(draw.digit_drawn())));
        if checked.valid {
            checked.pinned(r, c, draw.digit_drawn())
        } else {
            field
        }
    }
}

/// The board after the draws were tried in turn, up to the first moment at
/// which `target` cells are filled.
pub open spec fn filled_by(field: SudokuField, draws: Seq<Draw>, target: nat) -> SudokuField
    decreases draws.len(),
{
    if draws.len() == 0 || field.filled_count() >= target {
        field
    } else {
        filled_by(attempt(field, draws[0]), draws.drop_first(), target)
    }
}

/// A board as local fill builds it: the cells with a digit are exactly the
/// fixed ones, no digit occurs twice in a row, a column or a block, no cell
/// is marked, and the flags say so.
pub open spec fn is_clue_board(field: SudokuField) -> bool {
    &&& field.has_digits()
    &&& forall|r: int, c: int|
        in_grid(r, c) ==> ((#[trigger] field.cell(r, c)).fixed <==> field.cell(r, c).value is Some)
    &&& forall|r: int, c: int| in_grid(r, c) ==> !#[trigger] field.repeats(r, c)
    &&& field.no_cell_invalid()
    &&& field.valid
    &&& field.solved == field.every_cell_filled()
}

/// Tries one draw on a board.
pub fn place(field: SudokuField, draw: Draw) -> (placed: SudokuField)
    requires
        field.has_digits(),
    ensures
        placed == attempt(field, draw),
        placed.has_digits(),
        draw.is_fair(),
{
    let row = draw.row() as usize;
    let col = draw.col() as usize;
    let digit = draw.digit();
    if field.rows[row].cells[col].value.is_some() {
        return field;
    }
    let mut tentative = field;
    tentative.rows[row].cells[col].value = Some(digit);
    tentative.rows[row].cells[col].invalid = false;
    proof {
        let given = field.with_digit(row as int, col as int, Some(digit));
        assert(tentative.same_cells(given));
        lemma_field_extensional(tentative, given);
        lemma_edits_keep_digits(field, row as int, col as int, Some(digit));
    }
    let mut checked = check_field(tentative);
    if checked.valid {
        let ghost unfixed = checked;
        checked.rows[row].cells[col].fixed = true;
        proof {
            let pinned = unfixed.pinned(row as int, col as int, digit);
            assert(unfixed.cell(row as int, col as int).value == Some(digit));
            assert(!unfixed.cell(row as int, col as int).invalid);
            assert(checked.same_cells(pinned));
            lemma_field_extensional(checked, pinned);
            lemma_edits_keep_digits(unfixed, row as int, col as int, Some(digit));
        }
        checked
    } else {
        field
    }
}

/// A fair draw tried on a clue board leaves a clue board, with the same
/// cells filled or with one more.
pub proof fn lemma_attempt_keeps_clue_board(field: SudokuField, draw: Draw)
    requires
        is_clue_board(field),
        draw.is_fair(),
    ensures
        is_clue_board(attempt(field, draw)),
        attempt(field, draw).filled_count() == field.filled_count() || attempt(
            field,
            draw,
        ).filled_count() == field.filled_count() + 1,
{
    let r = draw.row_index();
    let c = draw.col_index();
    let digit = draw.digit_drawn();
    let next = attempt(field, draw);
    if next != field {
        let tentative = field.with_digit(r, c, Some(digit));
        let checked = validated(tentative);
        lemma_validated(tentative);
        assert(checked.no_cell_invalid());
        assert forall|r1: int, c1: int| in_grid(r1, c1) implies #[trigger] next.cell(r1, c1)
            == if r1 == r && c1 == c {
            SudokuCell { value: Some(digit), fixed: true, invalid: false }
        } else {
            field.cell(r1, c1)
        } by {
            assert(!checked.cell(r1, c1).invalid);
            assert(checked.cell(r1, c1) == SudokuCell {
                invalid: tentative.conflicts(r1, c1),
                ..tentative.cell(r1, c1)
            });
            assert(!field.cell(r1, c1).invalid);
        }
        assert(!tentative.repeats(r, c)) by {
            assert(!checked.cell(r, c).invalid);
            assert(checked.cell(r, c) == SudokuCell {
                invalid: tentative.conflicts(r, c),
                ..tentative.cell(r, c)
            });
            assert(!field.cell(r, c).fixed);
        }
        assert forall|r1: int, c1: int| in_grid(r1, c1) implies !#[trigger] next.repeats(
            r1,
            c1,
        ) by {
            if next.repeats(r1, c1) {
                let (r2, c2) = choose|r2: int, c2: int|
                    in_grid(r2, c2) && (r2 != r1 || c2 != c1) && share_unit(r1, c1, r2, c2) && (
                    #[trigger] next.cell(r2, c2)).value == next.cell(r1, c1).value;
                assert(next.cell(r1, c1).value == tentative.cell(r1, c1).value);
                assert(next.cell(r2, c2).value == tentative.cell(r2, c2).value);
                if r1 == r && c1 == c {
                    assert(tentative.repeats(r, c));
                } else if r2 == r && c2 == c {
                    assert(share_unit(r, c, r1, c1));
                    assert(tentative.cell(r1, c1).value == tentative.cell(r, c).value);
                    assert(tentative.repeats(r, c));
                } else {
                    assert(field.cell(r2, c2).value == field.cell(r1, c1).value);
                    assert(field.repeats(r1, c1));
                }
            }
        }
        assert forall|r1: int, c1: int| in_grid(r1, c1) implies ((#[trigger] checked.cell(
            r1,
            c1,
        )).value is Some <==> next.cell(r1, c1).value is Some) by {
            assert(checked.cell(r1, c1).value == tentative.cell(r1, c1).value);
        }
        assert(checked.every_cell_filled() == next.every_cell_filled()) by {
            if checked.every_cell_filled() {
                assert forall|r1: int, c1: int| in_grid(r1, c1) implies (#[trigger] next.cell(
                    r1,
                    c1,
                )).value is Some by {
                    assert(checked.cell(r1, c1).value is Some);
                }
            }
            if next.every_cell_filled() {
                assert forall|r1: int, c1: int| in_grid(r1, c1) implies (#[trigger] checked.cell(
                    r1,
                    c1,
                )).value is Some by {
                    assert(next.cell(r1, c1).value is Some);
                }
            }
        }
        assert(next.has_digits());
        assert(next.filled_count() == field.filled_count() + 1) by {
            assert forall|r2: int, c2: int| in_grid(r2, c2) && (r2 != r || c2 != c) implies ((
            #[trigger] field.cell(r2, c2)).value is Some <==> next.cell(r2, c2).value is Some) by {
                assert(next.cell(r2, c2) == field.cell(r2, c2));
            }
            assert(next.cell(r, c).value is Some);
            lemma_filled_one_more(field, next, r, c, 81);
        }
    }
}

/// Fair draws tried in turn on a clue board leave a clue board, and never
/// fill more cells than the target asks for.
pub proof fn lemma_fill_keeps_clue_board(field: SudokuField, draws: Seq<Draw>, target: nat)
    requires
        is_clue_board(field),
        forall|i: int| 0 <= i < draws.len() ==> (#[trigger] draws[i]).is_fair(),
    ensures
        is_clue_board(filled_by(field, draws, target)),
        field.filled_count() <= target ==> filled_by(field, draws, target).filled_count()
            <= target,
    decreases draws.len(),
{
    if draws.len() > 0 && field.filled_count() < target {
        assert(draws[0].is_fair());
        lemma_attempt_keeps_clue_board(field, draws[0]);
        lemma_fill_keeps_clue_board(attempt(field, draws[0]), draws.drop_first(), target);
    }
}

/// Tries the draws in turn on a board until `target_count` cells are
/// filled or the draws have run out, and hands back the board reached.
///
/// Started on a clue board, it ends on one, and it does not pass the
/// target.
pub fn fill(field: SudokuField, draws: &Vec<Draw>, target_count: usize) -> (filled: SudokuField)
    requires
        field.has_digits(),
    ensures
        filled == filled_by(field, draws@, target_count as nat),
        filled.has_digits(),
        is_clue_board(field) ==> is_clue_board(filled),
        is_clue_board(field) && field.filled_count() <= target_count ==> filled.filled_count()
            <= target_count,
{
    let mut current = field;
    let mut count = current.count_filled();
    let mut next: usize = 0;
    assert(draws@.subrange(0, draws.len() as int) =~= draws@);
    while next < draws.len() && count < target_count
        invariant
            next <= draws.len(),
            current.has_digits(),
            count == current.filled_count(),
            is_clue_board(field) ==> is_clue_board(current),
            is_clue_board(field) && field.filled_count() <= target_count ==> count
                <= target_count,
            filled_by(field, draws@, target_count as nat) == filled_by(
                current,
                draws@.subrange(next as int, draws.len() as int),
                target_count as nat,
            ),
        decreases draws.len() - next,
    {
        let ghost rest = draws@.subrange(next as int, draws.len() as int);
        let ghost before = current;
        assert(rest[0] == draws[next as int]);
        assert(rest.drop_first() =~= draws@.subrange(next + 1, draws.len() as int));
        current = place(current, draws[next]);
        proof {
            if is_clue_board(field) {
                lemma_attempt_keeps_clue_board(before, draws[next as int]);
            }
        }
        count = current.count_filled();
        next += 1;
    }
    current
}

/// The generator that fills a blank board from a supply of draws.
pub struct LocalSudokuGenerator {
    target_count: usize,
    draws: Vec<Draw>,
}

impl LocalSudokuGenerator {
    /// The number of cells to fill.
    pub closed spec fn target(&self) -> nat {
        self.target_count as nat
    }

    /// The draws at hand, in the order in which they are tried.
    pub closed spec fn draws(&self) -> Seq<Draw> {
        self.draws@
    }

    /// A generator that is to fill `target_count` cells from `draws`.
    pub fn new(target_count: usize, draws: Vec<Draw>) -> (generator: LocalSudokuGenerator)
        ensures
            generator.target() == target_count,
            generator.draws() == draws@,
    {
        LocalSudokuGenerator { target_count, draws }
    }
}

impl SudokuGenerator for LocalSudokuGenerator {
    /// The board that the draws lead to from a blank one, if they reach the
    /// target; nothing if they run out before.
    open spec fn outcome(&self) -> Option<SudokuField> {
        let reached = filled_by(SudokuField::blank(), self.draws(), self.target());
        if reached.filled_count() == self.target() {
            Some(reached)
        } else {
            None
        }
    }

    /// A board handed over is a clue board with exactly the target number
    /// of cells filled: each of them fixed, all others empty, no cell
    /// marked, and the board valid.
    fn generate(&self) -> (generated: Option<SudokuField>)
        ensures
            generated matches Some(field) ==> is_clue_board(field) && field.filled_count()
                == self.target() && (field.solved <==> self.target() == 81),
    {
        let start = SudokuField::new();
        proof {
            lemma_blank_is_clue_board();
        }
        let reached = fill(start, &self.draws, self.target_count);
        if reached.count_filled() == self.target_count {
            proof {
                lemma_filled_all(reached);
            }
            Some(reached)
        } else {
            None
        }
    }
}

/// The blank board is a clue board with no cell filled.
pub proof fn lemma_blank_is_clue_board()
    ensures
        is_clue_board(SudokuField::blank()),
        SudokuField::blank().filled_count() == 0,
{
    let blank = SudokuField::blank();
    assert forall|r: int, c: int| in_grid(r, c) implies #[trigger] blank.cell(r, c)
        == SudokuCell::blank() by {}
    assert(!blank.every_cell_filled()) by {
        assert(blank.cell(0, 0).value is None);
    }
    lemma_blank_count(81);
}

proof fn lemma_blank_count(n: nat)
    requires
        n <= 81,
    ensures
        SudokuField::blank().filled_among(n) == 0,
    decreases n,
{
    if n > 0 {
        lemma_blank_count((n - 1) as nat);
        assert(SudokuField::blank().nth_cell(n - 1) == SudokuCell::blank());
    }
}

} // verus!
