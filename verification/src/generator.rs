//! Board generation: the generator interface, and the generator that turns
//! the reply of a remote puzzle source into a field.

use vstd::prelude::*;

use crate::grid::{SudokuCell, SudokuField};
use crate::grid_laws::lemma_field_extensional;
use crate::units::{in_grid, is_digit};

verus! {

/// A source of new boards. `None` says that no board could be had.
pub trait SudokuGenerator {
    /// What `generate` hands over.
    spec fn outcome(&self) -> Option<SudokuField>;

    /// Produces a board, or `None`. A board handed over holds digits only.
    fn generate(&self) -> (generated: Option<SudokuField>)
        ensures
            generated == self.outcome(),
            generated matches Some(field) ==> field.has_digits(),
    ;
}

/// `grid` is a puzzle as the remote source sends it: nine rows of nine
/// entries, each 0 for an empty cell or a digit 1 to 9.
pub open spec fn is_puzzle_grid(grid: Seq<Seq<u8>>) -> bool {
    &&& grid.len() == 9
    &&& forall|r: int| 0 <= r < 9 ==> (#[trigger] grid[r]).len() == 9
    &&& forall|r: int, c: int| in_grid(r, c) ==> #[trigger] grid[r][c] <= 9
}

/// The cell that an entry of a puzzle grid stands for: 0 is a blank cell,
/// any other entry a fixed cell with that digit.
pub open spec fn cell_of_entry(entry: u8) -> SudokuCell {
    if entry == 0 {
        SudokuCell::blank()
    } else {
        SudokuCell { value: Some(entry), fixed: true, invalid: false }
    }
}

/// `field` is the board that `grid` describes. Its flags are those of a
/// fresh board: nothing has validated it yet.
pub open spec fn is_field_of_grid(field: SudokuField, grid: Seq<Seq<u8>>) -> bool {
    &&& forall|r: int, c: int|
        in_grid(r, c) ==> #[trigger] field.cell(r, c) == cell_of_entry(grid[r][c])
    &&& field.valid
    &&& !field.solved
}

/// The board that `grid` describes.
pub open spec fn field_of_grid(grid: Seq<Seq<u8>>) -> SudokuField {
    choose|field: SudokuField| is_field_of_grid(field, grid)
}

/// What a reply of the remote source decodes to: its board if it is a puzzle
/// grid, nothing if it is malformed.
pub open spec fn decoded(grid: Seq<Seq<u8>>) -> Option<SudokuField> {
    if is_puzzle_grid(grid) {
        Some(field_of_grid(grid))
    } else {
        None
    }
}

/// A grid describes one board only.
pub proof fn lemma_field_of_grid_unique(field: SudokuField, grid: Seq<Seq<u8>>)
    requires
        is_field_of_grid(field, grid),
    ensures
        field == field_of_grid(grid),
{
    let other = field_of_grid(grid);
    assert forall|r: int, c: int| in_grid(r, c) implies #[trigger] field.cell(r, c) == other.cell(
        r,
        c,
    ) by {
        assert(other.cell(r, c) == cell_of_entry(grid[r][c]));
    }
    lemma_field_extensional(field, other);
}

/// Whether `grid` has nine rows of nine entries, none above 9.
fn grid_is_puzzle(grid: &Vec<Vec<u8>>) -> (ok: bool)
    ensures
        ok == is_puzzle_grid(grid.deep_view()),
{
    if grid.len() != 9 {
        return false;
    }
    let mut row: usize = 0;
    while row < 9
        invariant
            row <= 9,
            grid.len() == 9,
            forall|r: int| 0 <= r < row ==> (#[trigger] grid.deep_view()[r]).len() == 9,
            forall|r: int, c: int|
                0 <= r < row && 0 <= c < 9 ==> #[trigger] grid.deep_view()[r][c] <= 9,
        decreases 9 - row,
    {
        assert(grid.deep_view()[row as int] == grid[row as int]@);
        if grid[row].len() != 9 {
            return false;
        }
        let mut col: usize = 0;
        while col < 9
            invariant
                row < 9,
                col <= 9,
                grid.len() == 9,
                grid[row as int].len() == 9,
                grid.deep_view()[row as int] == grid[row as int]@,
                forall|c: int| 0 <= c < col ==> #[trigger] grid.deep_view()[row as int][c] <= 9,
            decreases 9 - col,
        {
            if grid[row][col] > 9 {
                assert(grid.deep_view()[row as int][col as int] > 9);
                return false;
            }
            col += 1;
        }
        row += 1;
    }
    true
}

/// Decodes the reply of a remote puzzle source.
///
/// A reply that is not nine rows of nine entries from 0 to 9 is malformed
/// and yields `None`. Otherwise each entry becomes a cell: 0 a blank one,
/// a digit a fixed cell holding it. The board is not validated: its flags
/// are those of a fresh board.
pub fn field_from_grid(grid: &Vec<Vec<u8>>) -> (field: Option<SudokuField>)
    ensures
        field == decoded(grid.deep_view()),
        field matches Some(f) ==> is_field_of_grid(f, grid.deep_view()) && f.has_digits(),
{
    if !grid_is_puzzle(grid) {
        return None;
    }
    let mut field = SudokuField::new();
    let mut row: usize = 0;
    while row < 9
        invariant
            row <= 9,
            is_puzzle_grid(grid.deep_view()),
            field.valid,
            !field.solved,
            forall|r: int, c: int|
                in_grid(r, c) ==> #[trigger] field.cell(r, c) == if r < row {
                    cell_of_entry(grid.deep_view()[r][c])
                } else {
                    SudokuCell::blank()
                },
        decreases 9 - row,
    {
        assert(grid.deep_view()[row as int] == grid[row as int]@);
        assert(grid.deep_view()[row as int].len() == 9);
        let mut col: usize = 0;
        while col < 9
            invariant
                row < 9,
                col <= 9,
                is_puzzle_grid(grid.deep_view()),
                grid.len() == 9,
                grid[row as int].len() == 9,
                grid.deep_view()[row as int] == grid[row as int]@,
                field.valid,
                !field.solved,
                forall|r: int, c: int|
                    in_grid(r, c) ==> #[trigger] field.cell(r, c) == if r < row || (r == row && c
                        < col) {
                        cell_of_entry(grid.deep_view()[r][c])
                    } else {
                        SudokuCell::blank()
                    },
            decreases 9 - col,
        {
            let value = grid[row][col];
            let ghost earlier = field;
            field.rows[row].cells[col].value = if value == 0 {
                None
            } else {
                Some(value)
            };
            field.rows[row].cells[col].fixed = if value == 0 {
                false
            } else {
                true
            };
            assert forall|r: int, c: int| in_grid(r, c) implies #[trigger] field.cell(r, c)
                == if r < row || (r == row && c < col + 1) {
                cell_of_entry(grid.deep_view()[r][c])
            } else {
                SudokuCell::blank()
            } by {
                assert(field.cell(r, c) == if r == row && c == col {
                    cell_of_entry(value)
                } else {
                    earlier.cell(r, c)
                });
            }
            col += 1;
        }
        row += 1;
    }
    proof {
        lemma_field_of_grid_unique(field, grid.deep_view());
        assert forall|r: int, c: int| in_grid(r, c) implies match (#[trigger] field.cell(
            r,
            c,
        )).value {
            Some(d) => is_digit(d as int),
            None => true,
        } by {
            assert(grid.deep_view()[r][c] <= 9);
        }
    }
    Some(field)
}

/// The generator behind which a remote puzzle source stands. Talking to the
/// source is the caller's part; the generator holds the last reply it was
/// given and decodes it.
pub struct RestSudokuGenerator {
    reply: Option<Vec<Vec<u8>>>,
}

impl RestSudokuGenerator {
    /// The reply held: the grid last received, if any.
    pub closed spec fn reply(&self) -> Option<Seq<Seq<u8>>> {
        match self.reply {
            Some(grid) => Some(grid.deep_view()),
            None => None,
        }
    }

    /// A generator that has heard nothing from the source yet.
    pub fn new() -> (generator: RestSudokuGenerator)
        ensures
            generator.reply() is None,
    {
        RestSudokuGenerator { reply: None }
    }

    /// Takes in what the source answered: a grid, or `None` where it could
    /// not be reached or its answer could not be read.
    pub fn receive(&mut self, reply: Option<Vec<Vec<u8>>>)
        ensures
            final(self).reply() == match reply {
                Some(grid) => Some(grid.deep_view()),
                None => None,
            },
    {
        self.reply = reply;
    }
}

impl SudokuGenerator for RestSudokuGenerator {
    open spec fn outcome(&self) -> Option<SudokuField> {
        match self.reply() {
            Some(grid) => decoded(grid),
            None => None,
        }
    }

    fn generate(&self) -> (generated: Option<SudokuField>) {
        match &self.reply {
            Some(grid) => field_from_grid(grid),
            None => None,
        }
    }
}

} // verus!
