//! The geometry of the board: positions, digits, and the partition into
//! 3×3 blocks.

use vstd::prelude::*;

verus! {

/// `(r, c)` names a cell of the board.
pub open spec fn in_grid(r: int, c: int) -> bool {
    0 <= r < 9 && 0 <= c < 9
}

/// `d` is one of the digits 1 to 9.
pub open spec fn is_digit(d: int) -> bool {
    1 <= d <= 9
}

/// The 3×3 block of cell `(r, c)`, numbered left to right, top to bottom.
pub open spec fn box_index(r: int, c: int) -> int {
    (r / 3) * 3 + c / 3
}

/// Two cells lie in a common row, column or block.
pub open spec fn share_unit(r1: int, c1: int, r2: int, c2: int) -> bool {
    r1 == r2 || c1 == c2 || box_index(r1, c1) == box_index(r2, c2)
}

/// The block of cell `(row, col)`.
pub fn box_of(row: usize, col: usize) -> (b: usize)
    requires
        in_grid(row as int, col as int),
    ensures
        b == box_index(row as int, col as int),
        b < 9,
{
    (row / 3) * 3 + col / 3
}

} // verus!
