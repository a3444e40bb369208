//! Board coordinates and their linear index.
use vstd::prelude::*;

verus! {

/// Number of columns of the board.
pub const BOARD_WIDTH: usize = 10;

/// Number of rows of the board.
pub const BOARD_HEIGHT: usize = 10;

/// Number of cells of the board.
pub const BOARD_SIZE: usize = 100;

/// One cell of the board, `x` being the column and `y` the row.
#[derive(Clone, Copy, Debug, PartialEq, Eq, Hash, Structural)]
pub struct Position {
    pub x: usize,
    pub y: usize,
}

/// The linear index of the cell at column `x` and row `y`.
pub open spec fn cell_index(x: int, y: int) -> int {
    y * BOARD_WIDTH + x
}

/// Whether column `x`, row `y` lies on the board.
pub open spec fn in_bounds(x: int, y: int) -> bool {
    0 <= x < BOARD_WIDTH && 0 <= y < BOARD_HEIGHT
}

impl Position {
    pub open spec fn valid(self) -> bool {
        in_bounds(self.x as int, self.y as int)
    }

    pub open spec fn index(self) -> int {
        cell_index(self.x as int, self.y as int)
    }

    /// The index of this cell in a flat table of the board's cells.
    pub fn raw_index(&self) -> (r: usize)
        requires
            self.valid(),
        ensures
            r == self.index(),
            r < BOARD_SIZE,
    {
        self.y * BOARD_WIDTH + self.x
    }
}

/// Shorthand for the cell at column `x`, row `y`.
pub fn pos(x: usize, y: usize) -> (r: Position)
    ensures
        r == (Position { x, y }),
{
    Position { x, y }
}

/// Two cells of the board with the same index are the same cell, and
/// the column and row are recovered from the index by remainder and quotient.
pub proof fn lemma_index_injective_and_invertible(x1: int, y1: int, x2: int, y2: int)
    requires
        in_bounds(x1, y1),
        in_bounds(x2, y2),
    ensures
        cell_index(x1, y1) == cell_index(x2, y2) ==> x1 == x2 && y1 == y2,
        cell_index(x1, y1) % (BOARD_WIDTH as int) == x1,
        cell_index(x1, y1) / (BOARD_WIDTH as int) == y1,
{
    assert(cell_index(x1, y1) % 10 == x1 && cell_index(x1, y1) / 10 == y1) by (nonlinear_arith)
        requires
            0 <= x1 < 10,
            0 <= y1 < 10,
            cell_index(x1, y1) == y1 * 10 + x1,
    ;
}

} // verus!
