use vstd::prelude::*;

verus! {

/// Number of rows, and of columns, of the board.
pub const BOARD_SIZE: usize = 8;

/// A square of the board: `x` is the column, `y` the row (the index of the
/// input line it was read from).
#[derive(Clone, Copy, Debug, PartialEq, Eq, Structural)]
pub struct Position {
    /// The column, counted from the left.
    pub x: usize,
    /// The row, counted from the top.
    pub y: usize,
}

impl Position {
    /// Both coordinates lie in `0..BOARD_SIZE`.
    pub open spec fn on_board(self) -> bool {
        self.x < BOARD_SIZE && self.y < BOARD_SIZE
    }
}

impl Default for Position {
    /// The top-left square.
    fn default() -> (r: Position)
        ensures
            r == (Position { x: 0, y: 0 }),
    {
        Position { x: 0, y: 0 }
    }
}

} // verus!
