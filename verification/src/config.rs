//! How large the board is drawn.

use vstd::prelude::*;

verus! {

/// The sizes with which a board is drawn.
#[derive(Clone, Copy, Debug)]
pub struct GameConfig {
    /// Edge length of one square on screen, in points.
    pub board_square_size: u16,
    /// Number of squares along one side of the board.
    pub board_squares: u16,
}

impl Default for GameConfig {
    /// A board of no squares.
    fn default() -> (config: Self)
        ensures
            config.board_square_size == 0,
            config.board_squares == 0,
    {
        Self { board_square_size: 0, board_squares: 0 }
    }
}

impl GameConfig {
    /// The usual board: eight squares a side, each 50 points wide.
    pub fn new() -> (config: Self)
        ensures
            config.board_square_size == 50,
            config.board_squares == 8,
    {
        Self { board_square_size: 50, board_squares: 8 }
    }

    /// Edge length of the whole board on screen, in points.
    pub fn board_size(&self) -> (size: u16)
        requires
            self.board_square_size * self.board_squares <= u16::MAX,
        ensures
            size == self.board_square_size * self.board_squares,
    {
        self.board_square_size * self.board_squares
    }
}

} // verus!
