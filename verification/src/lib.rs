//! Rules of movement for a two-player chess board: which squares a piece may
//! move to, whether a proposed move is allowed, and how an allowed move
//! changes the game.
//!
//! Moves are judged by how the piece moves and by what stands in its way.
//! Whether a move leaves the mover's own king attacked is not looked at;
//! castling rights are carried along but no castling move is offered, and a
//! pawn that reaches the last rank stays a pawn.
//!
//! - [`board`] holds the pieces, the board and the numbering of its squares.
//! - [`move_validation`] states the rules and applies them:
//!   [`move_validation::rules::pseudo_legal`] is the relation that every
//!   contract about moves goes back to.
//! - [`state`] holds the game and makes the moves.
//! - [`config`] holds the sizes with which a board is drawn.

use vstd::prelude::*;

pub mod board;
pub mod config;
pub mod move_validation;
pub mod state;

verus! {

/// Number of squares along one side of the board.
pub const BOARD_SQUARES: u16 = 8;

/// Edge length of one square on screen, in points.
pub const BOARD_SQUARE_SIZE: u16 = 50;

} // verus!
