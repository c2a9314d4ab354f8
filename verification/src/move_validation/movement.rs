//! The description of one proposed move.

use vstd::prelude::*;

use crate::board::{Board, BoardExt, BoardIndex, Color, Piece, PieceType};
use crate::move_validation::rules::holds_enemy;
use crate::state::{AdditionalBoardData, GameState, GameStateView};

verus! {

/// What is known of the position when a move is proposed.
#[derive(Debug)]
pub struct MovementInformation {
    /// Whether the move lands on an enemy piece or on the en-passant square.
    pub capturing: bool,
    /// The board before the move.
    pub board: Board,
    /// Kind of the piece that is to move.
    pub piece_type: PieceType,
    /// Side of the piece that is to move.
    pub piece_color: Color,
    /// The side whose turn it is.
    pub turn: Color,
    pub board_data: AdditionalBoardData,
}

/// A proposed move together with the position it is proposed in.
#[derive(Debug)]
pub struct Movement {
    pub start: BoardIndex,
    pub destination: BoardIndex,
    pub movement_info: MovementInformation,
}

/// A [`MovementInformation`] as contracts speak of it.
pub struct MovementInformationView {
    pub capturing: bool,
    pub board: Seq<Option<Piece>>,
    pub piece_type: PieceType,
    pub piece_color: Color,
    pub turn: Color,
    pub board_data: AdditionalBoardData,
}

/// A [`Movement`] as contracts speak of it.
pub struct MovementView {
    pub start: BoardIndex,
    pub destination: BoardIndex,
    pub movement_info: MovementInformationView,
}

impl View for MovementInformation {
    type V = MovementInformationView;

    open spec fn view(&self) -> MovementInformationView {
        MovementInformationView {
            capturing: self.capturing,
            board: self.board@,
            piece_type: self.piece_type,
            piece_color: self.piece_color,
            turn: self.turn,
            board_data: self.board_data,
        }
    }
}

impl View for Movement {
    type V = MovementView;

    open spec fn view(&self) -> MovementView {
        MovementView {
            start: self.start,
            destination: self.destination,
            movement_info: self.movement_info@,
        }
    }
}

/// The description of the move from `start` to `destination` in the game
/// `state`: the board and the turn as they are before the move, the piece
/// that stands on `start`, and whether the move captures.
pub open spec fn movement_of(
    state: GameStateView,
    start: BoardIndex,
    destination: BoardIndex,
    board_data: AdditionalBoardData,
) -> MovementView {
    let piece = state.board[start as int].unwrap();
    MovementView {
        start,
        destination,
        movement_info: MovementInformationView {
            capturing: holds_enemy(state.board, piece.color, destination as int)
                || state.additional_board_data.en_passant_square == Some(destination),
            board: state.board,
            piece_type: piece.piece_type,
            piece_color: piece.color,
            turn: state.turn,
            board_data,
        },
    }
}

impl Clone for MovementInformation {
    fn clone(&self) -> (copy: Self)
        ensures
            copy@ == self@,
    {
        let board = self.board.clone();
        assert(board@ =~= self.board@);
        MovementInformation {
            capturing: self.capturing,
            board,
            piece_type: self.piece_type,
            piece_color: self.piece_color,
            turn: self.turn,
            board_data: self.board_data,
        }
    }
}

impl Clone for Movement {
    fn clone(&self) -> (copy: Self)
        ensures
            copy@ == self@,
    {
        Movement {
            start: self.start,
            destination: self.destination,
            movement_info: self.movement_info.clone(),
        }
    }
}

impl Movement {
    /// Describes the move from `start` to `destination` in the game `state`.
    pub fn from_with_state(
        start: BoardIndex,
        destination: BoardIndex,
        state: &GameState,
        board_data: AdditionalBoardData,
    ) -> (movement: Self)
        requires
            start < state.board@.len(),
            destination < state.board@.len(),
            state.board@[start as int] is Some,
        ensures
            movement@ == movement_of(state@, start, destination, board_data),
    {
        let piece = state.board.piece_at(start).unwrap();
        let takes_piece = match state.board.piece_at(destination) {
            Some(other) => other.color != piece.color,
            None => false,
        };
        let takes_passing = match state.additional_board_data.en_passant_square {
            Some(sq) => sq == destination,
            None => false,
        };
        let board = state.board.clone();
        assert(board@ =~= state.board@);
        Self {
            start: start,
            destination: destination,
            movement_info: MovementInformation {
                capturing: takes_piece || takes_passing,
                board: board,
                piece_type: piece.piece_type,
                piece_color: piece.color,
                turn: state.turn,
                board_data: board_data,
            },
        }
    }
}

impl MovementInformation {
    /// Puts together what is known of a position.
    pub fn new(
        capturing: bool,
        board: Board,
        piece_type: PieceType,
        piece_color: Color,
        turn: Color,
        board_data: AdditionalBoardData,
    ) -> (info: Self)
        ensures
            info == (MovementInformation {
                capturing,
                board,
                piece_type,
                piece_color,
                turn,
                board_data,
            }),
    {
        Self {
            capturing: capturing,
            board: board,
            piece_type: piece_type,
            piece_color: piece_color,
            turn: turn,
            board_data: board_data,
        }
    }
}

} // verus!
