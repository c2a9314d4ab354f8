//! The game: the board, whose turn it is, and what else a position carries.

use vstd::prelude::*;

use crate::board::{
    empty_squares, file_of, rank_of, square_at, starting_position, Board, BoardExt, BoardIndex,
    BoardIndexExt, BoardIndexXYExt, Color, Piece, PieceType,
};
use crate::move_validation::geometry::distance;
use crate::move_validation::movement::{movement_of, Movement, MovementView};
use crate::move_validation::rules::{holds_enemy, holds_own, move_allowed};
use crate::move_validation::validator::validate_move;
use crate::BOARD_SQUARES;

verus! {

/// What a position carries besides the pieces and the turn.
#[derive(Clone, Copy, Debug)]
pub struct AdditionalBoardData {
    /// The square that a pawn passed over with a double step on the move just
    /// made, if that move was one.
    pub en_passant_square: Option<BoardIndex>,
    /// For White and then for Black, whether castling is still open on the
    /// king's side and on the queen's side.
    pub castling_status: ((bool, bool), (bool, bool)),
}

/// A game in progress.
#[derive(Debug)]
pub struct GameState {
    pub board: Board,
    /// The side that moves next.
    pub turn: Color,
    pub additional_board_data: AdditionalBoardData,
    /// The square that the player has picked to move from, if any. The rules
    /// do not look at it.
    pub selected_square: Option<BoardIndex>,
}

/// A game as contracts speak of it.
pub struct GameStateView {
    pub board: Seq<Option<Piece>>,
    pub turn: Color,
    pub additional_board_data: AdditionalBoardData,
    pub selected_square: Option<BoardIndex>,
}

impl View for GameState {
    type V = GameStateView;

    open spec fn view(&self) -> GameStateView {
        GameStateView {
            board: self.board@,
            turn: self.turn,
            additional_board_data: self.additional_board_data,
            selected_square: self.selected_square,
        }
    }
}

/// The square one rank behind the destination of `m`, as the mover sees it.
pub open spec fn square_behind(m: MovementView) -> int {
    square_at(
        file_of(m.destination as int),
        rank_of(m.destination as int) - m.movement_info.piece_color.forward(),
    )
}

/// The move `m` is made by a pawn and spans two ranks.
pub open spec fn double_step(m: MovementView) -> bool {
    m.movement_info.piece_type == PieceType::Pawn && distance(
        rank_of(m.start as int),
        rank_of(m.destination as int),
    ) == 2
}

/// The en-passant square once `m` is made: the square behind the destination
/// if a pawn has moved two ranks, none after any other move.
pub open spec fn en_passant_after(m: MovementView) -> Option<BoardIndex> {
    if double_step(m) {
        Some(square_behind(m) as BoardIndex)
    } else {
        None
    }
}

/// The move `m` captures without landing on a piece: it takes a pawn in
/// passing.
pub open spec fn takes_en_passant(m: MovementView) -> bool {
    m.movement_info.board[m.destination as int] is None && m.movement_info.capturing
}

impl GameStateView {
    /// The board has its 64 squares, and the en-passant square, if there is
    /// one, has a rank of the board on either side: whichever side arrives
    /// on it, the square behind it, where the passed pawn stands, exists.
    pub open spec fn well_formed(self) -> bool {
        &&& self.board.len() == 64
        &&& self.additional_board_data.en_passant_square matches Some(square) ==> 1 <= rank_of(
            square as int,
        ) <= 6
    }

    /// The move from `start` to `destination` is allowed: a piece stands on
    /// `start`, and the description of the move passes validation.
    pub open spec fn legal(self, start: BoardIndex, destination: BoardIndex) -> bool {
        &&& self.board[start as int] is Some
        &&& move_allowed(movement_of(self, start, destination, self.additional_board_data))
    }

    /// The game after the allowed move from `start` to `destination`: the
    /// piece stands on `destination`, `start` is empty, a pawn taken in
    /// passing is gone, the en-passant square is set anew, and the turn has
    /// passed to the other side.
    pub open spec fn after_move(self, start: BoardIndex, destination: BoardIndex) -> GameStateView {
        let m = movement_of(self, start, destination, self.additional_board_data);
        let relocated = self.board.update(destination as int, self.board[start as int]).update(
            start as int,
            None,
        );
        GameStateView {
            board: if takes_en_passant(m) {
                relocated.update(square_behind(m), None)
            } else {
                relocated
            },
            turn: self.turn.opposite(),
            additional_board_data: AdditionalBoardData {
                en_passant_square: en_passant_after(m),
                castling_status: self.additional_board_data.castling_status,
            },
            selected_square: self.selected_square,
        }
    }
}

/// No piece of the side that is not to move can be moved, whatever the
/// destination.
pub proof fn lemma_turn_enforced(state: GameStateView, start: BoardIndex, destination: BoardIndex)
    requires
        holds_enemy(state.board, state.turn, start as int),
    ensures
        !state.legal(start, destination),
{
}

/// After a white pawn has advanced two squares from its starting rank, a
/// black pawn beside the square it arrived on may capture it in passing: the
/// black pawn then stands on the square that the white pawn passed over, and
/// the white pawn is gone.
pub proof fn lemma_en_passant_removes_passed_pawn(state: GameStateView, file: int, beside: int)
    requires
        state.well_formed(),
        state.turn == Color::White,
        0 <= file < 8,
        0 <= beside < 8,
        distance(file, beside) == 1,
        state.board[square_at(file, 6)] == Some(
            Piece { color: Color::White, piece_type: PieceType::Pawn },
        ),
        state.board[square_at(file, 5)] is None,
        state.board[square_at(file, 4)] is None,
        state.board[square_at(beside, 4)] == Some(
            Piece { color: Color::Black, piece_type: PieceType::Pawn },
        ),
    ensures
        ({
            let home = square_at(file, 6) as BoardIndex;
            let passed = square_at(file, 5) as BoardIndex;
            let arrived = square_at(file, 4) as BoardIndex;
            let capturer = square_at(beside, 4) as BoardIndex;
            let pushed = state.after_move(home, arrived);
            let captured = pushed.after_move(capturer, passed);
            &&& state.legal(home, arrived)
            &&& pushed.well_formed()
            &&& pushed.turn == Color::Black
            &&& pushed.additional_board_data.en_passant_square == Some(passed)
            &&& pushed.legal(capturer, passed)
            &&& captured.board[arrived as int] is None
            &&& captured.board[capturer as int] is None
            &&& captured.board[passed as int] == Some(
                Piece { color: Color::Black, piece_type: PieceType::Pawn },
            )
        }),
{
}

impl Clone for GameState {
    fn clone(&self) -> (copy: Self)
        ensures
            copy@ == self@,
    {
        let board = self.board.clone();
        assert(board@ =~= self.board@);
        GameState {
            board,
            turn: self.turn,
            additional_board_data: self.additional_board_data,
            selected_square: self.selected_square,
        }
    }
}

impl Default for GameState {
    /// An empty board with White to move and no castling open.
    fn default() -> (state: Self)
        ensures
            state@ == (GameStateView {
                board: empty_squares(),
                turn: Color::White,
                additional_board_data: AdditionalBoardData {
                    en_passant_square: None,
                    castling_status: ((false, false), (false, false)),
                },
                selected_square: None,
            }),
            state@.well_formed(),
    {
        Self {
            board: Board::empty_board(),
            turn: Color::White,
            additional_board_data: AdditionalBoardData {
                en_passant_square: None,
                castling_status: ((false, false), (false, false)),
            },
            selected_square: None,
        }
    }
}

impl GameState {
    /// A game on an empty board, with White to move.
    pub fn new() -> (state: Self)
        ensures
            state@ == (GameStateView {
                board: empty_squares(),
                turn: Color::White,
                additional_board_data: AdditionalBoardData {
                    en_passant_square: None,
                    castling_status: ((true, true), (true, true)),
                },
                selected_square: None,
            }),
            state@.well_formed(),
    {
        Self {
            board: Board::empty_board(),
            turn: Color::White,
            additional_board_data: AdditionalBoardData {
                en_passant_square: None,
                castling_status: ((true, true), (true, true)),
            },
            selected_square: None,
        }
    }

    /// A game at its beginning.
    pub fn new_with_default_position() -> (state: Self)
        ensures
            state@ == (GameStateView {
                board: starting_position(),
                turn: Color::White,
                additional_board_data: AdditionalBoardData {
                    en_passant_square: None,
                    castling_status: ((true, true), (true, true)),
                },
                selected_square: None,
            }),
            state@.well_formed(),
    {
        Self {
            board: Board::default_position(),
            turn: Color::White,
            additional_board_data: AdditionalBoardData {
                en_passant_square: None,
                castling_status: ((true, true), (true, true)),
            },
            selected_square: None,
        }
    }

    /// Whether the game is one that [`GameState::move_piece`] accepts: the
    /// board has its 64 squares, and the en-passant square, if there is one,
    /// has a rank of the board on either side.
    pub fn is_well_formed(&self) -> (well_formed: bool)
        ensures
            well_formed == self@.well_formed(),
    {
        if self.board.len() != 64 {
            return false;
        }
        match self.additional_board_data.en_passant_square {
            None => true,
            Some(square) => {
                let square_xy = square.to_xy();
                1 <= square_xy.1 && square_xy.1 < BOARD_SQUARES - 1
            },
        }
    }

    /// Passes the turn to the other side.
    pub fn switch_turn(&mut self)
        ensures
            final(self)@ == (GameStateView { turn: old(self).turn.opposite(), ..old(self)@ }),
    {
        if self.turn == Color::White {
            self.turn = Color::Black;
        } else {
            self.turn = Color::White;
        }
    }

    /// Moves the piece from `start` to `destination` if the move is allowed.
    /// Returns `false` if it is not, and then nothing has changed. Returns
    /// `true` if it is, and then the piece has moved and the turn has passed
    /// to the other side.
    pub fn move_piece(&mut self, start: BoardIndex, destination: BoardIndex) -> (moved: bool)
        requires
            old(self)@.well_formed(),
            start < 64,
            destination < 64,
        ensures
            moved == old(self)@.legal(start, destination),
            moved ==> final(self)@ == old(self)@.after_move(start, destination),
            !moved ==> *final(self) == *old(self),
            moved ==> holds_own(old(self).board@, old(self).turn, start as int),
            final(self)@.well_formed(),
    {
        if self.board.piece_at(start).is_none() {
            false
        } else {
            let movement = Movement::from_with_state(
                start,
                destination,
                self,
                self.additional_board_data,
            );
            if validate_move(movement.clone()) {
                let piece = self.board[start as usize];
                self.board.set(destination as usize, piece);
                self.board.set(start as usize, None);
                self.set_en_passant_square(movement.clone());
                let en_passant = self.check_for_en_passant(movement.clone());
                if en_passant {
                    let modifier: i32 = if movement.movement_info.piece_color == Color::White {
                        1
                    } else {
                        -1
                    };
                    let mut destination_xy = movement.destination.to_xy();
                    destination_xy.1 = (destination_xy.1 as i32 + modifier) as u16;
                    self.board.set(destination_xy.to_index() as usize, None);
                }
                self.switch_turn();
                assert(self@.board =~= old(self)@.after_move(start, destination).board);
                true
            } else {
                false
            }
        }
    }

    /// Only sets the square if the moved piece was a pawn and it was moved 2
    /// squares, else sets it to None.
    pub fn set_en_passant_square(&mut self, m: Movement)
        requires
            m.start < 64,
            m.destination < 64,
            double_step(m@) ==> 0 <= rank_of(m.destination as int)
                - m.movement_info.piece_color.forward() < 8,
        ensures
            final(self)@ == (GameStateView {
                additional_board_data: AdditionalBoardData {
                    en_passant_square: en_passant_after(m@),
                    castling_status: old(self).additional_board_data.castling_status,
                },
                ..old(self)@
            }),
    {
        if m.movement_info.piece_type != PieceType::Pawn {
            self.additional_board_data.en_passant_square = None;
            return ;
        }
        let start_xy = m.start.to_xy();
        let destination_xy = m.destination.to_xy();
        let y_distance = if start_xy.1 < destination_xy.1 {
            destination_xy.1 - start_xy.1
        } else {
            start_xy.1 - destination_xy.1
        };
        if y_distance == 2 {
            let modifier: i32 = if m.movement_info.piece_color == Color::White {
                -1
            } else {
                1
            };
            let en_passant_square = (
                destination_xy.0,
                (destination_xy.1 as i32 - modifier) as u16,
            );
            self.additional_board_data.en_passant_square = Some(en_passant_square.to_index());
        } else {
            self.additional_board_data.en_passant_square = None;
            return ;
        }
    }

    /// Checks if the movement is en passant: the destination is empty and
    /// yet the move captures.
    pub fn check_for_en_passant(&self, m: Movement) -> (en_passant: bool)
        requires
            m.destination < m.movement_info.board@.len(),
        ensures
            en_passant == takes_en_passant(m@),
    {
        m.movement_info.board.piece_at(m.destination).is_none() && m.movement_info.capturing
    }
}

} // verus!
