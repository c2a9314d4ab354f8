//! The rules of movement, stated once as the relation [`pseudo_legal`]
//! between a position, a square and a destination. It looks only at how the
//! piece on the square moves and at what stands in its way.

use vstd::prelude::*;

use crate::board::{file_of, rank_of, square_at, BoardIndex, Color, Piece, PieceType};
use crate::move_validation::geometry::{
    diagonal, distance, span, straight, strictly_between, toward,
};
use crate::move_validation::movement::MovementView;

verus! {

/// `square` holds a piece of the side `color`.
pub open spec fn holds_own(board: Seq<Option<Piece>>, color: Color, square: int) -> bool {
    match board[square] {
        Some(piece) => piece.color == color,
        None => false,
    }
}

/// `square` holds a piece of the side opposed to `color`.
pub open spec fn holds_enemy(board: Seq<Option<Piece>>, color: Color, square: int) -> bool {
    match board[square] {
        Some(piece) => piece.color != color,
        None => false,
    }
}

/// A piece of `color` may come to rest on `square`: it is empty or holds an
/// enemy piece.
pub open spec fn may_land(board: Seq<Option<Piece>>, color: Color, square: int) -> bool {
    match board[square] {
        Some(piece) => piece.color != color,
        None => true,
    }
}

/// Nothing stands between `from` and `to`.
pub open spec fn path_clear(board: Seq<Option<Piece>>, from: int, to: int) -> bool {
    forall|mid: int|
        0 <= mid < 64 && strictly_between(from, mid, to) ==> (#[trigger] board[mid]) is None
}

/// One step of a king.
pub open spec fn king_step(from: int, to: int) -> bool {
    span(from, to) == 1
}

/// One jump of a knight.
pub open spec fn knight_jump(from: int, to: int) -> bool {
    let files = distance(file_of(from), file_of(to));
    let ranks = distance(rank_of(from), rank_of(to));
    (files == 1 && ranks == 2) || (files == 2 && ranks == 1)
}

/// A pawn of `color` on `from` may move to `to`: one step ahead onto an empty
/// square; two steps ahead from its starting rank over an empty square onto
/// an empty square; or one step diagonally ahead onto an enemy piece or onto
/// the en-passant square.
pub open spec fn pawn_reaches(
    board: Seq<Option<Piece>>,
    en_passant: Option<BoardIndex>,
    color: Color,
    from: int,
    to: int,
) -> bool {
    let ahead = rank_of(from) + color.forward();
    if file_of(to) == file_of(from) {
        ||| rank_of(to) == ahead && board[to] is None
        ||| {
            &&& rank_of(to) == ahead + color.forward()
            &&& rank_of(from) == color.pawn_rank()
            &&& board[square_at(file_of(from), ahead)] is None
            &&& board[to] is None
        }
    } else {
        &&& distance(file_of(from), file_of(to)) == 1
        &&& rank_of(to) == ahead
        &&& (holds_enemy(board, color, to) || en_passant == Some(to as BoardIndex))
    }
}

/// The piece on `from` belongs to the side `turn` and may move to `to`, as
/// far as its way of moving and the pieces in its way are concerned. Whether
/// the move leaves the mover's king attacked is not looked at, and no
/// castling move is admitted.
pub open spec fn pseudo_legal(
    board: Seq<Option<Piece>>,
    en_passant: Option<BoardIndex>,
    turn: Color,
    from: int,
    to: int,
) -> bool {
    &&& 0 <= from < 64
    &&& 0 <= to < 64
    &&& holds_own(board, turn, from)
    &&& match board[from].unwrap().piece_type {
        PieceType::Pawn => pawn_reaches(board, en_passant, turn, from, to),
        PieceType::Knight => knight_jump(from, to) && may_land(board, turn, to),
        PieceType::King => king_step(from, to) && may_land(board, turn, to),
        PieceType::Rook => {
            straight(from, to) && path_clear(board, from, to) && may_land(board, turn, to)
        },
        PieceType::Bishop => {
            diagonal(from, to) && path_clear(board, from, to) && may_land(board, turn, to)
        },
        PieceType::Queen => {
            &&& straight(from, to) || diagonal(from, to)
            &&& path_clear(board, from, to)
            &&& may_land(board, turn, to)
        },
    }
}

/// The move that `m` describes is allowed: the piece belongs to the side
/// whose turn it is, and the destination is one that the piece on the start
/// square may move to on the board of `m`.
pub open spec fn move_allowed(m: MovementView) -> bool {
    &&& m.movement_info.piece_color == m.movement_info.turn
    &&& pseudo_legal(
        m.movement_info.board,
        m.movement_info.board_data.en_passant_square,
        m.movement_info.turn,
        m.start as int,
        m.destination as int,
    )
}

/// A pawn on its starting rank with a piece on the square directly ahead is
/// not offered the square two ahead, whatever stands there.
pub proof fn lemma_blocked_pawn_cannot_double_push(
    board: Seq<Option<Piece>>,
    en_passant: Option<BoardIndex>,
    turn: Color,
    color: Color,
    from: int,
)
    requires
        board.len() == 64,
        0 <= from < 64,
        board[from] == Some(Piece { color, piece_type: PieceType::Pawn }),
        rank_of(from) == color.pawn_rank(),
        board[from + 8 * color.forward()] is Some,
    ensures
        !pseudo_legal(board, en_passant, turn, from, from + 16 * color.forward()),
{
}

/// A rook with a piece of its own side two squares away on its rank, and
/// an empty square between them, reaches that empty square, does not reach
/// the square of the piece, and reaches nothing beyond it.
pub proof fn lemma_rook_blocked_by_own_piece(
    board: Seq<Option<Piece>>,
    en_passant: Option<BoardIndex>,
    turn: Color,
    from: int,
    step: int,
)
    requires
        board.len() == 64,
        0 <= from < 64,
        board[from] == Some(Piece { color: turn, piece_type: PieceType::Rook }),
        step == 1 || step == -1,
        0 <= file_of(from) + 2 * step < 8,
        board[from + step] is None,
        board[from + 2 * step] matches Some(piece) && piece.color == turn,
    ensures
        pseudo_legal(board, en_passant, turn, from, from + step),
        !pseudo_legal(board, en_passant, turn, from, from + 2 * step),
        forall|to: int|
            0 <= to < 64 && rank_of(to) == rank_of(from) && toward(file_of(from), file_of(to))
                == step && distance(file_of(from), file_of(to)) > 2 ==> !pseudo_legal(
                board,
                en_passant,
                turn,
                from,
                to,
            ),
{
    let blocker = from + 2 * step;
    assert forall|to: int|
        0 <= to < 64 && rank_of(to) == rank_of(from) && toward(file_of(from), file_of(to)) == step
            && distance(file_of(from), file_of(to)) > 2 implies !pseudo_legal(
        board,
        en_passant,
        turn,
        from,
        to,
    ) by {
        assert(strictly_between(from, blocker, to));
        assert(board[blocker] is Some);
    }
}

/// A bishop with an enemy piece on one of its diagonals, and nothing
/// between them, reaches the square of that piece and nothing beyond it on
/// that diagonal.
pub proof fn lemma_bishop_captures_then_stops(
    board: Seq<Option<Piece>>,
    en_passant: Option<BoardIndex>,
    turn: Color,
    from: int,
    enemy: int,
)
    requires
        board.len() == 64,
        0 <= from < 64,
        0 <= enemy < 64,
        board[from] == Some(Piece { color: turn, piece_type: PieceType::Bishop }),
        diagonal(from, enemy),
        path_clear(board, from, enemy),
        holds_enemy(board, turn, enemy),
    ensures
        pseudo_legal(board, en_passant, turn, from, enemy),
        forall|to: int|
            0 <= to < 64 && strictly_between(from, enemy, to) ==> !pseudo_legal(
                board,
                en_passant,
                turn,
                from,
                to,
            ),
{
    assert forall|to: int| 0 <= to < 64 && strictly_between(from, enemy, to) implies !pseudo_legal(
        board,
        en_passant,
        turn,
        from,
        to,
    ) by {
        assert(board[enemy] is Some);
    }
}

} // verus!
