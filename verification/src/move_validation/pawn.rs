//! The moves of a pawn.

use vstd::prelude::*;

use crate::board::{
    file_of, rank_of, Board, BoardExt, BoardIndex, BoardIndexExt, BoardIndexXYExt, Color, Piece,
};
use crate::move_validation::rules::{holds_enemy, pawn_reaches};
use crate::move_validation::sequences::{lemma_push_contains, lemma_push_distinct};
use crate::move_validation::validator::validate_i32_pos;
use crate::state::AdditionalBoardData;
use crate::BOARD_SQUARES;

verus! {

/// A pawn of `color` on `from` may step onto the square directly ahead.
pub open spec fn pawn_steps(board: Seq<Option<Piece>>, color: Color, from: int) -> bool {
    &&& 0 <= rank_of(from) + color.forward() < 8
    &&& board[from + 8 * color.forward()] is None
}

/// A pawn of `color` on `from` may move two squares ahead.
pub open spec fn pawn_leaps(board: Seq<Option<Piece>>, color: Color, from: int) -> bool {
    &&& rank_of(from) == color.pawn_rank()
    &&& board[from + 8 * color.forward()] is None
    &&& board[from + 16 * color.forward()] is None
}

/// A pawn of `color` on `from` may capture onto the square ahead of it on
/// the next file to the `side` (-1 or 1).
pub open spec fn pawn_captures(
    board: Seq<Option<Piece>>,
    en_passant: Option<BoardIndex>,
    color: Color,
    from: int,
    side: int,
) -> bool {
    let target = from + 8 * color.forward() + side;
    &&& 0 <= rank_of(from) + color.forward() < 8
    &&& 0 <= file_of(from) + side < 8
    &&& (holds_enemy(board, color, target) || en_passant == Some(target as BoardIndex))
}

/// The squares on the next rank that a pawn of `color` on `from` may move to.
pub open spec fn pawn_nearby(
    board: Seq<Option<Piece>>,
    en_passant: Option<BoardIndex>,
    color: Color,
    from: int,
) -> Seq<BoardIndex> {
    let ahead = from + 8 * color.forward();
    let stepped = if pawn_steps(board, color, from) {
        seq![ahead as BoardIndex]
    } else {
        Seq::empty()
    };
    let taken_left = if pawn_captures(board, en_passant, color, from, -1) {
        stepped.push((ahead - 1) as BoardIndex)
    } else {
        stepped
    };
    if pawn_captures(board, en_passant, color, from, 1) {
        taken_left.push((ahead + 1) as BoardIndex)
    } else {
        taken_left
    }
}

/// The squares that a pawn of `color` on `from` may move to: those on the
/// next rank, then the one two ranks ahead.
pub open spec fn pawn_list(
    board: Seq<Option<Piece>>,
    en_passant: Option<BoardIndex>,
    color: Color,
    from: int,
) -> Seq<BoardIndex> {
    let nearby = pawn_nearby(board, en_passant, color, from);
    if pawn_leaps(board, color, from) {
        nearby.push((from + 16 * color.forward()) as BoardIndex)
    } else {
        nearby
    }
}

/// A pawn reaches a square exactly when it steps, leaps or captures onto it.
pub proof fn lemma_pawn_reaches(
    board: Seq<Option<Piece>>,
    en_passant: Option<BoardIndex>,
    color: Color,
    from: int,
    to: int,
)
    requires
        0 <= from < 64,
    ensures
        0 <= to < 64 && pawn_reaches(board, en_passant, color, from, to) <==> {
            let ahead = from + 8 * color.forward();
            ||| to == ahead && pawn_steps(board, color, from)
            ||| to == ahead - 1 && pawn_captures(board, en_passant, color, from, -1)
            ||| to == ahead + 1 && pawn_captures(board, en_passant, color, from, 1)
            ||| to == ahead + 8 * color.forward() && pawn_leaps(board, color, from)
        },
{
}

/// [`pawn_list`] holds the squares that the pawn reaches, each once.
pub proof fn lemma_pawn_list(
    board: Seq<Option<Piece>>,
    en_passant: Option<BoardIndex>,
    color: Color,
    from: int,
)
    requires
        0 <= from < 64,
    ensures
        pawn_list(board, en_passant, color, from).no_duplicates(),
        forall|square: BoardIndex|
            #![trigger pawn_list(board, en_passant, color, from).contains(square)]
            pawn_list(board, en_passant, color, from).contains(square) <==> square < 64
                && pawn_reaches(board, en_passant, color, from, square as int),
{
    let ahead = (from + 8 * color.forward()) as BoardIndex;
    let left = (from + 8 * color.forward() - 1) as BoardIndex;
    let right = (from + 8 * color.forward() + 1) as BoardIndex;
    let leap = (from + 16 * color.forward()) as BoardIndex;
    let none = Seq::<BoardIndex>::empty();
    let nearby = pawn_nearby(board, en_passant, color, from);
    let stepped = if pawn_steps(board, color, from) {
        seq![ahead]
    } else {
        none
    };
    let taken_left = if pawn_captures(board, en_passant, color, from, -1) {
        stepped.push(left)
    } else {
        stepped
    };
    let list = pawn_list(board, en_passant, color, from);
    assert(none.push(ahead) =~= seq![ahead]);
    assert forall|square: BoardIndex| !none.contains(square) by {}
    assert forall|square: BoardIndex|
        #![trigger list.contains(square)]
        list.contains(square) <==> square < 64 && pawn_reaches(
            board,
            en_passant,
            color,
            from,
            square as int,
        ) by {
        lemma_pawn_reaches(board, en_passant, color, from, square as int);
        lemma_push_contains(none, ahead, square);
        lemma_push_contains(stepped, left, square);
        lemma_push_contains(taken_left, right, square);
        lemma_push_contains(nearby, leap, square);
    }
    assert(taken_left.no_duplicates()) by {
        lemma_push_contains(none, ahead, left);
        lemma_push_distinct(stepped, left);
    }
    assert(nearby.no_duplicates()) by {
        lemma_push_contains(none, ahead, right);
        lemma_push_contains(stepped, left, right);
        lemma_push_distinct(taken_left, right);
    }
    assert(list.no_duplicates()) by {
        lemma_push_contains(none, ahead, leap);
        lemma_push_contains(stepped, left, leap);
        lemma_push_contains(taken_left, right, leap);
        lemma_push_distinct(nearby, leap);
    }
}

/// Whether a pawn of `color` may capture onto `square`: an enemy piece
/// stands there, or it is the en-passant square.
pub fn pawn_takes(
    board: &Board,
    board_data: &AdditionalBoardData,
    color: Color,
    square: BoardIndex,
) -> (takes: bool)
    requires
        square < board@.len(),
    ensures
        takes == (holds_enemy(board@, color, square as int) || board_data.en_passant_square
            == Some(square)),
{
    let enemy = match board.piece_at(square) {
        Some(piece) => piece.color != color,
        None => false,
    };
    let passing = match board_data.en_passant_square {
        Some(en_passant_square) => en_passant_square == square,
        None => false,
    };
    enemy || passing
}

/// The squares that a pawn of `color` on `from` may move to.
pub fn pawn_squares(
    board: &Board,
    board_data: &AdditionalBoardData,
    color: Color,
    from: BoardIndex,
) -> (found: Vec<BoardIndex>)
    requires
        board@.len() == 64,
        from < 64,
    ensures
        found@ == pawn_list(board@, board_data.en_passant_square, color, from as int),
        found@.no_duplicates(),
        forall|square: BoardIndex|
            #![trigger found@.contains(square)]
            found@.contains(square) <==> square < 64 && pawn_reaches(
                board@,
                board_data.en_passant_square,
                color,
                from as int,
                square as int,
            ),
{
    let mut found: Vec<BoardIndex> = Vec::new();
    let xy_index = from.to_xy();
    let mut may_push_1_square = false;
    let color_modifier: i32 = if color == Color::White {
        -1
    } else {
        1
    };
    let ahead: i32 = xy_index.1 as i32 + color_modifier;
    let ghost one_ahead = from + 8 * color.forward();
    let ghost steps = pawn_steps(board@, color, from as int);
    let ghost takes_left = pawn_captures(
        board@,
        board_data.en_passant_square,
        color,
        from as int,
        -1,
    );
    let ghost takes_right = pawn_captures(
        board@,
        board_data.en_passant_square,
        color,
        from as int,
        1,
    );
    if validate_i32_pos((xy_index.0 as i32, ahead)) {
        let one_ahead_index = (xy_index.0, ahead as u16).to_index();
        if board.piece_at(one_ahead_index).is_none() {
            may_push_1_square = true;
            found.push(one_ahead_index);
        }
        let ghost pushed = found@;
        assert(pushed =~= if steps {
            seq![one_ahead as BoardIndex]
        } else {
            Seq::empty()
        });
        if xy_index.0 > 0 {
            let take_index = (xy_index.0 - 1, ahead as u16).to_index();
            if pawn_takes(board, board_data, color, take_index) {
                found.push(take_index);
            }
        }
        let ghost taken_left = found@;
        assert(taken_left == if takes_left {
            pushed.push((one_ahead - 1) as BoardIndex)
        } else {
            pushed
        });
        if xy_index.0 < BOARD_SQUARES - 1 {
            let take_index = (xy_index.0 + 1, ahead as u16).to_index();
            if pawn_takes(board, board_data, color, take_index) {
                found.push(take_index);
            }
        }
        assert(found@ == if takes_right {
            taken_left.push((one_ahead + 1) as BoardIndex)
        } else {
            taken_left
        });
    }
    let ghost stepped = found@;
    let may_push_2_squares = if color == Color::White {
        xy_index.1 == BOARD_SQUARES - 2
    } else {
        xy_index.1 == 1
    };
    if may_push_2_squares && may_push_1_square {
        let two_ahead_index = (xy_index.0, (ahead + color_modifier) as u16).to_index();
        if board.piece_at(two_ahead_index).is_none() {
            found.push(two_ahead_index);
        }
    }
    proof {
        assert(stepped == pawn_nearby(
            board@,
            board_data.en_passant_square,
            color,
            from as int,
        ));
        assert(found@ == pawn_list(board@, board_data.en_passant_square, color, from as int));
        lemma_pawn_list(board@, board_data.en_passant_square, color, from as int);
    }
    found
}

} // verus!
