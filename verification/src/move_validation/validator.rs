//! Listing the destinations of a piece and deciding whether a proposed move
//! is allowed.
//!
//! [`generate_piece_map`] lists the destinations that the rules admit, and
//! [`validate_move`] accepts a move exactly when its destination is among
//! them.

use vstd::prelude::*;

use crate::board::{
    file_of, on_board, rank_of, Board, BoardExt, BoardIndex, BoardIndexExt, BoardIndexXYExt, Color,
    Piece, PieceType,
};
use crate::move_validation::movement::Movement;
use crate::move_validation::offsets::{
    king_offset_index, king_offsets, knight_offset_index, knight_offsets, lemma_king_offsets,
    lemma_knight_offsets, lemma_shifted_squares_contains, lemma_shifted_squares_distinct,
    offset_hits, shifted_squares,
};
use crate::move_validation::pawn::pawn_squares;
use crate::move_validation::rules::{
    holds_own, king_step, knight_jump, may_land, move_allowed, pseudo_legal,
};
use crate::move_validation::sequences::lemma_push_contains;
use crate::move_validation::sliding::{
    bishop_steps, lemma_bishop_slides, lemma_bishop_steps, lemma_queen_slides, lemma_queen_steps,
    lemma_rook_slides, lemma_rook_steps, queen_steps, rook_steps, sliding_squares,
};
use crate::state::AdditionalBoardData;
use crate::BOARD_SQUARES;

verus! {

/// Whether `pos` names a square of the board.
pub fn validate_i32_pos(pos: (i32, i32)) -> (valid: bool)
    ensures
        valid == on_board(pos.0 as int, pos.1 as int),
{
    pos.0 >= 0 && pos.1 >= 0 && pos.0 < BOARD_SQUARES as i32 && pos.1 < BOARD_SQUARES as i32
}

/// The squares of the board that lie at the offsets `modifiers` from `index`.
pub fn adjacent_squares_from_modifiers(
    index: BoardIndex,
    modifiers: &[(i32, i32)],
) -> (adjacent: Vec<BoardIndex>)
    ensures
        adjacent@ == shifted_squares(index as int, modifiers@),
{
    let xy_index = index.to_xy();
    let mut adjacent: Vec<BoardIndex> = Vec::new();
    let mut i: usize = 0;
    while i < modifiers.len()
        invariant
            i <= modifiers.len(),
            xy_index.0 == file_of(index as int),
            xy_index.1 == rank_of(index as int),
            adjacent@ == shifted_squares(index as int, modifiers@.take(i as int)),
        decreases modifiers.len() - i,
    {
        let ele = modifiers[i];
        let new_index = (xy_index.0 as i64 + ele.0 as i64, xy_index.1 as i64 + ele.1 as i64);
        proof {
            assert(modifiers@.take(i + 1).drop_last() =~= modifiers@.take(i as int));
            assert(modifiers@.take(i + 1).last() == ele);
        }
        if !(new_index.0 < 0 || new_index.0 >= BOARD_SQUARES as i64 || new_index.1 < 0
            || new_index.1 >= BOARD_SQUARES as i64) {
            adjacent.push((new_index.0 as u16, new_index.1 as u16).to_index());
        }
        i += 1;
    }
    assert(modifiers@.take(i as int) =~= modifiers@);
    adjacent
}

/// The squares next to `index`, in any of the eight directions.
pub fn adjacent_king_squares(index: BoardIndex) -> (adjacent: Vec<BoardIndex>)
    ensures
        adjacent@ == shifted_squares(index as int, king_offsets()),
        forall|square: BoardIndex|
            #![trigger adjacent@.contains(square)]
            adjacent@.contains(square) <==> square < 64 && king_step(index as int, square as int),
        adjacent@.no_duplicates(),
{
    let modifiers = [(-1, 0), (1, 0), (0, -1), (0, 1), (1, 1), (-1, -1), (-1, 1), (1, -1)];
    let adjacent = adjacent_squares_from_modifiers(index, &modifiers);
    proof {
        assert(modifiers@ =~= king_offsets());
        lemma_shifted_squares_distinct(index as int, king_offsets());
        assert forall|square: BoardIndex|
            #![trigger adjacent@.contains(square)]
            adjacent@.contains(square) <==> square < 64 && king_step(
                index as int,
                square as int,
            ) by {
            lemma_shifted_squares_contains(index as int, king_offsets(), square);
            if adjacent@.contains(square) {
                let i = choose|i: int| offset_hits(index as int, king_offsets(), i, square as int);
                lemma_king_offsets(i);
            }
            if square < 64 && king_step(index as int, square as int) {
                let dx = file_of(square as int) - file_of(index as int);
                let dy = rank_of(square as int) - rank_of(index as int);
                let i = king_offset_index(dx, dy);
                assert(offset_hits(index as int, king_offsets(), i, square as int));
            }
        }
    }
    adjacent
}

/// The squares a knight's jump away from `index`.
pub fn adjacent_knight_squares(index: BoardIndex) -> (adjacent: Vec<BoardIndex>)
    ensures
        adjacent@ == shifted_squares(index as int, knight_offsets()),
        forall|square: BoardIndex|
            #![trigger adjacent@.contains(square)]
            adjacent@.contains(square) <==> square < 64 && knight_jump(
                index as int,
                square as int,
            ),
        adjacent@.no_duplicates(),
{
    let modifiers = [(2, 1), (1, 2), (-1, -2), (-2, -1), (-2, 1), (2, -1), (1, -2), (-1, 2)];
    let adjacent = adjacent_squares_from_modifiers(index, &modifiers);
    proof {
        assert(modifiers@ =~= knight_offsets());
        lemma_shifted_squares_distinct(index as int, knight_offsets());
        assert forall|square: BoardIndex|
            #![trigger adjacent@.contains(square)]
            adjacent@.contains(square) <==> square < 64 && knight_jump(
                index as int,
                square as int,
            ) by {
            lemma_shifted_squares_contains(index as int, knight_offsets(), square);
            if adjacent@.contains(square) {
                let i = choose|i: int|
                    offset_hits(index as int, knight_offsets(), i, square as int);
                lemma_knight_offsets(i);
            }
            if square < 64 && knight_jump(index as int, square as int) {
                let dx = file_of(square as int) - file_of(index as int);
                let dy = rank_of(square as int) - rank_of(index as int);
                let i = knight_offset_index(dx, dy);
                assert(offset_hits(index as int, knight_offsets(), i, square as int));
            }
        }
    }
    adjacent
}

/// What remains of a list without repetitions when only the squares are kept
/// on which a piece of `color` may come to rest.
pub proof fn lemma_landing_squares(
    board: Seq<Option<Piece>>,
    color: Color,
    candidates: Seq<BoardIndex>,
)
    requires
        candidates.no_duplicates(),
    ensures
        ({
            let kept = candidates.filter(
                |square: BoardIndex| may_land(board, color, square as int),
            );
            &&& kept.no_duplicates()
            &&& forall|square: BoardIndex|
                #![trigger kept.contains(square)]
                kept.contains(square) <==> candidates.contains(square) && may_land(
                    board,
                    color,
                    square as int,
                )
        }),
    decreases candidates.len(),
{
    let lands = |square: BoardIndex| may_land(board, color, square as int);
    let kept = candidates.filter(lands);
    reveal(Seq::filter);
    if candidates.len() > 0 {
        let shorter = candidates.drop_last();
        let before = shorter.filter(lands);
        lemma_landing_squares(board, color, shorter);
        assert forall|square: BoardIndex|
            #![trigger kept.contains(square)]
            kept.contains(square) <==> candidates.contains(square) && may_land(
                board,
                color,
                square as int,
            ) by {
            lemma_push_contains(before, candidates.last(), square);
            lemma_push_contains(shorter, candidates.last(), square);
            assert(shorter.push(candidates.last()) =~= candidates);
        }
        if lands(candidates.last()) {
            if before.contains(candidates.last()) {
                assert(shorter.contains(candidates.last()));
                let i = choose|i: int| 0 <= i < shorter.len() && shorter[i] == candidates.last();
                assert(candidates[i] == candidates[candidates.len() - 1]);
            }
        }
    }
}

/// The squares among `candidates` on which a piece of `color` may come to
/// rest, in their order.
pub fn landing_squares(
    board: &Board,
    color: Color,
    candidates: &Vec<BoardIndex>,
) -> (kept: Vec<BoardIndex>)
    requires
        forall|i: int| 0 <= i < candidates@.len() ==> (#[trigger] candidates@[i]) < board@.len(),
    ensures
        kept@ == candidates@.filter(|square: BoardIndex| may_land(board@, color, square as int)),
{
    let mut kept: Vec<BoardIndex> = Vec::new();
    let ghost lands = |square: BoardIndex| may_land(board@, color, square as int);
    let mut i: usize = 0;
    while i < candidates.len()
        invariant
            i <= candidates.len(),
            lands == |square: BoardIndex| may_land(board@, color, square as int),
            forall|i: int|
                0 <= i < candidates@.len() ==> (#[trigger] candidates@[i]) < board@.len(),
            kept@ == candidates@.take(i as int).filter(lands),
        decreases candidates.len() - i,
    {
        let ele = candidates[i];
        let lands_here = match board.piece_at(ele) {
            None => true,
            Some(piece) => piece.color != color,
        };
        proof {
            assert(candidates@.take(i + 1).drop_last() =~= candidates@.take(i as int));
            reveal(Seq::filter);
        }
        if lands_here {
            kept.push(ele);
        }
        i += 1;
    }
    assert(candidates@.take(i as int) =~= candidates@);
    kept
}

/// Whether `square` is in `squares`.
pub fn contains_square(squares: &Vec<BoardIndex>, square: BoardIndex) -> (found: bool)
    ensures
        found == squares@.contains(square),
{
    let mut i: usize = 0;
    while i < squares.len()
        invariant
            i <= squares.len(),
            forall|j: int| 0 <= j < i ==> squares@[j] != square,
        decreases squares.len() - i,
    {
        if squares[i] == square {
            return true;
        }
        i += 1;
    }
    false
}

/// Creates a list of all possible destinations of the piece on
/// `piece_index`. The list is empty if the square is empty or its piece does
/// not belong to the side `turn`.
pub fn generate_piece_map(
    board: &Board,
    board_data: &AdditionalBoardData,
    turn: Color,
    piece_index: BoardIndex,
) -> (piece_map: Vec<BoardIndex>)
    requires
        board@.len() == 64,
        piece_index < 64,
    ensures
        piece_map@.no_duplicates(),
        forall|square: BoardIndex|
            #![trigger piece_map@.contains(square)]
            piece_map@.contains(square) <==> pseudo_legal(
                board@,
                board_data.en_passant_square,
                turn,
                piece_index as int,
                square as int,
            ),
        !holds_own(board@, turn, piece_index as int) ==> piece_map@.len() == 0,
{
    let piece = board.piece_at(piece_index);
    if piece.is_none() {
        return Vec::new();
    }
    let piece = piece.unwrap();
    if piece.color != turn {
        return Vec::new();
    }
    match piece.piece_type {
        PieceType::Pawn => pawn_squares(board, board_data, piece.color, piece_index),
        PieceType::King => {
            let adjacent_squares = adjacent_king_squares(piece_index);
            proof {
                assert forall|i: int| 0 <= i < adjacent_squares@.len() implies (
                #[trigger] adjacent_squares@[i]) < 64 by {
                    assert(adjacent_squares@.contains(adjacent_squares@[i]));
                }
            }
            let piece_map = landing_squares(board, piece.color, &adjacent_squares);
            proof {
                lemma_landing_squares(board@, piece.color, adjacent_squares@);
            }
            piece_map
        },
        PieceType::Knight => {
            let adjacent_squares = adjacent_knight_squares(piece_index);
            proof {
                assert forall|i: int| 0 <= i < adjacent_squares@.len() implies (
                #[trigger] adjacent_squares@[i]) < 64 by {
                    assert(adjacent_squares@.contains(adjacent_squares@[i]));
                }
            }
            let piece_map = landing_squares(board, piece.color, &adjacent_squares);
            proof {
                lemma_landing_squares(board@, piece.color, adjacent_squares@);
            }
            piece_map
        },
        PieceType::Rook => {
            let modifiers = [(1, 0), (-1, 0), (0, 1), (0, -1)];
            proof {
                assert(modifiers@ =~= rook_steps());
                lemma_rook_steps();
            }
            let piece_map = sliding_squares(board, piece.color, piece_index, &modifiers);
            proof {
                assert forall|square: BoardIndex|
                    #![trigger piece_map@.contains(square)]
                    piece_map@.contains(square) <==> pseudo_legal(
                        board@,
                        board_data.en_passant_square,
                        turn,
                        piece_index as int,
                        square as int,
                    ) by {
                    lemma_rook_slides(board@, piece.color, piece_index as int, square as int);
                }
            }
            piece_map
        },
        PieceType::Bishop => {
            let modifiers = [(1, 1), (-1, -1), (-1, 1), (1, -1)];
            proof {
                assert(modifiers@ =~= bishop_steps());
                lemma_bishop_steps();
            }
            let piece_map = sliding_squares(board, piece.color, piece_index, &modifiers);
            proof {
                assert forall|square: BoardIndex|
                    #![trigger piece_map@.contains(square)]
                    piece_map@.contains(square) <==> pseudo_legal(
                        board@,
                        board_data.en_passant_square,
                        turn,
                        piece_index as int,
                        square as int,
                    ) by {
                    lemma_bishop_slides(board@, piece.color, piece_index as int, square as int);
                }
            }
            piece_map
        },
        PieceType::Queen => {
            let modifiers = [
                (1, 0),
                (-1, 0),
                (0, 1),
                (0, -1),
                (1, 1),
                (-1, -1),
                (-1, 1),
                (1, -1),
            ];
            proof {
                assert(modifiers@ =~= queen_steps());
                lemma_queen_steps();
            }
            let piece_map = sliding_squares(board, piece.color, piece_index, &modifiers);
            proof {
                assert forall|square: BoardIndex|
                    #![trigger piece_map@.contains(square)]
                    piece_map@.contains(square) <==> pseudo_legal(
                        board@,
                        board_data.en_passant_square,
                        turn,
                        piece_index as int,
                        square as int,
                    ) by {
                    lemma_queen_slides(board@, piece.color, piece_index as int, square as int);
                }
            }
            piece_map
        },
    }
}

/// Whether the move that `m` describes is allowed: the piece must belong to
/// the side whose turn it is, and the destination must be among the squares
/// that [`generate_piece_map`] lists for the start square.
pub fn validate_move(m: Movement) -> (valid: bool)
    requires
        m.movement_info.board@.len() == 64,
        m.start < 64,
        m.destination < 64,
    ensures
        valid == move_allowed(m@),
{
    if m.movement_info.piece_color != m.movement_info.turn {
        false
    } else {
        let piece_map = generate_piece_map(
            &m.movement_info.board,
            &m.movement_info.board_data,
            m.movement_info.turn,
            m.start,
        );
        contains_square(&piece_map, m.destination)
    }
}

} // verus!
