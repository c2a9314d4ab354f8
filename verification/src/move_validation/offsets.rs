//! The squares at fixed offsets from a square: the steps of a king and the
//! jumps of a knight.

use vstd::prelude::*;

use crate::board::{file_of, on_board, rank_of, square_at, BoardIndex};
use crate::move_validation::sequences::lemma_push_contains;

verus! {

/// The squares of the board that lie at the given offsets from `from`, in
/// the order of the offsets.
pub open spec fn shifted_squares(from: int, offsets: Seq<(i32, i32)>) -> Seq<BoardIndex>
    decreases offsets.len(),
{
    if offsets.len() == 0 {
        Seq::empty()
    } else {
        let before = shifted_squares(from, offsets.drop_last());
        let file = file_of(from) + offsets.last().0;
        let rank = rank_of(from) + offsets.last().1;
        if on_board(file, rank) {
            before.push(square_at(file, rank) as BoardIndex)
        } else {
            before
        }
    }
}

/// Whether the offset `offsets[i]` leads from `from` to `square` without
/// leaving the board.
pub open spec fn offset_hits(from: int, offsets: Seq<(i32, i32)>, i: int, square: int) -> bool {
    &&& 0 <= i < offsets.len()
    &&& on_board(file_of(from) + offsets[i].0, rank_of(from) + offsets[i].1)
    &&& square == square_at(file_of(from) + offsets[i].0, rank_of(from) + offsets[i].1)
}

/// A square is among the shifted squares exactly when one of the offsets
/// leads to it without leaving the board.
pub proof fn lemma_shifted_squares_contains(from: int, offsets: Seq<(i32, i32)>, square: BoardIndex)
    ensures
        shifted_squares(from, offsets).contains(square) <==> exists|i: int|
            offset_hits(from, offsets, i, square as int),
    decreases offsets.len(),
{
    if offsets.len() > 0 {
        let shorter = offsets.drop_last();
        let last = offsets.len() - 1;
        let before = shifted_squares(from, shorter);
        let file = file_of(from) + offsets.last().0;
        let rank = rank_of(from) + offsets.last().1;
        lemma_shifted_squares_contains(from, shorter, square);
        lemma_push_contains(before, square_at(file, rank) as BoardIndex, square);
        if shifted_squares(from, offsets).contains(square) {
            if before.contains(square) {
                let i = choose|i: int| offset_hits(from, shorter, i, square as int);
                assert(offset_hits(from, offsets, i, square as int));
            } else {
                assert(offset_hits(from, offsets, last, square as int));
            }
        }
        if exists|i: int| offset_hits(from, offsets, i, square as int) {
            let i = choose|i: int| offset_hits(from, offsets, i, square as int);
            if i < last {
                assert(offset_hits(from, shorter, i, square as int));
            }
        }
    }
}

/// Offsets that differ lead to squares that differ.
pub proof fn lemma_shifted_squares_distinct(from: int, offsets: Seq<(i32, i32)>)
    requires
        offsets.no_duplicates(),
    ensures
        shifted_squares(from, offsets).no_duplicates(),
    decreases offsets.len(),
{
    if offsets.len() > 0 {
        let shorter = offsets.drop_last();
        let last = offsets.len() - 1;
        let before = shifted_squares(from, shorter);
        let file = file_of(from) + offsets.last().0;
        let rank = rank_of(from) + offsets.last().1;
        lemma_shifted_squares_distinct(from, shorter);
        if on_board(file, rank) {
            let square = square_at(file, rank) as BoardIndex;
            lemma_shifted_squares_contains(from, shorter, square);
            if before.contains(square) {
                let i = choose|i: int| offset_hits(from, shorter, i, square as int);
                assert(offsets[i] == offsets[last]);
            }
        }
    }
}

/// The steps of a king.
pub open spec fn king_offsets() -> Seq<(i32, i32)> {
    seq![
        (-1i32, 0i32),
        (1i32, 0i32),
        (0i32, -1i32),
        (0i32, 1i32),
        (1i32, 1i32),
        (-1i32, -1i32),
        (-1i32, 1i32),
        (1i32, -1i32),
    ]
}

/// Where in [`king_offsets`] the step `(dx, dy)` stands.
pub open spec fn king_offset_index(dx: int, dy: int) -> int {
    if dx == -1 && dy == 0 {
        0
    } else if dx == 1 && dy == 0 {
        1
    } else if dx == 0 && dy == -1 {
        2
    } else if dx == 0 && dy == 1 {
        3
    } else if dx == 1 && dy == 1 {
        4
    } else if dx == -1 && dy == -1 {
        5
    } else if dx == -1 && dy == 1 {
        6
    } else {
        7
    }
}

/// Every entry of [`king_offsets`] is a step to a neighbouring square.
pub proof fn lemma_king_offsets(i: int)
    requires
        0 <= i < king_offsets().len(),
    ensures
        -1 <= king_offsets()[i].0 <= 1,
        -1 <= king_offsets()[i].1 <= 1,
        king_offsets()[i].0 != 0 || king_offsets()[i].1 != 0,
        king_offset_index(king_offsets()[i].0 as int, king_offsets()[i].1 as int) == i,
{
    let offsets = king_offsets();
    assert(offsets[0] == (-1i32, 0i32));
    assert(offsets[1] == (1i32, 0i32));
    assert(offsets[2] == (0i32, -1i32));
    assert(offsets[3] == (0i32, 1i32));
    assert(offsets[4] == (1i32, 1i32));
    assert(offsets[5] == (-1i32, -1i32));
    assert(offsets[6] == (-1i32, 1i32));
    assert(offsets[7] == (1i32, -1i32));
}

/// The jumps of a knight.
pub open spec fn knight_offsets() -> Seq<(i32, i32)> {
    seq![
        (2i32, 1i32),
        (1i32, 2i32),
        (-1i32, -2i32),
        (-2i32, -1i32),
        (-2i32, 1i32),
        (2i32, -1i32),
        (1i32, -2i32),
        (-1i32, 2i32),
    ]
}

/// Where in [`knight_offsets`] the jump `(dx, dy)` stands.
pub open spec fn knight_offset_index(dx: int, dy: int) -> int {
    if dx == 2 && dy == 1 {
        0
    } else if dx == 1 && dy == 2 {
        1
    } else if dx == -1 && dy == -2 {
        2
    } else if dx == -2 && dy == -1 {
        3
    } else if dx == -2 && dy == 1 {
        4
    } else if dx == 2 && dy == -1 {
        5
    } else if dx == 1 && dy == -2 {
        6
    } else {
        7
    }
}

/// Every entry of [`knight_offsets`] is a knight's jump.
pub proof fn lemma_knight_offsets(i: int)
    requires
        0 <= i < knight_offsets().len(),
    ensures
        ({
            let (dx, dy) = knight_offsets()[i];
            &&& (dx == 1 || dx == -1) && (dy == 2 || dy == -2) || (dx == 2 || dx == -2) && (dy == 1
                || dy == -1)
            &&& knight_offset_index(dx as int, dy as int) == i
        }),
{
    let offsets = knight_offsets();
    assert(offsets[0] == (2i32, 1i32));
    assert(offsets[1] == (1i32, 2i32));
    assert(offsets[2] == (-1i32, -2i32));
    assert(offsets[3] == (-2i32, -1i32));
    assert(offsets[4] == (-2i32, 1i32));
    assert(offsets[5] == (2i32, -1i32));
    assert(offsets[6] == (1i32, -2i32));
    assert(offsets[7] == (-1i32, 2i32));
}

} // verus!
