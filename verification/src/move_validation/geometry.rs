//! Lines on the board: how far apart two squares are, which squares lie on a
//! file, a rank or a diagonal through a square, and which lie between two
//! others.

use vstd::prelude::*;

use crate::board::{file_of, on_board, rank_of, square_at};

verus! {

/// How far apart two files, or two ranks, are.
pub open spec fn distance(a: int, b: int) -> int {
    if a < b {
        b - a
    } else {
        a - b
    }
}

/// The step along one axis that leads from `from` towards `to`.
pub open spec fn toward(from: int, to: int) -> int {
    if to < from {
        -1
    } else if to > from {
        1
    } else {
        0
    }
}

/// The step in files and ranks that leads from `from` towards `to`.
pub open spec fn line_step(from: int, to: int) -> (int, int) {
    (toward(file_of(from), file_of(to)), toward(rank_of(from), rank_of(to)))
}

/// `(dx, dy)` is a step to a neighbouring square.
pub open spec fn unit_step(dx: int, dy: int) -> bool {
    -1 <= dx <= 1 && -1 <= dy <= 1 && (dx != 0 || dy != 0)
}

/// Number of king steps between two squares.
pub open spec fn span(from: int, to: int) -> int {
    let files = distance(file_of(from), file_of(to));
    let ranks = distance(rank_of(from), rank_of(to));
    if files < ranks {
        ranks
    } else {
        files
    }
}

/// Two different squares on one file or on one rank.
pub open spec fn straight(from: int, to: int) -> bool {
    from != to && (file_of(from) == file_of(to) || rank_of(from) == rank_of(to))
}

/// Two different squares on one diagonal.
pub open spec fn diagonal(from: int, to: int) -> bool {
    from != to && distance(file_of(from), file_of(to)) == distance(rank_of(from), rank_of(to))
}

/// `mid` lies on the line from `from` to `to`, and is neither of the two.
pub open spec fn strictly_between(from: int, mid: int, to: int) -> bool {
    &&& straight(from, mid) || diagonal(from, mid)
    &&& line_step(from, mid) == line_step(from, to)
    &&& span(from, mid) < span(from, to)
}

/// `to` lies on the ray that leaves `from` in the direction `(dx, dy)`.
pub open spec fn on_ray(from: int, dx: int, dy: int, to: int) -> bool {
    &&& straight(from, to) || diagonal(from, to)
    &&& line_step(from, to) == (dx, dy)
}

/// The point `(file, rank)`, which need not lie on the board, is on the ray
/// that leaves `from` in the direction `(dx, dy)`.
pub open spec fn ray_point(from: int, dx: int, dy: int, file: int, rank: int) -> bool {
    &&& toward(file_of(from), file) == dx
    &&& toward(rank_of(from), rank) == dy
    &&& dx != 0 && dy != 0 ==> distance(file_of(from), file) == distance(rank_of(from), rank)
}

/// Number of king steps from `from` to the point `(file, rank)`, which need
/// not lie on the board.
pub open spec fn progress(from: int, file: int, rank: int) -> int {
    let files = distance(file_of(from), file);
    let ranks = distance(rank_of(from), rank);
    if files < ranks {
        ranks
    } else {
        files
    }
}

/// A point beyond the edge of the board lies farther along a ray than
/// every square of the ray.
pub proof fn lemma_edge_ends_ray(from: int, dx: int, dy: int, file: int, rank: int, square: int)
    requires
        0 <= from < 64,
        0 <= square < 64,
        ray_point(from, dx, dy, file, rank),
        !on_board(file, rank),
        on_ray(from, dx, dy, square),
    ensures
        span(from, square) < progress(from, file, rank),
{
}

/// A point of a ray that lies on the board is a square of the ray, as far
/// from the start as the point is, and the next point of the ray is one
/// step farther.
pub proof fn lemma_ray_point(from: int, dx: int, dy: int, file: int, rank: int)
    requires
        0 <= from < 64,
        unit_step(dx, dy),
        ray_point(from, dx, dy, file, rank),
        on_board(file, rank),
    ensures
        0 <= square_at(file, rank) < 64,
        on_ray(from, dx, dy, square_at(file, rank)),
        span(from, square_at(file, rank)) == progress(from, file, rank),
        1 <= progress(from, file, rank) <= 7,
        ray_point(from, dx, dy, file + dx, rank + dy),
        progress(from, file + dx, rank + dy) == progress(from, file, rank) + 1,
        forall|other: int|
            0 <= other < 64 && on_ray(from, dx, dy, other) && span(from, other) == progress(
                from,
                file,
                rank,
            ) ==> other == square_at(file, rank),
        forall|other: int|
            0 <= other < 64 && on_ray(from, dx, dy, other) && span(from, other) > progress(
                from,
                file,
                rank,
            ) ==> strictly_between(from, square_at(file, rank), other),
        forall|mid: int|
            0 <= mid < 64 && strictly_between(from, mid, square_at(file, rank)) ==> on_ray(
                from,
                dx,
                dy,
                mid,
            ) && span(from, mid) < progress(from, file, rank),
{
}

} // verus!
