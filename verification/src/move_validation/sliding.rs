//! Moves along a line: the walk from a square in one direction, up to the
//! first piece or the edge of the board.

use vstd::prelude::*;

use crate::board::{
    on_board, square_at, Board, BoardExt, BoardIndex, BoardIndexExt, BoardIndexXYExt, Color, Piece,
};
use crate::move_validation::geometry::{
    diagonal, lemma_edge_ends_ray, lemma_ray_point, line_step, on_ray, progress, ray_point, span,
    straight, strictly_between, unit_step,
};
use crate::move_validation::rules::{may_land, path_clear};
use crate::move_validation::sequences::{lemma_push_contains, lemma_push_distinct};
use crate::move_validation::validator::validate_i32_pos;

verus! {

/// A sliding piece of `color` on `from` reaches `to` along the ray that
/// leaves `from` in the direction `(dx, dy)`.
pub open spec fn slides_to(
    board: Seq<Option<Piece>>,
    color: Color,
    from: int,
    dx: int,
    dy: int,
    to: int,
) -> bool {
    &&& 0 <= to < 64
    &&& on_ray(from, dx, dy, to)
    &&& path_clear(board, from, to)
    &&& may_land(board, color, to)
}

/// `steps[k]` is a direction along which a sliding piece of `color` on `from`
/// reaches `to`.
pub open spec fn slides_along(
    board: Seq<Option<Piece>>,
    color: Color,
    from: int,
    steps: Seq<(i32, i32)>,
    k: int,
    to: int,
) -> bool {
    &&& 0 <= k < steps.len()
    &&& slides_to(board, color, from, steps[k].0 as int, steps[k].1 as int, to)
}

/// Each entry of `steps` leads to a neighbouring square.
pub open spec fn unit_steps(steps: Seq<(i32, i32)>) -> bool {
    forall|k: int|
        0 <= k < steps.len() ==> unit_step((#[trigger] steps[k]).0 as int, steps[k].1 as int)
}

/// `steps[k]` is the step `(dx, dy)`.
pub open spec fn is_step(steps: Seq<(i32, i32)>, k: int, dx: int, dy: int) -> bool {
    0 <= k < steps.len() && steps[k].0 == dx && steps[k].1 == dy
}

/// The step `(dx, dy)` is one of `steps`.
pub open spec fn lists_step(steps: Seq<(i32, i32)>, dx: int, dy: int) -> bool {
    exists|k: int| is_step(steps, k, dx, dy)
}

/// The directions in which a rook moves.
pub open spec fn rook_steps() -> Seq<(i32, i32)> {
    seq![(1i32, 0i32), (-1i32, 0i32), (0i32, 1i32), (0i32, -1i32)]
}

/// The directions in which a bishop moves.
pub open spec fn bishop_steps() -> Seq<(i32, i32)> {
    seq![(1i32, 1i32), (-1i32, -1i32), (-1i32, 1i32), (1i32, -1i32)]
}

/// The directions in which a queen moves.
pub open spec fn queen_steps() -> Seq<(i32, i32)> {
    rook_steps() + bishop_steps()
}

/// [`rook_steps`] holds the four steps along a file or a rank, each once.
pub proof fn lemma_rook_steps()
    ensures
        unit_steps(rook_steps()),
        rook_steps().no_duplicates(),
        forall|k: int|
            0 <= k < rook_steps().len() ==> ((#[trigger] rook_steps()[k]).0 == 0) != (
            rook_steps()[k].1 == 0),
        forall|dx: int, dy: int|
            -1 <= dx <= 1 && -1 <= dy <= 1 && (dx == 0) != (dy == 0) ==> #[trigger] lists_step(
                rook_steps(),
                dx,
                dy,
            ),
{
    let steps = rook_steps();
    assert(steps[0] == (1i32, 0i32));
    assert(steps[1] == (-1i32, 0i32));
    assert(steps[2] == (0i32, 1i32));
    assert(steps[3] == (0i32, -1i32));
    assert forall|dx: int, dy: int|
        -1 <= dx <= 1 && -1 <= dy <= 1 && (dx == 0) != (dy == 0) implies #[trigger] lists_step(
        steps,
        dx,
        dy,
    ) by {
        let k: int = if dx == 1 {
            0
        } else if dx == -1 {
            1
        } else if dy == 1 {
            2
        } else {
            3
        };
        assert(is_step(steps, k, dx, dy));
    }
}

/// [`bishop_steps`] holds the four diagonal steps, each once.
pub proof fn lemma_bishop_steps()
    ensures
        unit_steps(bishop_steps()),
        bishop_steps().no_duplicates(),
        forall|k: int|
            0 <= k < bishop_steps().len() ==> (#[trigger] bishop_steps()[k]).0 != 0
                && bishop_steps()[k].1 != 0,
        forall|dx: int, dy: int|
            -1 <= dx <= 1 && -1 <= dy <= 1 && dx != 0 && dy != 0 ==> #[trigger] lists_step(
                bishop_steps(),
                dx,
                dy,
            ),
{
    let steps = bishop_steps();
    assert(steps[0] == (1i32, 1i32));
    assert(steps[1] == (-1i32, -1i32));
    assert(steps[2] == (-1i32, 1i32));
    assert(steps[3] == (1i32, -1i32));
    assert forall|dx: int, dy: int|
        -1 <= dx <= 1 && -1 <= dy <= 1 && dx != 0 && dy != 0 implies #[trigger] lists_step(
        steps,
        dx,
        dy,
    ) by {
        let k: int = if dx == 1 && dy == 1 {
            0
        } else if dx == -1 && dy == -1 {
            1
        } else if dx == -1 {
            2
        } else {
            3
        };
        assert(is_step(steps, k, dx, dy));
    }
}

/// [`queen_steps`] holds the eight steps to a neighbouring square, each once.
pub proof fn lemma_queen_steps()
    ensures
        unit_steps(queen_steps()),
        queen_steps().no_duplicates(),
        forall|dx: int, dy: int|
            -1 <= dx <= 1 && -1 <= dy <= 1 && (dx != 0 || dy != 0) ==> #[trigger] lists_step(
                queen_steps(),
                dx,
                dy,
            ),
{
    let steps = queen_steps();
    lemma_rook_steps();
    lemma_bishop_steps();
    assert forall|k: int| 0 <= k < steps.len() implies unit_step(
        (#[trigger] steps[k]).0 as int,
        steps[k].1 as int,
    ) by {
        if k < 4 {
            assert(steps[k] == rook_steps()[k]);
        } else {
            assert(steps[k] == bishop_steps()[k - 4]);
        }
    }
    assert forall|i: int, j: int|
        0 <= i < steps.len() && 0 <= j < steps.len() && i != j implies steps[i] != steps[j] by {
        if i < 4 {
            assert(steps[i] == rook_steps()[i]);
        } else {
            assert(steps[i] == bishop_steps()[i - 4]);
        }
        if j < 4 {
            assert(steps[j] == rook_steps()[j]);
        } else {
            assert(steps[j] == bishop_steps()[j - 4]);
        }
    }
    assert forall|dx: int, dy: int|
        -1 <= dx <= 1 && -1 <= dy <= 1 && (dx != 0 || dy != 0) implies #[trigger] lists_step(
        steps,
        dx,
        dy,
    ) by {
        if (dx == 0) != (dy == 0) {
            assert(lists_step(rook_steps(), dx, dy));
            let k = choose|k: int| is_step(rook_steps(), k, dx, dy);
            assert(is_step(steps, k, dx, dy));
        } else {
            assert(lists_step(bishop_steps(), dx, dy));
            let k = choose|k: int| is_step(bishop_steps(), k, dx, dy);
            assert(steps[k + 4] == bishop_steps()[k]);
            assert(is_step(steps, k + 4, dx, dy));
        }
    }
}

/// Along the directions of a rook a piece reaches the squares that lie on
/// its file or rank with nothing in between.
pub proof fn lemma_rook_slides(board: Seq<Option<Piece>>, color: Color, from: int, to: int)
    requires
        0 <= from < 64,
    ensures
        (exists|k: int| slides_along(board, color, from, rook_steps(), k, to)) <==> {
            &&& 0 <= to < 64
            &&& straight(from, to)
            &&& path_clear(board, from, to)
            &&& may_land(board, color, to)
        },
{
    lemma_rook_steps();
    if 0 <= to < 64 && straight(from, to) && path_clear(board, from, to) && may_land(
        board,
        color,
        to,
    ) {
        let (dx, dy) = line_step(from, to);
        assert(lists_step(rook_steps(), dx, dy));
        let k = choose|k: int| is_step(rook_steps(), k, dx, dy);
        assert(slides_along(board, color, from, rook_steps(), k, to));
    }
}

/// Along the directions of a bishop a piece reaches the squares that lie on
/// its diagonals with nothing in between.
pub proof fn lemma_bishop_slides(board: Seq<Option<Piece>>, color: Color, from: int, to: int)
    requires
        0 <= from < 64,
    ensures
        (exists|k: int| slides_along(board, color, from, bishop_steps(), k, to)) <==> {
            &&& 0 <= to < 64
            &&& diagonal(from, to)
            &&& path_clear(board, from, to)
            &&& may_land(board, color, to)
        },
{
    lemma_bishop_steps();
    if 0 <= to < 64 && diagonal(from, to) && path_clear(board, from, to) && may_land(
        board,
        color,
        to,
    ) {
        let (dx, dy) = line_step(from, to);
        assert(lists_step(bishop_steps(), dx, dy));
        let k = choose|k: int| is_step(bishop_steps(), k, dx, dy);
        assert(slides_along(board, color, from, bishop_steps(), k, to));
    }
}

/// Along the directions of a queen a piece reaches the squares that lie on
/// its file, rank or diagonals with nothing in between.
pub proof fn lemma_queen_slides(board: Seq<Option<Piece>>, color: Color, from: int, to: int)
    requires
        0 <= from < 64,
    ensures
        (exists|k: int| slides_along(board, color, from, queen_steps(), k, to)) <==> {
            &&& 0 <= to < 64
            &&& straight(from, to) || diagonal(from, to)
            &&& path_clear(board, from, to)
            &&& may_land(board, color, to)
        },
{
    lemma_queen_steps();
    if 0 <= to < 64 && (straight(from, to) || diagonal(from, to)) && path_clear(board, from, to)
        && may_land(board, color, to) {
        let (dx, dy) = line_step(from, to);
        assert(lists_step(queen_steps(), dx, dy));
        let k = choose|k: int| is_step(queen_steps(), k, dx, dy);
        assert(slides_along(board, color, from, queen_steps(), k, to));
    }
}

/// No entry of `list` lies on the ray that leaves `from` in the direction
/// `(dx, dy)`.
pub open spec fn off_ray(list: Seq<BoardIndex>, from: int, dx: int, dy: int) -> bool {
    forall|i: int| 0 <= i < list.len() ==> !on_ray(from, dx, dy, #[trigger] list[i] as int)
}

/// A walk along the ray that leaves `from` in the direction `(dx, dy)` has
/// come `reached` steps far: every square of the ray that is nearer is empty
/// and has been added to `before`, which gave `list`.
pub open spec fn ray_swept(
    board: Seq<Option<Piece>>,
    before: Seq<BoardIndex>,
    list: Seq<BoardIndex>,
    from: int,
    dx: int,
    dy: int,
    reached: int,
) -> bool {
    &&& before.len() <= list.len()
    &&& forall|i: int| 0 <= i < before.len() ==> #[trigger] list[i] == before[i]
    &&& forall|i: int|
        before.len() <= i < list.len() ==> (#[trigger] list[i]) < 64 && on_ray(
            from,
            dx,
            dy,
            list[i] as int,
        ) && span(from, list[i] as int) < reached
    &&& forall|mid: int|
        0 <= mid < 64 && on_ray(from, dx, dy, mid) && span(from, mid) < reached ==> (
        #[trigger] board[mid]) is None && list.contains(mid as BoardIndex)
}

/// A walk along the ray that leaves `from` in the direction `(dx, dy)` is
/// over: `list` holds what `before` held and the squares that a sliding
/// piece of `color` reaches along the ray.
pub open spec fn ray_walked(
    board: Seq<Option<Piece>>,
    color: Color,
    before: Seq<BoardIndex>,
    list: Seq<BoardIndex>,
    from: int,
    dx: int,
    dy: int,
) -> bool {
    &&& before.is_prefix_of(list)
    &&& forall|square: BoardIndex|
        #![trigger list.contains(square)]
        list.contains(square) <==> before.contains(square) || slides_to(
            board,
            color,
            from,
            dx,
            dy,
            square as int,
        )
}

/// When a walk along a ray begins, nothing has been added to the list and
/// no square of the ray is nearer than the first.
pub proof fn lemma_ray_start(
    board: Seq<Option<Piece>>,
    before: Seq<BoardIndex>,
    from: int,
    dx: int,
    dy: int,
)
    requires
        0 <= from < 64,
    ensures
        ray_swept(board, before, before, from, dx, dy, 1),
{
}

/// What is known of a list from whether each of its entries stood in it
/// before the walk or was added by it.
pub proof fn lemma_ray_entries(
    board: Seq<Option<Piece>>,
    before: Seq<BoardIndex>,
    list: Seq<BoardIndex>,
    from: int,
    dx: int,
    dy: int,
    reached: int,
    square: BoardIndex,
)
    requires
        ray_swept(board, before, list, from, dx, dy, reached),
    ensures
        before.contains(square) ==> list.contains(square),
        list.contains(square) ==> before.contains(square) || (square < 64 && on_ray(
            from,
            dx,
            dy,
            square as int,
        ) && span(from, square as int) < reached),
{
    if list.contains(square) {
        let i = choose|i: int| 0 <= i < list.len() && list[i] == square;
        if i < before.len() {
            assert(before[i] == square);
        }
    }
    if before.contains(square) {
        let i = choose|i: int| 0 <= i < before.len() && before[i] == square;
        assert(list[i] == square);
    }
}

/// A square of the ray that lies nearer than the walk has come is reached
/// with nothing in between.
pub proof fn lemma_swept_path_clear(
    board: Seq<Option<Piece>>,
    before: Seq<BoardIndex>,
    list: Seq<BoardIndex>,
    from: int,
    dx: int,
    dy: int,
    reached: int,
    square: int,
)
    requires
        ray_swept(board, before, list, from, dx, dy, reached),
        0 <= square < 64,
        on_ray(from, dx, dy, square),
        span(from, square) <= reached,
    ensures
        path_clear(board, from, square),
{
    assert forall|mid: int| 0 <= mid < 64 && strictly_between(from, mid, square) implies (
    #[trigger] board[mid]) is None by {
        assert(on_ray(from, dx, dy, mid));
    }
}

/// A walk that has left the board has found every square that the piece
/// reaches along the ray.
pub proof fn lemma_ray_leaves_board(
    board: Seq<Option<Piece>>,
    color: Color,
    before: Seq<BoardIndex>,
    list: Seq<BoardIndex>,
    from: int,
    dx: int,
    dy: int,
    file: int,
    rank: int,
)
    requires
        0 <= from < 64,
        board.len() == 64,
        ray_point(from, dx, dy, file, rank),
        !on_board(file, rank),
        ray_swept(board, before, list, from, dx, dy, progress(from, file, rank)),
    ensures
        ray_walked(board, color, before, list, from, dx, dy),
{
    let reached = progress(from, file, rank);
    assert(before =~= list.subrange(0, before.len() as int));
    assert forall|square: BoardIndex|
        #![trigger list.contains(square)]
        list.contains(square) <==> before.contains(square) || slides_to(
            board,
            color,
            from,
            dx,
            dy,
            square as int,
        ) by {
        lemma_ray_entries(board, before, list, from, dx, dy, reached, square);
        if on_ray(from, dx, dy, square as int) && square < 64 {
            lemma_edge_ends_ray(from, dx, dy, file, rank, square as int);
            assert(board[square as int] is None);
            lemma_swept_path_clear(board, before, list, from, dx, dy, reached, square as int);
        }
    }
}

/// What a walk along a ray does at a point on the board. On an empty square
/// it adds the square and goes on. On a piece it ends, having added the
/// square if the piece is an enemy, and has then found every square that
/// the piece reaches along the ray.
pub proof fn lemma_ray_meets_square(
    board: Seq<Option<Piece>>,
    color: Color,
    before: Seq<BoardIndex>,
    list: Seq<BoardIndex>,
    from: int,
    dx: int,
    dy: int,
    file: int,
    rank: int,
)
    requires
        0 <= from < 64,
        board.len() == 64,
        unit_step(dx, dy),
        ray_point(from, dx, dy, file, rank),
        on_board(file, rank),
        ray_swept(board, before, list, from, dx, dy, progress(from, file, rank)),
    ensures
        ({
            let here = square_at(file, rank) as BoardIndex;
            let longer = list.push(here);
            &&& progress(from, file, rank) <= 7
            &&& ray_point(from, dx, dy, file + dx, rank + dy)
            &&& progress(from, file + dx, rank + dy) == progress(from, file, rank) + 1
            &&& off_ray(before, from, dx, dy) && list.no_duplicates() ==> longer.no_duplicates()
            &&& match board[here as int] {
                None => ray_swept(
                    board,
                    before,
                    longer,
                    from,
                    dx,
                    dy,
                    progress(from, file, rank) + 1,
                ),
                Some(piece) => ray_walked(
                    board,
                    color,
                    before,
                    if piece.color != color {
                        longer
                    } else {
                        list
                    },
                    from,
                    dx,
                    dy,
                ),
            }
        }),
{
    let reached = progress(from, file, rank);
    let here = square_at(file, rank) as BoardIndex;
    let longer = list.push(here);
    lemma_ray_point(from, dx, dy, file, rank);
    lemma_swept_path_clear(board, before, list, from, dx, dy, reached, here as int);
    if off_ray(before, from, dx, dy) && list.no_duplicates() {
        assert(!list.contains(here)) by {
            lemma_ray_entries(board, before, list, from, dx, dy, reached, here);
            if before.contains(here) {
                let i = choose|i: int| 0 <= i < before.len() && before[i] == here;
                assert(!on_ray(from, dx, dy, before[i] as int));
            }
        }
        lemma_push_distinct(list, here);
    }
    assert(before =~= list.subrange(0, before.len() as int));
    assert(before =~= longer.subrange(0, before.len() as int));
    match board[here as int] {
        None => {
            assert forall|mid: int|
                0 <= mid < 64 && on_ray(from, dx, dy, mid) && span(from, mid) < reached
                    + 1 implies (#[trigger] board[mid]) is None && longer.contains(
                mid as BoardIndex,
            ) by {
                lemma_push_contains(list, here, mid as BoardIndex);
            }
        },
        Some(piece) => {
            let last = if piece.color != color {
                longer
            } else {
                list
            };
            assert forall|square: BoardIndex|
                #![trigger last.contains(square)]
                last.contains(square) <==> before.contains(square) || slides_to(
                    board,
                    color,
                    from,
                    dx,
                    dy,
                    square as int,
                ) by {
                lemma_ray_entries(board, before, list, from, dx, dy, reached, square);
                lemma_push_contains(list, here, square);
                if on_ray(from, dx, dy, square as int) && square < 64 {
                    if span(from, square as int) < reached {
                        assert(board[square as int] is None);
                        lemma_swept_path_clear(
                            board,
                            before,
                            list,
                            from,
                            dx,
                            dy,
                            reached,
                            square as int,
                        );
                    } else if span(from, square as int) > reached {
                        assert(strictly_between(from, here as int, square as int));
                        assert(board[here as int] is Some);
                    }
                }
            }
        },
    }
}

/// Walks from `from` in the direction `step` and appends to `piece_map` the
/// squares that a sliding piece of `color` reaches: the empty squares up to
/// the first piece or the edge of the board, and the square of that piece if
/// it is an enemy.
pub fn walk_ray(
    board: &Board,
    color: Color,
    from: BoardIndex,
    step: (i32, i32),
    piece_map: &mut Vec<BoardIndex>,
)
    requires
        board@.len() == 64,
        from < 64,
        unit_step(step.0 as int, step.1 as int),
    ensures
        old(piece_map)@.is_prefix_of(final(piece_map)@),
        forall|square: BoardIndex|
            #![trigger final(piece_map)@.contains(square)]
            final(piece_map)@.contains(square) <==> old(piece_map)@.contains(square) || slides_to(
                board@,
                color,
                from as int,
                step.0 as int,
                step.1 as int,
                square as int,
            ),
        old(piece_map)@.no_duplicates() && off_ray(
            old(piece_map)@,
            from as int,
            step.0 as int,
            step.1 as int,
        ) ==> final(piece_map)@.no_duplicates(),
{
    let xy_index = from.to_xy();
    let mut current_pos: (i32, i32) = (xy_index.0 as i32 + step.0, xy_index.1 as i32 + step.1);
    let ghost before = piece_map@;
    proof {
        lemma_ray_start(board@, before, from as int, step.0 as int, step.1 as int);
    }
    loop
        invariant_except_break
            ray_point(
                from as int,
                step.0 as int,
                step.1 as int,
                current_pos.0 as int,
                current_pos.1 as int,
            ),
            progress(from as int, current_pos.0 as int, current_pos.1 as int) <= 8,
            ray_swept(
                board@,
                before,
                piece_map@,
                from as int,
                step.0 as int,
                step.1 as int,
                progress(from as int, current_pos.0 as int, current_pos.1 as int),
            ),
        invariant
            board@.len() == 64,
            from < 64,
            unit_step(step.0 as int, step.1 as int),
            before.no_duplicates() && off_ray(before, from as int, step.0 as int, step.1 as int)
                ==> piece_map@.no_duplicates(),
        ensures
            ray_walked(
                board@,
                color,
                before,
                piece_map@,
                from as int,
                step.0 as int,
                step.1 as int,
            ),
        decreases 8 - progress(from as int, current_pos.0 as int, current_pos.1 as int),
    {
        if !validate_i32_pos(current_pos) {
            proof {
                lemma_ray_leaves_board(
                    board@,
                    color,
                    before,
                    piece_map@,
                    from as int,
                    step.0 as int,
                    step.1 as int,
                    current_pos.0 as int,
                    current_pos.1 as int,
                );
            }
            break ;
        }
        let current_pos_index = (current_pos.0 as u16, current_pos.1 as u16).to_index();
        let current_piece = board.piece_at(current_pos_index);
        proof {
            lemma_ray_meets_square(
                board@,
                color,
                before,
                piece_map@,
                from as int,
                step.0 as int,
                step.1 as int,
                current_pos.0 as int,
                current_pos.1 as int,
            );
        }
        if current_piece.is_none() {
            piece_map.push(current_pos_index);
        } else {
            if current_piece.unwrap().color != color {
                piece_map.push(current_pos_index);
            }
            break ;
        }
        current_pos = (current_pos.0 + step.0, current_pos.1 + step.1);
    }
}

/// The squares that a sliding piece of `color` on `from` reaches along the
/// rays that leave `from` in the directions `steps`.
pub fn sliding_squares(
    board: &Board,
    color: Color,
    from: BoardIndex,
    steps: &[(i32, i32)],
) -> (found: Vec<BoardIndex>)
    requires
        board@.len() == 64,
        from < 64,
        unit_steps(steps@),
    ensures
        forall|square: BoardIndex|
            #![trigger found@.contains(square)]
            found@.contains(square) <==> exists|k: int|
                slides_along(board@, color, from as int, steps@, k, square as int),
        steps@.no_duplicates() ==> found@.no_duplicates(),
{
    let mut found: Vec<BoardIndex> = Vec::new();
    let mut done: usize = 0;
    while done < steps.len()
        invariant
            board@.len() == 64,
            from < 64,
            unit_steps(steps@),
            done <= steps.len(),
            steps@.no_duplicates() ==> found@.no_duplicates(),
            forall|square: BoardIndex|
                #![trigger found@.contains(square)]
                found@.contains(square) <==> exists|k: int|
                    k < done && slides_along(board@, color, from as int, steps@, k, square as int),
        decreases steps.len() - done,
    {
        let step = steps[done];
        let ghost earlier = found@;
        proof {
            assert forall|i: int| steps@.no_duplicates() && 0 <= i < earlier.len() implies !on_ray(
                from as int,
                step.0 as int,
                step.1 as int,
                #[trigger] earlier[i] as int,
            ) by {
                assert(earlier.contains(earlier[i]));
                let k = choose|k: int|
                    k < done && slides_along(
                        board@,
                        color,
                        from as int,
                        steps@,
                        k,
                        earlier[i] as int,
                    );
                assert(steps@[k] != steps@[done as int]);
            }
        }
        walk_ray(board, color, from, step, &mut found);
        proof {
            assert forall|square: BoardIndex|
                #![trigger found@.contains(square)]
                found@.contains(square) <==> exists|k: int|
                    k < done + 1 && slides_along(
                        board@,
                        color,
                        from as int,
                        steps@,
                        k,
                        square as int,
                    ) by {
                if earlier.contains(square) {
                    let k = choose|k: int|
                        k < done && slides_along(
                            board@,
                            color,
                            from as int,
                            steps@,
                            k,
                            square as int,
                        );
                    assert(k < done + 1 && slides_along(
                        board@,
                        color,
                        from as int,
                        steps@,
                        k,
                        square as int,
                    ));
                }
                if slides_to(
                    board@,
                    color,
                    from as int,
                    step.0 as int,
                    step.1 as int,
                    square as int,
                ) {
                    assert(slides_along(
                        board@,
                        color,
                        from as int,
                        steps@,
                        done as int,
                        square as int,
                    ));
                }
                if exists|k: int|
                    k < done + 1 && slides_along(
                        board@,
                        color,
                        from as int,
                        steps@,
                        k,
                        square as int,
                    ) {
                    let k = choose|k: int|
                        k < done + 1 && slides_along(
                            board@,
                            color,
                            from as int,
                            steps@,
                            k,
                            square as int,
                        );
                    if k < done {
                        assert(earlier.contains(square));
                    }
                }
            }
        }
        done += 1;
    }
    found
}

} // verus!
