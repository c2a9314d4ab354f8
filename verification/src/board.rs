//! The board model: pieces, the flat array of squares, the conversions
//! between a square's index and its `(file, rank)` pair, and the starting
//! layout.
//!
//! Squares are numbered row by row from the top-left corner, so that square 0
//! is the corner next to Black's queen-side rook and White moves towards
//! smaller ranks.

use vstd::prelude::*;

use crate::BOARD_SQUARES;

verus! {

/// The side a piece belongs to.
#[derive(Clone, Copy, Debug, PartialEq, Eq, Structural)]
pub enum Color {
    White,
    Black,
}

impl Color {
    /// The other side.
    pub open spec fn opposite(self) -> Color {
        match self {
            Color::White => Color::Black,
            Color::Black => Color::White,
        }
    }

    /// Change in rank of one step forward for a pawn of this side.
    pub open spec fn forward(self) -> int {
        match self {
            Color::White => -1,
            Color::Black => 1,
        }
    }

    /// Rank on which the pawns of this side start.
    pub open spec fn pawn_rank(self) -> int {
        match self {
            Color::White => 6,
            Color::Black => 1,
        }
    }
}

impl Default for Color {
    fn default() -> (color: Self)
        ensures
            color == Color::White,
    {
        Color::White
    }
}

/// What kind of piece stands on a square.
#[derive(Clone, Copy, Debug, PartialEq, Eq, Structural)]
pub enum PieceType {
    Pawn,
    Knight,
    Bishop,
    Rook,
    Queen,
    King,
}

/// A piece: its kind and its side.
#[derive(Clone, Copy, Debug, PartialEq, Eq, Structural)]
pub struct Piece {
    pub color: Color,
    pub piece_type: PieceType,
}

impl Piece {
    /// The piece of kind `piece_type` that belongs to `color`.
    pub fn new(piece_type: PieceType, color: Color) -> (piece: Self)
        ensures
            piece == (Piece { color, piece_type }),
    {
        Self { color: color, piece_type: piece_type }
    }
}

/// The squares of the board, row by row.
pub type Board = Vec<Option<Piece>>;

/// Index of a square in a [`Board`].
pub type BoardIndex = u16;

/// A square given as `(file, rank)`.
pub type BoardIndexXY = (u16, u16);

/// Column of a square, counted from the left.
pub open spec fn file_of(square: int) -> int {
    square % 8
}

/// Row of a square, counted from the top.
pub open spec fn rank_of(square: int) -> int {
    square / 8
}

/// Index of the square in column `file` of row `rank`.
pub open spec fn square_at(file: int, rank: int) -> int {
    rank * 8 + file
}

/// Whether `(file, rank)` names a square of the board.
pub open spec fn on_board(file: int, rank: int) -> bool {
    0 <= file < 8 && 0 <= rank < 8
}

/// A board without pieces.
pub open spec fn empty_squares() -> Seq<Option<Piece>> {
    Seq::new(64, |square: int| None)
}

/// Kind of the piece that starts in column `file` of a side's back rank.
pub open spec fn back_rank_piece(file: int) -> PieceType {
    if file == 0 || file == 7 {
        PieceType::Rook
    } else if file == 1 || file == 6 {
        PieceType::Knight
    } else if file == 2 || file == 5 {
        PieceType::Bishop
    } else if file == 3 {
        PieceType::Queen
    } else {
        PieceType::King
    }
}

/// What stands on `square` when a game begins.
pub open spec fn starting_piece(square: int) -> Option<Piece> {
    let rank = rank_of(square);
    if rank == 0 {
        Some(Piece { color: Color::Black, piece_type: back_rank_piece(file_of(square)) })
    } else if rank == 1 {
        Some(Piece { color: Color::Black, piece_type: PieceType::Pawn })
    } else if rank == 6 {
        Some(Piece { color: Color::White, piece_type: PieceType::Pawn })
    } else if rank == 7 {
        Some(Piece { color: Color::White, piece_type: back_rank_piece(file_of(square)) })
    } else {
        None
    }
}

/// The board at the beginning of a game.
pub open spec fn starting_position() -> Seq<Option<Piece>> {
    Seq::new(64, |square: int| starting_piece(square))
}

/// Converting a square to its coordinates and back gives the same square.
pub proof fn lemma_index_round_trip(square: int)
    requires
        0 <= square < 64,
    ensures
        on_board(file_of(square), rank_of(square)),
        square_at(file_of(square), rank_of(square)) == square,
{
}

/// Converting coordinates to a square and back gives the same coordinates,
/// and the square lies on the board.
pub proof fn lemma_xy_round_trip(file: int, rank: int)
    requires
        on_board(file, rank),
    ensures
        0 <= square_at(file, rank) < 64,
        file_of(square_at(file, rank)) == file,
        rank_of(square_at(file, rank)) == rank,
{
}

/// What a board offers: its two usual layouts and the reading of a square.
pub trait BoardExt: Sized {
    /// The squares as a sequence.
    spec fn squares(&self) -> Seq<Option<Piece>>;

    /// A board of full size with no piece on it.
    fn empty_board() -> (board: Self)
        ensures
            board.squares() == empty_squares(),
    ;

    /// The board at the beginning of a game.
    fn default_position() -> (board: Board)
        ensures
            board@ == starting_position(),
    ;

    /// What stands on the square `index`.
    fn piece_at(&self, index: BoardIndex) -> (piece: Option<Piece>)
        requires
            index < self.squares().len(),
        ensures
            piece == self.squares()[index as int],
    ;
}

impl BoardExt for Board {
    open spec fn squares(&self) -> Seq<Option<Piece>> {
        self@
    }

    fn empty_board() -> (board: Self) {
        let mut board: Board = Vec::new();
        let mut square: u16 = 0;
        while square < BOARD_SQUARES * BOARD_SQUARES
            invariant
                square <= 64,
                board@.len() == square,
                forall|i: int| 0 <= i < square ==> board@[i] is None,
            decreases 64 - square,
        {
            board.push(None);
            square += 1;
        }
        assert(board@ =~= empty_squares());
        board
    }

    fn default_position() -> (board: Board) {
        let row = [
            PieceType::Rook,
            PieceType::Knight,
            PieceType::Bishop,
            PieceType::Queen,
            PieceType::King,
            PieceType::Bishop,
            PieceType::Knight,
            PieceType::Rook,
        ];
        let mut board: Board = Vec::new();
        let mut square: u16 = 0;
        while square < BOARD_SQUARES * BOARD_SQUARES
            invariant
                square <= 64,
                board@.len() == square,
                forall|file: int| 0 <= file < 8 ==> row@[file] == back_rank_piece(file),
                forall|i: int| 0 <= i < square ==> board@[i] == starting_piece(i),
            decreases 64 - square,
        {
            let (file, rank) = square.to_xy();
            let piece = if rank == 0 {
                Some(Piece::new(row[file as usize], Color::Black))
            } else if rank == 1 {
                Some(Piece::new(PieceType::Pawn, Color::Black))
            } else if rank == BOARD_SQUARES - 2 {
                Some(Piece::new(PieceType::Pawn, Color::White))
            } else if rank == BOARD_SQUARES - 1 {
                Some(Piece::new(row[file as usize], Color::White))
            } else {
                None
            };
            board.push(piece);
            square += 1;
        }
        assert(board@ =~= starting_position());
        board
    }

    fn piece_at(&self, index: BoardIndex) -> (piece: Option<Piece>) {
        self[index as usize]
    }
}

/// The way from a square's index to its coordinates.
pub trait BoardIndexExt {
    /// The square as a number.
    spec fn square(&self) -> int;

    /// The `(file, rank)` pair of this square.
    fn to_xy(&self) -> (xy: BoardIndexXY)
        ensures
            xy.0 == file_of(self.square()),
            xy.1 == rank_of(self.square()),
    ;
}

impl BoardIndexExt for BoardIndex {
    open spec fn square(&self) -> int {
        *self as int
    }

    fn to_xy(&self) -> (xy: BoardIndexXY) {
        (*self % BOARD_SQUARES, *self / BOARD_SQUARES)
    }
}

/// The way from a square's coordinates to its index.
pub trait BoardIndexXYExt {
    /// Column of the pair.
    spec fn file(&self) -> int;

    /// Row of the pair.
    spec fn rank(&self) -> int;

    /// The index of the square that the pair names.
    fn to_index(&self) -> (index: BoardIndex)
        requires
            on_board(self.file(), self.rank()),
        ensures
            index == square_at(self.file(), self.rank()),
            index < 64,
    ;
}

impl BoardIndexXYExt for BoardIndexXY {
    open spec fn file(&self) -> int {
        self.0 as int
    }

    open spec fn rank(&self) -> int {
        self.1 as int
    }

    fn to_index(&self) -> (index: BoardIndex) {
        BOARD_SQUARES * self.1 + self.0
    }
}

} // verus!
