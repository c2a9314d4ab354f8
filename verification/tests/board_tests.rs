use chess_rules::board::{
    Board, BoardExt, BoardIndex, BoardIndexExt, BoardIndexXY, BoardIndexXYExt, Color, Piece,
    PieceType,
};
use chess_rules::config::GameConfig;
use chess_rules::{BOARD_SQUARES, BOARD_SQUARE_SIZE};

fn piece(piece_type: PieceType, color: Color) -> Option<Piece> {
    Some(Piece::new(piece_type, color))
}

#[test]
fn constants_describe_an_eight_by_eight_board() {
    assert_eq!(BOARD_SQUARES, 8);
    assert_eq!(BOARD_SQUARE_SIZE, 50);
}

#[test]
fn piece_new_keeps_type_and_color() {
    let knight = Piece::new(PieceType::Knight, Color::Black);
    assert_eq!(knight.piece_type, PieceType::Knight);
    assert_eq!(knight.color, Color::Black);
    assert_eq!(knight, Piece { color: Color::Black, piece_type: PieceType::Knight });
}

#[test]
fn default_color_is_white() {
    assert_eq!(Color::default(), Color::White);
}

#[test]
fn empty_board_has_sixty_four_empty_squares() {
    let board = Board::empty_board();
    assert_eq!(board.len(), 64);
    assert!(board.iter().all(|square| square.is_none()));
}

#[test]
fn default_position_is_the_standard_layout() {
    let board = Board::default_position();
    assert_eq!(board.len(), 64);
    let back = [
        PieceType::Rook,
        PieceType::Knight,
        PieceType::Bishop,
        PieceType::Queen,
        PieceType::King,
        PieceType::Bishop,
        PieceType::Knight,
        PieceType::Rook,
    ];
    for file in 0..8 {
        assert_eq!(board[file], piece(back[file], Color::Black));
        assert_eq!(board[8 + file], piece(PieceType::Pawn, Color::Black));
        assert_eq!(board[48 + file], piece(PieceType::Pawn, Color::White));
        assert_eq!(board[56 + file], piece(back[file], Color::White));
    }
    for square in 16..48 {
        assert_eq!(board[square], None);
    }
}

#[test]
fn default_position_places_kings_and_queens_on_their_files() {
    let board = Board::default_position();
    assert_eq!(board[3], piece(PieceType::Queen, Color::Black));
    assert_eq!(board[4], piece(PieceType::King, Color::Black));
    assert_eq!(board[59], piece(PieceType::Queen, Color::White));
    assert_eq!(board[60], piece(PieceType::King, Color::White));
}

#[test]
fn default_position_is_the_same_every_time() {
    assert_eq!(Board::default_position(), Board::default_position());
}

#[test]
fn piece_at_reads_the_square() {
    let board = Board::default_position();
    assert_eq!(board.piece_at(0), piece(PieceType::Rook, Color::Black));
    assert_eq!(board.piece_at(52), piece(PieceType::Pawn, Color::White));
    assert_eq!(board.piece_at(36), None);
    assert_eq!(board.piece_at(63), piece(PieceType::Rook, Color::White));
}

#[test]
fn to_xy_splits_an_index_into_file_and_rank() {
    let corner: BoardIndex = 0;
    assert_eq!(corner.to_xy(), (0, 0));
    let d5: BoardIndex = 27;
    assert_eq!(d5.to_xy(), (3, 3));
    let e2: BoardIndex = 52;
    assert_eq!(e2.to_xy(), (4, 6));
    let last: BoardIndex = 63;
    assert_eq!(last.to_xy(), (7, 7));
    let h8: BoardIndex = 7;
    assert_eq!(h8.to_xy(), (7, 0));
    let a7: BoardIndex = 8;
    assert_eq!(a7.to_xy(), (0, 1));
}

#[test]
fn to_index_joins_file_and_rank() {
    let origin: BoardIndexXY = (0, 0);
    assert_eq!(origin.to_index(), 0);
    let d5: BoardIndexXY = (3, 3);
    assert_eq!(d5.to_index(), 27);
    let e4: BoardIndexXY = (4, 4);
    assert_eq!(e4.to_index(), 36);
    let last: BoardIndexXY = (7, 7);
    assert_eq!(last.to_index(), 63);
    let h8: BoardIndexXY = (7, 0);
    assert_eq!(h8.to_index(), 7);
    let a7: BoardIndexXY = (0, 1);
    assert_eq!(a7.to_index(), 8);
}

#[test]
fn index_round_trips_through_coordinates() {
    for index in 0..64u16 {
        assert_eq!(index.to_xy().to_index(), index);
    }
}

#[test]
fn coordinates_round_trip_through_index() {
    for rank in 0..8u16 {
        for file in 0..8u16 {
            assert_eq!((file, rank).to_index().to_xy(), (file, rank));
        }
    }
}

#[test]
fn game_config_new_has_the_usual_sizes() {
    let config = GameConfig::new();
    assert_eq!(config.board_square_size, 50);
    assert_eq!(config.board_squares, 8);
}

#[test]
fn game_config_default_is_zeroed() {
    let config = GameConfig::default();
    assert_eq!(config.board_square_size, 0);
    assert_eq!(config.board_squares, 0);
}

#[test]
fn board_size_is_square_size_times_squares() {
    assert_eq!(GameConfig::new().board_size(), 400);
    let small = GameConfig { board_square_size: 3, board_squares: 5 };
    assert_eq!(small.board_size(), 15);
    assert_eq!(GameConfig::default().board_size(), 0);
}
