use chess_rules::board::{Board, BoardExt, BoardIndex, Color, Piece, PieceType};
use chess_rules::move_validation::movement::{Movement, MovementInformation};
use chess_rules::state::{AdditionalBoardData, GameState};

const ALL_CASTLING: ((bool, bool), (bool, bool)) = ((true, true), (true, true));

fn square(file: u16, rank: u16) -> BoardIndex {
    rank * 8 + file
}

fn white(piece_type: PieceType) -> Option<Piece> {
    Some(Piece::new(piece_type, Color::White))
}

fn black(piece_type: PieceType) -> Option<Piece> {
    Some(Piece::new(piece_type, Color::Black))
}

fn state_with(turn: Color, pieces: &[(BoardIndex, Option<Piece>)]) -> GameState {
    let mut state = GameState::new();
    state.turn = turn;
    for (at, piece) in pieces {
        state.board[*at as usize] = *piece;
    }
    state
}

fn describe(state: &GameState, start: BoardIndex, destination: BoardIndex) -> Movement {
    Movement::from_with_state(start, destination, state, state.additional_board_data)
}

fn assert_same(left: &GameState, right: &GameState) {
    assert_eq!(left.board, right.board);
    assert_eq!(left.turn, right.turn);
    assert_eq!(
        left.additional_board_data.en_passant_square,
        right.additional_board_data.en_passant_square
    );
    assert_eq!(
        left.additional_board_data.castling_status,
        right.additional_board_data.castling_status
    );
    assert_eq!(left.selected_square, right.selected_square);
}

#[test]
fn new_game_state_has_an_empty_board_and_white_to_move() {
    let state = GameState::new();
    assert_eq!(state.board, Board::empty_board());
    assert_eq!(state.board.len(), 64);
    assert_eq!(state.turn, Color::White);
    assert_eq!(state.additional_board_data.castling_status, ALL_CASTLING);
    assert_eq!(state.additional_board_data.en_passant_square, None);
    assert_eq!(state.selected_square, None);
}

#[test]
fn new_with_default_position_starts_a_game() {
    let state = GameState::new_with_default_position();
    assert_eq!(state.board, Board::default_position());
    assert_eq!(state.turn, Color::White);
    assert_eq!(state.additional_board_data.castling_status, ALL_CASTLING);
    assert_eq!(state.additional_board_data.en_passant_square, None);
    assert_eq!(state.selected_square, None);
}

#[test]
fn default_game_state_is_an_empty_board_without_castling() {
    let state = GameState::default();
    assert_eq!(state.board, Board::empty_board());
    assert_eq!(state.turn, Color::White);
    assert_eq!(
        state.additional_board_data.castling_status,
        ((false, false), (false, false))
    );
    assert_eq!(state.additional_board_data.en_passant_square, None);
    assert_eq!(state.selected_square, None);
}

#[test]
fn switch_turn_alternates() {
    let mut state = GameState::new_with_default_position();
    let before = state.clone();
    state.switch_turn();
    assert_eq!(state.turn, Color::Black);
    assert_eq!(state.board, before.board);
    assert_eq!(state.additional_board_data.en_passant_square, None);
    state.switch_turn();
    assert_same(&state, &before);
}

#[test]
fn opening_with_the_kings_pawn() {
    let mut state = GameState::new_with_default_position();
    state.selected_square = Some(52);
    assert!(state.move_piece(52, 36));
    assert_eq!(state.turn, Color::Black);
    assert_eq!(state.additional_board_data.en_passant_square, Some(44));
    assert_eq!(state.additional_board_data.castling_status, ALL_CASTLING);
    assert_eq!(state.selected_square, Some(52));
    let mut expected = Board::default_position();
    expected[36] = white(PieceType::Pawn);
    expected[52] = None;
    assert_eq!(state.board, expected);
}

#[test]
fn black_double_push_sets_the_square_behind_it() {
    let mut state = GameState::new_with_default_position();
    assert!(state.move_piece(52, 44));
    assert_eq!(state.additional_board_data.en_passant_square, None);
    assert_eq!(state.turn, Color::Black);
    assert!(state.move_piece(11, 27));
    assert_eq!(state.additional_board_data.en_passant_square, Some(19));
    assert_eq!(state.turn, Color::White);
    assert_eq!(state.board[27], black(PieceType::Pawn));
    assert_eq!(state.board[11], None);
}

#[test]
fn en_passant_square_is_cleared_by_the_next_move() {
    let mut state = GameState::new_with_default_position();
    assert!(state.move_piece(52, 36));
    assert_eq!(state.additional_board_data.en_passant_square, Some(44));
    assert!(state.move_piece(1, 18));
    assert_eq!(state.additional_board_data.en_passant_square, None);
    assert!(state.move_piece(36, 28));
    assert_eq!(state.additional_board_data.en_passant_square, None);
}

#[test]
fn the_side_not_to_move_cannot_move() {
    let mut state = GameState::new_with_default_position();
    let before = state.clone();
    for start in 0..16 {
        for destination in 0..64 {
            assert!(!state.move_piece(start, destination));
        }
    }
    assert_same(&state, &before);
    assert!(state.move_piece(52, 36));
    let before = state.clone();
    for start in 0..64u16 {
        let is_white =
            matches!(state.board[start as usize], Some(piece) if piece.color == Color::White);
        if is_white {
            for destination in 0..64 {
                assert!(!state.move_piece(start, destination));
            }
        }
    }
    assert_same(&state, &before);
}

#[test]
fn a_rejected_move_changes_nothing() {
    let mut state = GameState::new_with_default_position();
    assert!(state.move_piece(52, 36));
    state.selected_square = Some(7);
    let before = state.clone();
    assert!(!state.move_piece(36, 28));
    assert_same(&state, &before);
    assert!(!state.move_piece(12, 36));
    assert_same(&state, &before);
    assert!(!state.move_piece(0, 16));
    assert_same(&state, &before);
    assert!(!state.move_piece(12, 12));
    assert_same(&state, &before);
    assert_eq!(state.additional_board_data.en_passant_square, Some(44));
    assert_eq!(state.turn, Color::Black);
}

#[test]
fn moving_from_an_empty_square_is_rejected() {
    let mut state = GameState::new_with_default_position();
    let before = state.clone();
    for start in 16..48 {
        for destination in 0..64 {
            assert!(!state.move_piece(start, destination));
        }
    }
    assert_same(&state, &before);
}

#[test]
fn en_passant_capture_removes_the_passed_pawn() {
    for file in 0..8u16 {
        for beside in [file.wrapping_sub(1), file + 1] {
            if beside >= 8 {
                continue;
            }
            let mut state = state_with(
                Color::White,
                &[
                    (square(file, 6), white(PieceType::Pawn)),
                    (square(beside, 4), black(PieceType::Pawn)),
                ],
            );
            assert!(state.move_piece(square(file, 6), square(file, 4)));
            assert_eq!(state.additional_board_data.en_passant_square, Some(square(file, 5)));
            assert_eq!(state.turn, Color::Black);
            assert!(state.move_piece(square(beside, 4), square(file, 5)));
            let mut expected = Board::empty_board();
            expected[square(file, 5) as usize] = black(PieceType::Pawn);
            assert_eq!(state.board, expected);
            assert_eq!(state.board[square(file, 4) as usize], None);
            assert_eq!(state.additional_board_data.en_passant_square, None);
            assert_eq!(state.turn, Color::White);
        }
    }
}

#[test]
fn white_captures_en_passant_too() {
    let mut state = state_with(
        Color::Black,
        &[(square(2, 1), black(PieceType::Pawn)), (square(3, 3), white(PieceType::Pawn))],
    );
    assert!(state.move_piece(square(2, 1), square(2, 3)));
    assert_eq!(state.additional_board_data.en_passant_square, Some(square(2, 2)));
    assert!(state.move_piece(square(3, 3), square(2, 2)));
    let mut expected = Board::empty_board();
    expected[square(2, 2) as usize] = white(PieceType::Pawn);
    assert_eq!(state.board, expected);
}

#[test]
fn en_passant_is_offered_for_one_move_only() {
    let mut state = state_with(
        Color::White,
        &[
            (square(4, 6), white(PieceType::Pawn)),
            (square(3, 4), black(PieceType::Pawn)),
            (square(0, 0), black(PieceType::King)),
            (square(7, 7), white(PieceType::King)),
        ],
    );
    assert!(state.move_piece(square(4, 6), square(4, 4)));
    assert!(state.move_piece(square(0, 0), square(0, 1)));
    assert!(state.move_piece(square(7, 7), square(7, 6)));
    assert!(!state.move_piece(square(3, 4), square(4, 5)));
    assert_eq!(state.board[square(4, 4) as usize], white(PieceType::Pawn));
}

#[test]
fn an_ordinary_capture_replaces_the_captured_piece() {
    let mut state = state_with(
        Color::White,
        &[(square(0, 7), white(PieceType::Rook)), (square(0, 2), black(PieceType::Queen))],
    );
    assert!(state.move_piece(square(0, 7), square(0, 2)));
    let mut expected = Board::empty_board();
    expected[square(0, 2) as usize] = white(PieceType::Rook);
    assert_eq!(state.board, expected);
    assert_eq!(state.turn, Color::Black);
    assert_eq!(state.additional_board_data.en_passant_square, None);
}

#[test]
fn a_pawn_capture_onto_a_piece_leaves_the_square_behind_alone() {
    let mut state = state_with(
        Color::White,
        &[
            (square(4, 4), white(PieceType::Pawn)),
            (square(5, 3), black(PieceType::Knight)),
            (square(5, 4), black(PieceType::Pawn)),
        ],
    );
    state.additional_board_data.en_passant_square = Some(square(5, 3));
    assert!(state.move_piece(square(4, 4), square(5, 3)));
    assert_eq!(state.board[square(5, 3) as usize], white(PieceType::Pawn));
    assert_eq!(state.board[square(5, 4) as usize], black(PieceType::Pawn));
    assert_eq!(state.board[square(4, 4) as usize], None);
}

#[test]
fn any_piece_arriving_on_the_en_passant_square_clears_the_square_behind() {
    let mut state = state_with(
        Color::Black,
        &[
            (square(4, 4), white(PieceType::Pawn)),
            (square(2, 4), black(PieceType::Knight)),
        ],
    );
    state.additional_board_data.en_passant_square = Some(square(4, 5));
    assert!(state.move_piece(square(2, 4), square(4, 5)));
    let mut expected = Board::empty_board();
    expected[square(4, 5) as usize] = black(PieceType::Knight);
    assert_eq!(state.board, expected);
}

#[test]
fn castling_rights_are_kept_and_never_used() {
    let mut state = state_with(
        Color::White,
        &[
            (60, white(PieceType::King)),
            (63, white(PieceType::Rook)),
            (4, black(PieceType::King)),
        ],
    );
    assert!(!state.move_piece(60, 62));
    assert!(state.move_piece(60, 61));
    assert_eq!(state.additional_board_data.castling_status, ALL_CASTLING);
    assert!(state.move_piece(4, 5));
    assert_eq!(state.additional_board_data.castling_status, ALL_CASTLING);
}

#[test]
fn a_short_game_alternates_turns() {
    let mut state = GameState::new_with_default_position();
    let moves = [(52, 36), (12, 28), (62, 45), (1, 18), (61, 34), (5, 26), (51, 43), (11, 19)];
    let mut turn = Color::White;
    for (start, destination) in moves {
        assert_eq!(state.turn, turn);
        assert!(state.move_piece(start, destination));
        turn = if turn == Color::White { Color::Black } else { Color::White };
    }
    assert_eq!(state.turn, Color::White);
    assert_eq!(state.board[34], white(PieceType::Bishop));
    assert_eq!(state.board[26], black(PieceType::Bishop));
    assert_eq!(state.board[45], white(PieceType::Knight));
    assert_eq!(state.board[18], black(PieceType::Knight));
    assert_eq!(state.board.iter().filter(|held| held.is_some()).count(), 32);
}

#[test]
fn from_with_state_takes_a_snapshot() {
    let mut state = GameState::new_with_default_position();
    state.turn = Color::Black;
    let data = AdditionalBoardData {
        en_passant_square: Some(20),
        castling_status: ((false, true), (true, false)),
    };
    let movement = Movement::from_with_state(57, 42, &state, data);
    assert_eq!(movement.start, 57);
    assert_eq!(movement.destination, 42);
    assert_eq!(movement.movement_info.board, Board::default_position());
    assert_eq!(movement.movement_info.piece_type, PieceType::Knight);
    assert_eq!(movement.movement_info.piece_color, Color::White);
    assert_eq!(movement.movement_info.turn, Color::Black);
    assert!(!movement.movement_info.capturing);
    assert_eq!(movement.movement_info.board_data.en_passant_square, Some(20));
    assert_eq!(movement.movement_info.board_data.castling_status, ((false, true), (true, false)));
    state.board[57] = None;
    assert_eq!(movement.movement_info.board[57], white(PieceType::Knight));
}

#[test]
fn from_with_state_marks_captures() {
    let mut state = state_with(
        Color::White,
        &[
            (square(0, 7), white(PieceType::Rook)),
            (square(0, 2), black(PieceType::Queen)),
            (square(0, 5), white(PieceType::Pawn)),
        ],
    );
    assert!(describe(&state, square(0, 7), square(0, 2)).movement_info.capturing);
    assert!(!describe(&state, square(0, 7), square(0, 5)).movement_info.capturing);
    assert!(!describe(&state, square(0, 7), square(0, 6)).movement_info.capturing);
    state.additional_board_data.en_passant_square = Some(square(0, 6));
    assert!(describe(&state, square(0, 7), square(0, 6)).movement_info.capturing);
    assert!(!describe(&state, square(0, 7), square(1, 6)).movement_info.capturing);
    assert!(describe(&state, square(0, 2), square(0, 7)).movement_info.capturing);
}

#[test]
fn movement_information_new_keeps_its_arguments() {
    let data = AdditionalBoardData { en_passant_square: Some(44), castling_status: ALL_CASTLING };
    let info = MovementInformation::new(
        true,
        Board::default_position(),
        PieceType::Bishop,
        Color::Black,
        Color::White,
        data,
    );
    assert!(info.capturing);
    assert_eq!(info.board, Board::default_position());
    assert_eq!(info.piece_type, PieceType::Bishop);
    assert_eq!(info.piece_color, Color::Black);
    assert_eq!(info.turn, Color::White);
    assert_eq!(info.board_data.en_passant_square, Some(44));
    assert_eq!(info.board_data.castling_status, ALL_CASTLING);
}

#[test]
fn a_cloned_movement_holds_the_same_values() {
    let state = GameState::new_with_default_position();
    let movement = describe(&state, 52, 36);
    let copy = movement.clone();
    assert_eq!(copy.start, 52);
    assert_eq!(copy.destination, 36);
    assert_eq!(copy.movement_info.board, movement.movement_info.board);
    assert_eq!(copy.movement_info.piece_type, PieceType::Pawn);
    assert_eq!(copy.movement_info.piece_color, Color::White);
    assert_eq!(copy.movement_info.turn, Color::White);
    assert_eq!(copy.movement_info.capturing, movement.movement_info.capturing);
    assert_eq!(copy.movement_info.board_data.en_passant_square, None);
}

#[test]
fn set_en_passant_square_follows_pawn_double_steps_only() {
    let mut state = GameState::new_with_default_position();
    let double = describe(&state, 52, 36);
    let single = describe(&state, 52, 44);
    let knight = describe(&state, 57, 40);
    let black_double = describe(&state, 10, 26);
    state.set_en_passant_square(double);
    assert_eq!(state.additional_board_data.en_passant_square, Some(44));
    state.set_en_passant_square(single);
    assert_eq!(state.additional_board_data.en_passant_square, None);
    state.set_en_passant_square(black_double);
    assert_eq!(state.additional_board_data.en_passant_square, Some(18));
    state.set_en_passant_square(knight);
    assert_eq!(state.additional_board_data.en_passant_square, None);
    assert_eq!(state.board, Board::default_position());
    assert_eq!(state.turn, Color::White);
    assert_eq!(state.additional_board_data.castling_status, ALL_CASTLING);
}

#[test]
fn set_en_passant_square_ignores_two_rank_moves_of_other_pieces() {
    let mut state = state_with(Color::White, &[(square(0, 7), white(PieceType::Rook))]);
    state.additional_board_data.en_passant_square = Some(44);
    let lift = describe(&state, square(0, 7), square(0, 5));
    state.set_en_passant_square(lift);
    assert_eq!(state.additional_board_data.en_passant_square, None);
}

#[test]
fn check_for_en_passant_needs_an_empty_destination_and_a_capture() {
    let mut state = state_with(
        Color::Black,
        &[
            (square(3, 4), black(PieceType::Pawn)),
            (square(4, 4), white(PieceType::Pawn)),
            (square(2, 5), white(PieceType::Knight)),
        ],
    );
    state.additional_board_data.en_passant_square = Some(square(4, 5));
    assert!(state.check_for_en_passant(describe(&state, square(3, 4), square(4, 5))));
    assert!(!state.check_for_en_passant(describe(&state, square(3, 4), square(3, 5))));
    assert!(!state.check_for_en_passant(describe(&state, square(3, 4), square(2, 5))));
    state.additional_board_data.en_passant_square = None;
    assert!(!state.check_for_en_passant(describe(&state, square(3, 4), square(4, 5))));
}

#[test]
fn is_well_formed_checks_board_size_and_en_passant_rank() {
    assert!(GameState::new().is_well_formed());
    assert!(GameState::new_with_default_position().is_well_formed());
    assert!(GameState::default().is_well_formed());
    let mut state = GameState::new_with_default_position();
    for target in 0..64u16 {
        state.additional_board_data.en_passant_square = Some(target);
        assert_eq!(state.is_well_formed(), (8..56).contains(&target));
    }
    state.additional_board_data.en_passant_square = Some(64);
    assert!(!state.is_well_formed());
    state.additional_board_data.en_passant_square = Some(u16::MAX);
    assert!(!state.is_well_formed());
    state.additional_board_data.en_passant_square = None;
    state.board.pop();
    assert!(!state.is_well_formed());
    state.board.push(None);
    assert!(state.is_well_formed());
    state.board.push(None);
    assert!(!state.is_well_formed());
    state.board.clear();
    assert!(!state.is_well_formed());
}

#[test]
fn every_accepted_move_keeps_the_game_well_formed() {
    let mut state = GameState::new_with_default_position();
    for (start, destination) in [(52u16, 36u16), (11, 27), (36, 27), (3, 27), (57, 42), (27, 51)] {
        assert!(state.move_piece(start, destination));
        assert!(state.is_well_formed());
    }
    assert_eq!(state.board.iter().filter(|held| held.is_some()).count(), 29);
}
