use chess_lib::board::layout::initial_piece_at;
use chess_lib::board::{Board, Position};
use chess_lib::error::PieceError;
use chess_lib::piece::{Color, Piece, PieceType};

fn pos(x: u8, y: u8) -> Position {
    Position::new(x, y).unwrap()
}

#[test]
fn new_board_has_standard_layout() {
    let board = Board::new();
    assert_eq!(
        board.index(pos(0, 0)),
        Some(Piece { color: Color::White, piece_type: PieceType::Rook, moved: false })
    );
    assert_eq!(board.index(pos(2, 0)), Some(Piece::new(Color::White, PieceType::Bishop)));
    assert_eq!(board.index(pos(3, 0)), Some(Piece::new(Color::White, PieceType::Queen)));
    assert_eq!(board.index(pos(4, 7)), Some(Piece::new(Color::Black, PieceType::King)));
    assert_eq!(board.index(pos(3, 6)), Some(Piece::new(Color::Black, PieceType::Pawn)));
    assert_eq!(board.index(pos(0, 2)), None);
    for x in 0..8u8 {
        assert_eq!(board.index(pos(x, 1)), Some(Piece::new(Color::White, PieceType::Pawn)));
        assert_eq!(board.index(pos(x, 6)), Some(Piece::new(Color::Black, PieceType::Pawn)));
        for y in 2..6u8 {
            assert_eq!(board.index(pos(x, y)), None);
        }
        assert_eq!(board.index(pos(x, 0)), initial_piece_at(x, 0));
        assert_eq!(board.index(pos(x, 7)), initial_piece_at(x, 7));
    }
}

#[test]
fn queen_fully_blocked_on_fresh_board() {
    let board = Board::new();
    let result = board.check_positions(pos(3, 0)).unwrap();
    assert_eq!(result, vec![]);
}

#[test]
fn pawn_unmoved_single_and_double_step() {
    let board = Board::new();
    let mut result = board.check_positions(pos(4, 1)).unwrap();
    result.sort();
    let mut expected = vec![pos(4, 2), pos(4, 3)];
    expected.sort();
    assert_eq!(result, expected);
}

#[test]
fn check_positions_empty_square_not_found() {
    let board = Board::new();
    assert_eq!(board.check_positions(pos(3, 2)).unwrap_err(), PieceError::NotFound(pos(3, 2)));
}

#[test]
fn check_positions_twice_gives_same_squares() {
    let mut board = Board::new();
    board.move_piece(pos(3, 0), pos(3, 3)).unwrap();
    let first = board.check_positions(pos(3, 3)).unwrap();
    let second = board.check_positions(pos(3, 3)).unwrap();
    assert_eq!(first, second);
}

#[test]
fn move_piece_rejects_occupied_destination() {
    let mut board = Board::new();
    let before = board.index(pos(0, 1));
    assert_eq!(
        board.move_piece(pos(0, 0), pos(0, 1)).unwrap_err(),
        PieceError::Occupied(pos(0, 1), PieceType::Pawn)
    );
    assert_eq!(board.index(pos(0, 1)), before);
    assert_eq!(board.index(pos(0, 0)), Some(Piece::new(Color::White, PieceType::Rook)));
}

#[test]
fn move_piece_rejects_empty_source() {
    let mut board = Board::new();
    assert_eq!(
        board.move_piece(pos(3, 3), pos(4, 4)).unwrap_err(),
        PieceError::NotFound(pos(3, 3))
    );
    assert_eq!(board.index(pos(4, 4)), None);
}

#[test]
fn move_piece_sets_moved_flag_once() {
    let mut board = Board::new();
    board.move_piece(pos(1, 0), pos(2, 2)).unwrap();
    assert!(board.index(pos(2, 2)).unwrap().moved);
    board.move_piece(pos(2, 2), pos(3, 4)).unwrap();
    assert!(board.index(pos(3, 4)).unwrap().moved);
}

#[test]
fn take_piece_clears_square() {
    let mut board = Board::new();
    assert_eq!(board.index(pos(3, 0)), Some(Piece::new(Color::White, PieceType::Queen)));
    board.take_piece(pos(3, 0)).unwrap();
    assert_eq!(board.index(pos(3, 0)), None);
    assert_eq!(board.take_piece(pos(3, 0)).unwrap_err(), PieceError::NotFound(pos(3, 0)));
}

#[test]
fn double_step_ignores_intervening_square() {
    // The double step checks only its destination, a documented
    // simplification: a pawn whose single step is blocked by an enemy piece
    // may still jump to the empty square two ahead.
    let mut board = Board::new();
    board.move_piece(pos(4, 6), pos(4, 2)).unwrap();
    let result = board.check_positions(pos(4, 1)).unwrap();
    assert_eq!(result, vec![pos(4, 3)]);
}

#[test]
fn pawn_diagonal_only_on_enemy() {
    let mut board = Board::new();
    // Enemy pawn diagonally ahead of the white pawn at (4, 1).
    board.move_piece(pos(3, 6), pos(3, 2)).unwrap();
    let mut result = board.check_positions(pos(4, 1)).unwrap();
    result.sort();
    let mut expected = vec![pos(4, 2), pos(4, 3), pos(3, 2)];
    expected.sort();
    assert_eq!(result, expected);
    // A friendly piece on the other diagonal is not offered.
    let mut board = Board::new();
    board.move_piece(pos(5, 1), pos(5, 2)).unwrap();
    let mut result = board.check_positions(pos(4, 1)).unwrap();
    result.sort();
    let mut expected = vec![pos(4, 2), pos(4, 3)];
    expected.sort();
    assert_eq!(result, expected);
}

#[test]
fn moved_pawn_loses_double_step() {
    let mut board = Board::new();
    board.move_piece(pos(4, 1), pos(4, 2)).unwrap();
    let result = board.check_positions(pos(4, 2)).unwrap();
    assert_eq!(result, vec![pos(4, 3)]);
}

#[test]
fn king_moves_off_back_rank_only() {
    let mut board = Board::new();
    board.move_piece(pos(4, 6), pos(4, 4)).unwrap();
    let mut result = board.check_positions(pos(4, 7)).unwrap();
    result.sort();
    let mut expected = vec![pos(4, 6)];
    expected.sort();
    assert_eq!(result, expected);
}

#[test]
fn knight_from_starting_square() {
    let board = Board::new();
    let mut result = board.check_positions(pos(1, 0)).unwrap();
    result.sort();
    let mut expected = vec![pos(0, 2), pos(2, 2)];
    expected.sort();
    assert_eq!(result, expected);
}

#[test]
fn forward_sign_by_color() {
    assert_eq!(Color::White.forward_sign(), 1);
    assert_eq!(Color::Black.forward_sign(), -1);
}

#[test]
fn back_rank_arrangement() {
    let expected = [
        PieceType::Rook,
        PieceType::Knight,
        PieceType::Bishop,
        PieceType::Queen,
        PieceType::King,
        PieceType::Bishop,
        PieceType::Knight,
        PieceType::Rook,
    ];
    for x in 0..8u8 {
        let white = initial_piece_at(x, 0).unwrap();
        assert_eq!(white.piece_type, expected[x as usize]);
        assert_eq!(white.color, Color::White);
        assert!(!white.moved);
        let black = initial_piece_at(x, 7).unwrap();
        assert_eq!(black.piece_type, expected[x as usize]);
        assert_eq!(black.color, Color::Black);
    }
}
