use chess_lib::board::{Board, Direction, Position};
use chess_lib::piece::{Color, Piece, PieceType};

fn pos(x: u8, y: u8) -> Position {
    Position::new(x, y).unwrap()
}

#[test]
fn move_queen() {
    let mut board = Board::new();
    board.move_piece(pos(3, 0), pos(5, 5)).unwrap();
    assert_eq!(board.index(pos(3, 0)), None);
    assert_eq!(
        board.index(pos(5, 5)).unwrap(),
        Piece { color: Color::White, piece_type: PieceType::Queen, moved: true }
    )
}

#[test]
fn pawn() {
    let mut board = Board::new();
    board.move_piece(pos(5, 6), pos(5, 4)).unwrap();
    board.move_piece(pos(4, 1), pos(4, 3)).unwrap();
    let mut result = board.check_positions(pos(4, 3)).unwrap();
    result.sort();
    let mut expected_result = vec![pos(5, 4), pos(4, 4)];
    expected_result.sort();
    assert_eq!(result, expected_result)
}

#[test]
fn bishop() {
    let mut board = Board::new();
    board.move_piece(pos(2, 7), pos(4, 5)).unwrap();
    let mut result = board.check_positions(pos(4, 5)).unwrap();
    result.sort();
    let mut expected_result = vec![
        pos(0, 1),
        pos(1, 2),
        pos(2, 3),
        pos(3, 4),
        pos(7, 2),
        pos(6, 3),
        pos(5, 4),
    ];
    expected_result.sort();
    assert_eq!(result, expected_result)
}

#[test]
fn rook() {
    let mut board = Board::new();
    board.move_piece(pos(0, 0), pos(3, 4)).unwrap();
    let mut result = board.check_positions(pos(3, 4)).unwrap();
    result.sort();
    let mut expected_result = vec![
        pos(0, 4),
        pos(1, 4),
        pos(2, 4),
        pos(4, 4),
        pos(5, 4),
        pos(6, 4),
        pos(7, 4),
        pos(3, 2),
        pos(3, 3),
        pos(3, 5),
        pos(3, 6),
    ];
    expected_result.sort();
    assert_eq!(result, expected_result)
}

#[test]
fn queen() {
    let mut board = Board::new();
    board.move_piece(pos(3, 7), pos(1, 3)).unwrap();
    let mut result = board.check_positions(pos(1, 3)).unwrap();
    result.sort();
    let mut expected_result = vec![
        pos(0, 3),
        pos(2, 3),
        pos(3, 3),
        pos(4, 3),
        pos(5, 3),
        pos(6, 3),
        pos(7, 3),
        pos(1, 1),
        pos(1, 2),
        pos(1, 4),
        pos(1, 5),
        pos(0, 2),
        pos(2, 4),
        pos(3, 5),
        pos(0, 4),
        pos(2, 2),
        pos(3, 1),
    ];
    expected_result.sort();
    assert_eq!(result, expected_result)
}

#[test]
fn cardinal_directions() {
    let board = Board::new();
    let mut result = board.check_directions(
        pos(3, 4),
        vec![Direction::N, Direction::E, Direction::S, Direction::W],
        Color::White,
    );
    result.sort();
    let mut expected_result = vec![
        pos(0, 4),
        pos(1, 4),
        pos(2, 4),
        pos(4, 4),
        pos(5, 4),
        pos(6, 4),
        pos(7, 4),
        pos(3, 2),
        pos(3, 3),
        pos(3, 5),
        pos(3, 6),
    ];
    expected_result.sort();
    assert_eq!(result, expected_result)
}

#[test]
fn diagonal_directions() {
    let board = Board::new();
    let mut result = board.check_directions(
        pos(4, 5),
        vec![Direction::NE, Direction::SE, Direction::SW, Direction::NW],
        Color::Black,
    );
    result.sort();
    let mut expected_result = vec![
        pos(0, 1),
        pos(1, 2),
        pos(2, 3),
        pos(3, 4),
        pos(7, 2),
        pos(6, 3),
        pos(5, 4),
    ];
    expected_result.sort();
    assert_eq!(result, expected_result)
}

#[test]
fn all_directions() {
    let board = Board::new();
    let mut result = board.check_directions(
        pos(1, 3),
        vec![
            Direction::N,
            Direction::NE,
            Direction::E,
            Direction::SE,
            Direction::S,
            Direction::SW,
            Direction::W,
            Direction::NW,
        ],
        Color::Black,
    );
    result.sort();
    let mut expected_result = vec![
        pos(0, 3),
        pos(2, 3),
        pos(3, 3),
        pos(4, 3),
        pos(5, 3),
        pos(6, 3),
        pos(7, 3),
        pos(1, 1),
        pos(1, 2),
        pos(1, 4),
        pos(1, 5),
        pos(0, 2),
        pos(2, 4),
        pos(3, 5),
        pos(0, 4),
        pos(2, 2),
        pos(3, 1),
    ];
    expected_result.sort();
    assert_eq!(result, expected_result)
}

#[test]
fn no_move_n() {
    let board = Board::new();
    assert_eq!(board.check_direction(pos(4, 0), Direction::N, Color::White), vec![]);
}

#[test]
fn no_move_w() {
    let board = Board::new();
    assert_eq!(board.check_direction(pos(5, 1), Direction::W, Color::White), vec![]);
}

#[test]
fn edge_board_e() {
    let board = Board::new();
    assert_eq!(board.check_direction(pos(6, 5), Direction::E, Color::White), vec![pos(7, 5)]);
}

#[test]
fn edge_board_s() {
    let board = Board::new();
    assert_eq!(board.check_direction(pos(3, 0), Direction::S, Color::White), vec![]);
}

#[test]
fn from_edge_e() {
    let board = Board::new();
    let mut result = board.check_direction(pos(0, 2), Direction::E, Color::White);
    result.sort();
    let mut expected_result = vec![
        pos(1, 2),
        pos(2, 2),
        pos(3, 2),
        pos(4, 2),
        pos(5, 2),
        pos(6, 2),
        pos(7, 2),
    ];
    expected_result.sort();
    assert_eq!(result, expected_result);
}

#[test]
fn from_edge_w() {
    let board = Board::new();
    let mut result = board.check_direction(pos(7, 4), Direction::W, Color::White);
    result.sort();
    let mut expected_result = vec![
        pos(0, 4),
        pos(1, 4),
        pos(2, 4),
        pos(3, 4),
        pos(4, 4),
        pos(5, 4),
        pos(6, 4),
    ];
    expected_result.sort();
    assert_eq!(result, expected_result);
}

#[test]
fn take_piece_ne() {
    let board = Board::new();
    let mut result = board.check_direction(pos(2, 2), Direction::NE, Color::White);
    result.sort();
    let mut expected_result = vec![pos(3, 3), pos(4, 4), pos(5, 5), pos(6, 6)];
    expected_result.sort();
    assert_eq!(result, expected_result);
}

#[test]
fn take_piece_sw() {
    let board = Board::new();
    let mut result = board.check_direction(pos(4, 3), Direction::SW, Color::Black);
    result.sort();
    let mut expected_result = vec![pos(3, 2), pos(2, 1)];
    expected_result.sort();
    assert_eq!(result, expected_result);
}

#[test]
fn first_move_white() {
    let board = Board::new();
    let mut result = board.check_pawn(pos(3, 3), Color::White, false);
    result.sort();
    let mut expected_result = vec![pos(3, 4), pos(3, 5)];
    expected_result.sort();
    assert_eq!(result, expected_result);
}

#[test]
fn first_move_black() {
    let board = Board::new();
    let mut result = board.check_pawn(pos(6, 5), Color::Black, false);
    result.sort();
    let mut expected_result = vec![pos(6, 4), pos(6, 3)];
    expected_result.sort();
    assert_eq!(result, expected_result);
}

#[test]
fn take_two_white() {
    let board = Board::new();
    let mut result = board.check_pawn(pos(6, 5), Color::White, true);
    result.sort();
    let mut expected_result = vec![pos(5, 6), pos(7, 6)];
    expected_result.sort();
    assert_eq!(result, expected_result);
}

#[test]
fn take_one_black() {
    let mut board = Board::new();
    board.move_piece(pos(2, 1), pos(2, 3)).unwrap();
    let mut result = board.check_pawn(pos(3, 4), Color::Black, true);
    result.sort();
    let mut expected_result = vec![pos(2, 3), pos(3, 3)];
    expected_result.sort();
    assert_eq!(result, expected_result);
}

#[test]
fn no_edge() {
    let board = Board::new();
    let mut result = board.check_knight(pos(3, 5), Color::White);
    result.sort();
    let mut expected_result = vec![
        pos(2, 7),
        pos(4, 7),
        pos(1, 6),
        pos(5, 6),
        pos(5, 4),
        pos(1, 4),
        pos(2, 3),
        pos(4, 3),
    ];
    expected_result.sort();
    assert_eq!(result, expected_result);
}

#[test]
fn near_edge() {
    let board = Board::new();
    let mut result = board.check_knight(pos(0, 5), Color::Black);
    result.sort();
    let mut expected_result = vec![pos(2, 4), pos(1, 3)];
    expected_result.sort();
    assert_eq!(result, expected_result);
}

#[test]
fn near_friendlies() {
    let board = Board::new();
    let mut result = board.check_king(pos(3, 5), Color::Black);
    result.sort();
    let mut expected_result = vec![pos(2, 5), pos(2, 4), pos(3, 4), pos(4, 4), pos(4, 5)];
    expected_result.sort();
    assert_eq!(result, expected_result);
}

#[test]
fn must_take_empty() {
    let board = Board::new();
    assert_eq!(board.check_position(pos(4, 3), Color::White, true, true), false)
}

#[test]
fn must_take_enemy() {
    let board = Board::new();
    assert_eq!(board.check_position(pos(0, 1), Color::Black, true, true), true)
}

#[test]
fn must_take_friendly() {
    let board = Board::new();
    assert_eq!(board.check_position(pos(4, 1), Color::White, true, true), false)
}

#[test]
fn cannot_take() {
    let board = Board::new();
    assert_eq!(board.check_position(pos(6, 1), Color::Black, false, false), false)
}
