//! The standard starting arrangement of the pieces.

use crate::board::on_board;
use crate::piece::{Color, Piece, PieceType};
use vstd::prelude::*;

verus! {

/// The piece type on the back rank at file x in the standard starting
/// arrangement: Rook, Knight, Bishop, Queen, King, Bishop, Knight, Rook.
pub open spec fn back_rank_type(x: int) -> PieceType {
    if x == 0 || x == 7 {
        PieceType::Rook
    } else if x == 1 || x == 6 {
        PieceType::Knight
    } else if x == 2 || x == 5 {
        PieceType::Bishop
    } else if x == 3 {
        PieceType::Queen
    } else {
        PieceType::King
    }
}

/// The occupant of square (x, y) in the standard starting arrangement:
/// white pieces on ranks 0 and 1, black pieces on ranks 6 and 7, all with
/// their moved flag cleared.
pub open spec fn initial_piece(x: int, y: int) -> Option<Piece> {
    if y == 0 {
        Some(Piece { color: Color::White, piece_type: back_rank_type(x), moved: false })
    } else if y == 1 {
        Some(Piece { color: Color::White, piece_type: PieceType::Pawn, moved: false })
    } else if y == 6 {
        Some(Piece { color: Color::Black, piece_type: PieceType::Pawn, moved: false })
    } else if y == 7 {
        Some(Piece { color: Color::Black, piece_type: back_rank_type(x), moved: false })
    } else {
        None
    }
}

/// The standard starting position as a map from square (x, y) to occupant.
pub open spec fn initial_board() -> Map<(int, int), Option<Piece>> {
    Map::new(|p: (int, int)| on_board(p), |p: (int, int)| initial_piece(p.0, p.1))
}

/// Returns the occupant of square (x, y) in the standard starting
/// arrangement.
pub fn initial_piece_at(x: u8, y: u8) -> (r: Option<Piece>)
    requires
        x < 8,
        y < 8,
    ensures
        r == initial_piece(x as int, y as int),
{
    if y == 0 || y == 7 {
        let color = if y == 0 {
            Color::White
        } else {
            Color::Black
        };
        let piece_type = if x == 0 || x == 7 {
            PieceType::Rook
        } else if x == 1 || x == 6 {
            PieceType::Knight
        } else if x == 2 || x == 5 {
            PieceType::Bishop
        } else if x == 3 {
            PieceType::Queen
        } else {
            PieceType::King
        };
        Some(Piece::new(color, piece_type))
    } else if y == 1 {
        Some(Piece::new(Color::White, PieceType::Pawn))
    } else if y == 6 {
        Some(Piece::new(Color::Black, PieceType::Pawn))
    } else {
        None
    }
}

} // verus!
