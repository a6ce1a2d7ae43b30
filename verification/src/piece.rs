use vstd::prelude::*;

verus! {

/// Chess piece colors.
#[derive(PartialEq, Eq, Clone, Copy, Debug, Structural)]
pub enum Color {
    White,
    Black,
}

impl Color {
    /// The direction a pawn of this color travels along the y axis:
    /// +1 for White, -1 for Black.
    pub open spec fn forward(self) -> int {
        match self {
            Color::White => 1,
            Color::Black => -1,
        }
    }

    /// Returns the pawn-direction sign of this color.
    pub fn forward_sign(self) -> (s: i8)
        ensures
            s as int == self.forward(),
    {
        match self {
            Color::White => 1,
            Color::Black => -1,
        }
    }
}

/// Piece types.
#[derive(PartialEq, Eq, Clone, Copy, Debug, Structural)]
pub enum PieceType {
    Pawn,
    Knight,
    Bishop,
    Rook,
    Queen,
    King,
}

/// Chess piece.
#[derive(PartialEq, Eq, Clone, Copy, Debug, Structural)]
pub struct Piece {
    pub color: Color,
    pub piece_type: PieceType,
    pub moved: bool,
}

impl Piece {
    /// Creates a new chess piece, initialized with moved = false.
    pub fn new(color: Color, piece_type: PieceType) -> (p: Piece)
        ensures
            p == (Piece { color, piece_type, moved: false }),
    {
        Piece { color, piece_type, moved: false }
    }
}

} // verus!
