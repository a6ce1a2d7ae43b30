use crate::board::Position;
use crate::piece::PieceType;
use vstd::prelude::*;

verus! {

/// Error raised by board operations that need a piece at a given square, or a
/// free destination square.
#[derive(PartialEq, Eq, Clone, Copy, Debug, Structural)]
pub enum PieceError {
    /// No piece is present at the position.
    NotFound(Position),
    /// A piece of the given type already occupies the position.
    Occupied(Position, PieceType),
}

/// Error if a position is outside of a chess board.
#[derive(PartialEq, Eq, Clone, Copy, Debug, Structural)]
pub struct PositionOutOfBounds {
    pub x: isize,
    pub y: isize,
}

/// Error if an offset is larger than possible for a chess board.
#[derive(PartialEq, Eq, Clone, Copy, Debug, Structural)]
pub struct OffsetOutOfBounds {
    pub x: i8,
    pub y: i8,
}

} // verus!
