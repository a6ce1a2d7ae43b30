mod grid;
pub mod laws;
pub mod layout;
pub mod mailbox;
pub mod moves;

pub use mailbox::Board;

use crate::error::{OffsetOutOfBounds, PieceError, PositionOutOfBounds};
use crate::piece::PieceType;
use std::collections::HashSet;
use vstd::prelude::*;

verus! {

/// True when the pair (x, y) lies on the 8x8 board.
pub open spec fn on_board(p: (int, int)) -> bool {
    0 <= p.0 < 8 && 0 <= p.1 < 8
}

/// Position on chess board.
///
/// (0, 0) is A1, (7, 7) is H8 etc. Every value of this type lies on the
/// board: the only constructors validate their inputs.
#[derive(PartialEq, Eq, PartialOrd, Ord, Clone, Copy, Debug, Structural)]
pub struct Position {
    x: u8,
    y: u8,
}

impl View for Position {
    type V = (int, int);

    closed spec fn view(&self) -> (int, int) {
        (self.x as int, self.y as int)
    }
}

impl Position {
    #[verifier::type_invariant]
    spec fn bounded(self) -> bool {
        self.x < 8 && self.y < 8
    }

    /// Creates a new position (x, y).
    ///
    /// Returns a `PositionOutOfBounds` error unless x and y are both less
    /// than 8.
    pub fn new(x: u8, y: u8) -> (r: Result<Self, PositionOutOfBounds>)
        ensures
            r is Ok <==> (x < 8 && y < 8),
            r is Ok ==> r.unwrap()@ == (x as int, y as int),
            r is Err ==> r.unwrap_err() == (PositionOutOfBounds { x: x as isize, y: y as isize }),
    {
        if x < 8 && y < 8 {
            Ok(Self { x, y })
        } else {
            Err(PositionOutOfBounds { x: x as isize, y: y as isize })
        }
    }

    /// Returns the horizontal coordinate (the file).
    pub fn x(&self) -> (r: u8)
        ensures
            r as int == self@.0,
            r < 8,
    {
        proof {
            use_type_invariant(self);
        }
        self.x
    }

    /// Returns the vertical coordinate (the rank).
    pub fn y(&self) -> (r: u8)
        ensures
            r as int == self@.1,
            r < 8,
    {
        proof {
            use_type_invariant(self);
        }
        self.y
    }

    /// Adds an offset to this position componentwise, revalidating the
    /// result: the sum is returned iff it still lies on the board.
    pub fn add(self, rhs: Offset) -> (r: Result<Self, PositionOutOfBounds>)
        ensures
            r is Ok <==> on_board((self@.0 + rhs@.0, self@.1 + rhs@.1)),
            r is Ok ==> r.unwrap()@ == (self@.0 + rhs@.0, self@.1 + rhs@.1),
            r is Err ==> r.unwrap_err() == (PositionOutOfBounds {
                x: (self@.0 + rhs@.0) as isize,
                y: (self@.1 + rhs@.1) as isize,
            }),
    {
        proof {
            use_type_invariant(self);
            use_type_invariant(rhs);
        }
        let new_x: i8 = self.x as i8 + rhs.x;
        let new_y: i8 = self.y as i8 + rhs.y;
        if 0 <= new_x && new_x < 8 && 0 <= new_y && new_y < 8 {
            Ok(Self { x: new_x as u8, y: new_y as u8 })
        } else {
            Err(PositionOutOfBounds { x: new_x as isize, y: new_y as isize })
        }
    }
}

/// Offset to a position on a chess board. Can be added to a position.
#[derive(PartialEq, Eq, PartialOrd, Ord, Clone, Copy, Debug, Structural)]
pub struct Offset {
    x: i8,
    y: i8,
}

impl View for Offset {
    type V = (int, int);

    closed spec fn view(&self) -> (int, int) {
        (self.x as int, self.y as int)
    }
}

impl Offset {
    #[verifier::type_invariant]
    spec fn bounded(self) -> bool {
        -8 < self.x < 8 && -8 < self.y < 8
    }

    /// Creates a new offset (x, y).
    ///
    /// Returns an `OffsetOutOfBounds` error unless x and y are both strictly
    /// between -8 and 8.
    pub fn new(x: i8, y: i8) -> (r: Result<Self, OffsetOutOfBounds>)
        ensures
            r is Ok <==> (-8 < x < 8 && -8 < y < 8),
            r is Ok ==> r.unwrap()@ == (x as int, y as int),
            r is Err ==> r.unwrap_err() == (OffsetOutOfBounds { x, y }),
    {
        if -8 < x && x < 8 && -8 < y && y < 8 {
            Ok(Self { x, y })
        } else {
            Err(OffsetOutOfBounds { x, y })
        }
    }
}

/// Directions a piece can move. Cardinal and ordinal directions.
#[derive(PartialEq, Eq, PartialOrd, Ord, Clone, Copy, Debug, Structural)]
pub enum Direction {
    N,
    NE,
    E,
    SE,
    S,
    SW,
    W,
    NW,
}

impl Direction {
    /// The unit step of this direction, as a pair of coordinate deltas.
    pub open spec fn delta(self) -> (int, int) {
        match self {
            Direction::N => (0, 1),
            Direction::NE => (1, 1),
            Direction::E => (1, 0),
            Direction::SE => (1, -1),
            Direction::S => (0, -1),
            Direction::SW => (-1, -1),
            Direction::W => (-1, 0),
            Direction::NW => (-1, 1),
        }
    }

    /// Returns the unit offset of this direction.
    pub fn unit_offset(self) -> (o: Offset)
        ensures
            o@ == self.delta(),
    {
        match self {
            Direction::N => Offset { x: 0, y: 1 },
            Direction::NE => Offset { x: 1, y: 1 },
            Direction::E => Offset { x: 1, y: 0 },
            Direction::SE => Offset { x: 1, y: -1 },
            Direction::S => Offset { x: 0, y: -1 },
            Direction::SW => Offset { x: -1, y: -1 },
            Direction::W => Offset { x: -1, y: 0 },
            Direction::NW => Offset { x: -1, y: 1 },
        }
    }
}

/// Relocation of one piece from one square to another.
pub struct Move {
    pub from_position: Position,
    pub to_position: Position,
}

/// Removal of the piece at a square.
pub struct Take {
    pub position: Position,
}

/// Replacement of the piece at a square by one of the given type.
pub struct Promote {
    pub position: Position,
    pub piece_type: PieceType,
}

/// A complete chess move, possibly composed of several board actions.
pub enum ChessMove {
    Move(Move),
    MoveWithTake(Move, Take),
    Castle(Move, Move),
    Promote(Move, Promote),
}

pub trait MovePiece {
    /// Move a piece on the board.
    ///
    /// Will not check that the move is legal. Returns `PieceError::NotFound`
    /// if there is no piece at `from_position`, and `PieceError::Occupied`
    /// if there is already a piece at `to_position`.
    fn move_piece(&self, from_position: Position, to_position: Position) -> Result<(), PieceError>;
}

pub trait TakePiece {
    /// Take a piece on the board.
    ///
    /// Returns `PieceError::NotFound` if there is no piece at `position`.
    fn take_piece(&self, position: Position) -> Result<(), PieceError>;
}

pub trait PromotePiece {
    /// Promote a piece on the board.
    ///
    /// Does not check that the promotion is legal. Returns
    /// `PieceError::NotFound` if there is no piece at `position`.
    fn promote_piece(&self, position: Position, piece_type: PieceType) -> Result<(), PieceError>;
}

pub trait ExecuteMove: MovePiece + TakePiece + PromotePiece {
    /// Execute a chess move on the board.
    ///
    /// Will not check that the move is legal. Returns
    /// `PieceError::NotFound` if the move attempts to move, take or promote
    /// a piece that does not exist, and `PieceError::Occupied` if it
    /// attempts to move a piece to a square that is already occupied.
    fn execute_move(&self, chess_move: ChessMove) -> Result<(), PieceError> {
        match chess_move {
            ChessMove::Move(movement) => {
                self.move_piece(movement.from_position, movement.to_position)?;
            },
            ChessMove::MoveWithTake(movement, take) => {
                self.take_piece(take.position)?;
                self.move_piece(movement.from_position, movement.to_position)?;
            },
            ChessMove::Castle(movement_1, movement_2) => {
                self.move_piece(movement_1.from_position, movement_1.to_position)?;
                self.move_piece(movement_2.from_position, movement_2.to_position)?;
            },
            ChessMove::Promote(movement, promotion) => {
                self.move_piece(movement.from_position, movement.to_position)?;
                self.promote_piece(promotion.position, promotion.piece_type)?;
            },
        }
        Ok(())
    }
}

pub trait PseudoLegalMoves {
    /// Generate pseudo legal moves for the piece at `position`.
    ///
    /// Returns `PieceError::NotFound` if there is no piece at `position`.
    fn pseudo_legal_moves(&self, position: Position) -> Result<HashSet<ChessMove>, PieceError>;
}

pub trait LegalMoves {
    /// Generate legal moves for the piece at `position`.
    ///
    /// Returns `PieceError::NotFound` if there is no piece at `position`.
    fn legal_moves(&self, position: Position) -> Result<HashSet<ChessMove>, PieceError>;
}

} // verus!
