//! The mailbox board: an 8x8 grid of optional pieces.

use crate::board::grid::{grid_cells, grid_filled, grid_get, grid_set};
use crate::board::layout::{initial_board, initial_piece, initial_piece_at};
use crate::board::laws::lemma_piece_positions_no_duplicates;
use crate::board::moves::{
    bishop_directions, can_enter, directions_positions, king_deltas, knight_deltas,
    lemma_direction_delta_unit, lemma_position_views_add, lemma_position_views_push,
    lemma_step_off_board, lemma_step_succ, lemma_step_zero, offset_positions, offset_views,
    pawn_candidate, pawn_positions, piece_positions, position_views, queen_directions,
    ray_positions, rook_directions, step,
};
use crate::board::{on_board, Direction, Offset, Position};
use crate::error::PieceError;
use crate::piece::{Color, Piece, PieceType};
use vstd::prelude::*;

verus! {

/// Standard 8x8 chess board. Keeps track of positions of pieces.
///
/// Has the capability to check the possible positions a piece could move to.
/// It does not keep track of any game state, and therefore will not account
/// for checks, pins or blocks.
pub struct Board {
    pieces: array2d::Array2D<Option<Piece>>,
}

impl View for Board {
    type V = Map<(int, int), Option<Piece>>;

    /// The board as a map from square (x, y) to occupant; the underlying
    /// grid is stored in row major order, with the rank as the row.
    closed spec fn view(&self) -> Map<(int, int), Option<Piece>> {
        Map::new(|p: (int, int)| on_board(p), |p: (int, int)| grid_cells(self.pieces)[(p.1, p.0)])
    }
}

impl Default for Board {
    /// The default board is the standard starting position.
    fn default() -> (r: Board)
        ensures
            r.wf(),
            r@ == initial_board(),
    {
        Board::new()
    }
}

impl Board {
    /// Well-formed: the underlying grid is a fully allocated 8x8 array.
    pub closed spec fn wf(&self) -> bool {
        forall|r: int, c: int|
            grid_cells(self.pieces).dom().contains((r, c)) <==> (0 <= r < 8 && 0 <= c < 8)
    }

    /// Creates a chess board with the standard starting layout.
    pub fn new() -> (r: Board)
        ensures
            r.wf(),
            r@ == initial_board(),
    {
        let mut pieces = grid_filled(None, 8, 8);
        let mut y: u8 = 0;
        while y < 8
            invariant
                y <= 8,
                forall|r: int, c: int|
                    grid_cells(pieces).dom().contains((r, c)) <==> (0 <= r < 8 && 0 <= c < 8),
                forall|r: int, c: int|
                    0 <= r < y && 0 <= c < 8 ==> grid_cells(pieces)[(r, c)] == initial_piece(c, r),
            decreases 8 - y,
        {
            let mut x: u8 = 0;
            while x < 8
                invariant
                    x <= 8,
                    y < 8,
                    forall|r: int, c: int|
                        grid_cells(pieces).dom().contains((r, c)) <==> (0 <= r < 8 && 0 <= c < 8),
                    forall|r: int, c: int|
                        0 <= r < y && 0 <= c < 8 ==> grid_cells(pieces)[(r, c)] == initial_piece(
                            c,
                            r,
                        ),
                    forall|c: int|
                        0 <= c < x ==> grid_cells(pieces)[(y as int, c)] == initial_piece(
                            c,
                            y as int,
                        ),
                decreases 8 - x,
            {
                grid_set(&mut pieces, y as usize, x as usize, initial_piece_at(x, y));
                x += 1;
            }
            y += 1;
        }
        let r = Board { pieces };
        proof {
            assert(r@ =~= initial_board());
        }
        r
    }

    /// Returns the occupant of the given square, or None if it is empty.
    pub fn index(&self, index: Position) -> (r: Option<Piece>)
        requires
            self.wf(),
        ensures
            r == self@[index@],
    {
        proof {
            use_type_invariant(index);
        }
        grid_get(&self.pieces, index.y as usize, index.x as usize)
    }

    /// Moves the piece at `from_position` to the empty square `to_position`,
    /// setting its moved flag.
    ///
    /// Does not check that the move obeys the movement rules of the piece.
    /// Fails with `PieceError::Occupied` if the destination already holds a
    /// piece (the caller must take it first), and with `PieceError::NotFound`
    /// if there is no piece at `from_position`; on failure the board is
    /// unchanged.
    pub fn move_piece(&mut self, from_position: Position, to_position: Position) -> (r: Result<
        (),
        PieceError,
    >)
        requires
            old(self).wf(),
        ensures
            final(self).wf(),
            r is Ok <==> (old(self)@[to_position@] is None && old(self)@[from_position@] is Some),
            old(self)@[to_position@] is Some ==> r == Err::<(), PieceError>(
                PieceError::Occupied(to_position, old(self)@[to_position@].unwrap().piece_type),
            ) && final(self)@ == old(self)@,
            old(self)@[to_position@] is None && old(self)@[from_position@] is None ==> r
                == Err::<(), PieceError>(PieceError::NotFound(from_position)) && final(self)@
                == old(self)@,
            r is Ok ==> final(self)@ == old(self)@.insert(from_position@, None).insert(
                to_position@,
                Some(
                    (Piece {
                        color: old(self)@[from_position@].unwrap().color,
                        piece_type: old(self)@[from_position@].unwrap().piece_type,
                        moved: true,
                    }),
                ),
            ),
    {
        proof {
            use_type_invariant(from_position);
            use_type_invariant(to_position);
        }
        if let Some(piece) = self.index(to_position) {
            return Err(PieceError::Occupied(to_position, piece.piece_type));
        }
        let piece = match self.index(from_position) {
            Some(piece) => piece,
            None => {
                return Err(PieceError::NotFound(from_position));
            },
        };
        let moved_piece = Piece { color: piece.color, piece_type: piece.piece_type, moved: true };
        grid_set(&mut self.pieces, from_position.y as usize, from_position.x as usize, None);
        grid_set(
            &mut self.pieces,
            to_position.y as usize,
            to_position.x as usize,
            Some(moved_piece),
        );
        proof {
            assert(self@ =~= old(self)@.insert(from_position@, None).insert(
                to_position@,
                Some(moved_piece),
            ));
        }
        Ok(())
    }

    /// Removes the piece at `position`.
    ///
    /// Fails with `PieceError::NotFound` if the square is empty; the board
    /// is then unchanged.
    pub fn take_piece(&mut self, position: Position) -> (r: Result<(), PieceError>)
        requires
            old(self).wf(),
        ensures
            final(self).wf(),
            r is Ok <==> old(self)@[position@] is Some,
            r is Ok ==> final(self)@ == old(self)@.insert(position@, None),
            r is Err ==> r == Err::<(), PieceError>(PieceError::NotFound(position)) && final(self)@
                == old(self)@,
    {
        proof {
            use_type_invariant(position);
        }
        match self.index(position) {
            Some(_) => {
                grid_set(&mut self.pieces, position.y as usize, position.x as usize, None);
                proof {
                    assert(self@ =~= old(self)@.insert(position@, None));
                }
                Ok(())
            },
            None => Err(PieceError::NotFound(position)),
        }
    }

    /// Checks whether a piece of color `color` could move onto `position`,
    /// under the given capture policy.
    pub fn check_position(&self, position: Position, color: Color, can_take: bool, must_take: bool) -> (r: bool)
        requires
            self.wf(),
        ensures
            r == can_enter(self@, position@, color, can_take, must_take),
    {
        let piece = match self.index(position) {
            Some(piece) => piece,
            None => {
                return !must_take;
            },
        };
        if piece.color == color {
            false
        } else {
            can_take
        }
    }

    /// Scans one direction from `position` and returns the squares a sliding
    /// piece of color `color` could move to along it, nearest first.
    pub fn check_direction(&self, position: Position, direction: Direction, color: Color) -> (r:
        Vec<Position>)
        requires
            self.wf(),
        ensures
            position_views(r@) == ray_positions(self@, position@, direction.delta(), color, 8),
    {
        let ghost full = ray_positions(self@, position@, direction.delta(), color, 8);
        let mut positions: Vec<Position> = Vec::new();
        let offset = direction.unit_offset();
        let mut current = position;
        proof {
            use_type_invariant(position);
            lemma_direction_delta_unit(direction);
            lemma_step_zero(position@, direction.delta());
            assert(position_views(positions@) + full =~= full);
        }
        loop
            invariant_except_break
                self.wf(),
                offset@ == direction.delta(),
                on_board(position@),
                positions@.len() <= 7,
                current@ == step(position@, direction.delta(), positions@.len() as int),
                on_board(current@),
                full == position_views(positions@) + ray_positions(
                    self@,
                    current@,
                    direction.delta(),
                    color,
                    (8 - positions@.len()) as nat,
                ),
            ensures
                position_views(positions@) == full,
            decreases 8 - positions@.len(),
        {
            let ghost fuel: nat = (8 - positions@.len()) as nat;
            let next = match current.add(offset) {
                Ok(next) => next,
                Err(_) => {
                    proof {
                        assert(ray_positions(self@, current@, direction.delta(), color, fuel)
                            =~= Seq::<(int, int)>::empty());
                        assert(position_views(positions@) + Seq::<(int, int)>::empty()
                            =~= position_views(positions@));
                    }
                    break;
                },
            };
            let piece = match self.index(next) {
                None => {
                    proof {
                        lemma_direction_delta_unit(direction);
                        lemma_step_succ(position@, direction.delta(), positions@.len() as int);
                        assert(positions@.len() < 7) by {
                            if positions@.len() >= 7 {
                                lemma_step_off_board(
                                    position@,
                                    direction.delta(),
                                    positions@.len() as int + 1,
                                );
                            }
                        }
                        lemma_position_views_push(positions@, next);
                        assert((position_views(positions@) + ray_positions(
                            self@,
                            current@,
                            direction.delta(),
                            color,
                            fuel,
                        )) =~= (position_views(positions@.push(next)) + ray_positions(
                            self@,
                            next@,
                            direction.delta(),
                            color,
                            (fuel - 1) as nat,
                        )));
                    }
                    positions.push(next);
                    current = next;
                    continue;
                },
                Some(piece) => piece,
            };
            if piece.color == color {
                proof {
                    assert(position_views(positions@) + Seq::<(int, int)>::empty()
                        =~= position_views(positions@));
                }
            } else {
                proof {
                    lemma_position_views_push(positions@, next);
                    assert((position_views(positions@) + seq![next@]) =~= position_views(
                        positions@.push(next),
                    ));
                }
                positions.push(next);
            }
            break;
        }
        positions
    }

    /// Checks each direction in turn and returns every square a sliding
    /// piece of color `color` could move to from `position` along them.
    pub fn check_directions(
        &self,
        position: Position,
        directions: Vec<Direction>,
        color: Color,
    ) -> (out: Vec<Position>)
        requires
            self.wf(),
        ensures
            position_views(out@) == directions_positions(self@, position@, directions@, color),
    {
        let ghost full = directions_positions(self@, position@, directions@, color);
        let mut out: Vec<Position> = Vec::new();
        let mut i: usize = 0;
        proof {
            assert(directions@.skip(0) =~= directions@);
            assert(position_views(out@) + full =~= full);
        }
        while i < directions.len()
            invariant
                self.wf(),
                i <= directions@.len(),
                full == directions_positions(self@, position@, directions@, color),
                full == position_views(out@) + directions_positions(
                    self@,
                    position@,
                    directions@.skip(i as int),
                    color,
                ),
            decreases directions@.len() - i,
        {
            let direction = directions[i];
            let mut ray = self.check_direction(position, direction, color);
            proof {
                lemma_position_views_add(out@, ray@);
                assert(directions@.skip(i as int).skip(1) =~= directions@.skip(i as int + 1));
                assert((position_views(out@) + position_views(ray@)) + directions_positions(
                    self@,
                    position@,
                    directions@.skip(i as int + 1),
                    color,
                ) =~= position_views(out@) + (position_views(ray@) + directions_positions(
                    self@,
                    position@,
                    directions@.skip(i as int + 1),
                    color,
                )));
            }
            out.append(&mut ray);
            i += 1;
        }
        proof {
            assert(directions@.skip(directions@.len() as int) =~= Seq::<Direction>::empty());
            assert(position_views(out@) + Seq::<(int, int)>::empty() =~= position_views(out@));
        }
        out
    }

    /// Evaluates each fixed offset once and returns the squares a
    /// non-sliding piece of color `color` could move to from `position`.
    fn check_offsets(&self, position: Position, offsets: &Vec<Offset>, color: Color) -> (r: Vec<
        Position,
    >)
        requires
            self.wf(),
        ensures
            position_views(r@) == offset_positions(self@, position@, offset_views(offsets@), color),
    {
        let ghost deltas = offset_views(offsets@);
        let ghost full = offset_positions(self@, position@, deltas, color);
        let mut positions: Vec<Position> = Vec::new();
        let mut i: usize = 0;
        proof {
            assert(deltas.skip(0) =~= deltas);
            assert(position_views(positions@) + full =~= full);
        }
        while i < offsets.len()
            invariant
                self.wf(),
                i <= offsets@.len(),
                deltas == offset_views(offsets@),
                full == offset_positions(self@, position@, deltas, color),
                full == position_views(positions@) + offset_positions(
                    self@,
                    position@,
                    deltas.skip(i as int),
                    color,
                ),
            decreases offsets@.len() - i,
        {
            proof {
                assert(deltas.skip(i as int).skip(1) =~= deltas.skip(i as int + 1));
            }
            let ghost rest = offset_positions(self@, position@, deltas.skip(i as int + 1), color);
            match position.add(offsets[i]) {
                Ok(q) => {
                    if self.check_position(q, color, true, false) {
                        proof {
                            lemma_position_views_push(positions@, q);
                            assert((position_views(positions@) + (seq![q@] + rest)) =~= (
                            position_views(positions@.push(q)) + rest));
                        }
                        positions.push(q);
                    } else {
                        proof {
                            assert((position_views(positions@) + (Seq::<(int, int)>::empty()
                                + rest)) =~= (position_views(positions@) + rest));
                        }
                    }
                },
                Err(_) => {
                    proof {
                        assert((position_views(positions@) + (Seq::<(int, int)>::empty() + rest))
                            =~= (position_views(positions@) + rest));
                    }
                },
            }
            i += 1;
        }
        proof {
            assert(deltas.skip(deltas.len() as int) =~= Seq::<(int, int)>::empty());
            assert(position_views(positions@) + Seq::<(int, int)>::empty() =~= position_views(
                positions@,
            ));
        }
        positions
    }

    /// Returns the squares a knight of color `color` could move to from
    /// `position`.
    pub fn check_knight(&self, position: Position, color: Color) -> (r: Vec<Position>)
        requires
            self.wf(),
        ensures
            position_views(r@) == offset_positions(self@, position@, knight_deltas(), color),
    {
        let mut offsets: Vec<Offset> = Vec::new();
        offsets.push(Offset { x: 2, y: 1 });
        offsets.push(Offset { x: -2, y: 1 });
        offsets.push(Offset { x: -2, y: -1 });
        offsets.push(Offset { x: 2, y: -1 });
        offsets.push(Offset { x: 1, y: 2 });
        offsets.push(Offset { x: -1, y: 2 });
        offsets.push(Offset { x: -1, y: -2 });
        offsets.push(Offset { x: 1, y: -2 });
        proof {
            assert(offset_views(offsets@) =~= knight_deltas());
        }
        self.check_offsets(position, &offsets, color)
    }

    /// Returns the squares a king of color `color` could move to from
    /// `position`. Does NOT check whether they are attacked.
    pub fn check_king(&self, position: Position, color: Color) -> (r: Vec<Position>)
        requires
            self.wf(),
        ensures
            position_views(r@) == offset_positions(self@, position@, king_deltas(), color),
    {
        let mut offsets: Vec<Offset> = Vec::new();
        offsets.push(Offset { x: 1, y: 1 });
        offsets.push(Offset { x: -1, y: 1 });
        offsets.push(Offset { x: -1, y: -1 });
        offsets.push(Offset { x: 1, y: -1 });
        offsets.push(Offset { x: 1, y: 0 });
        offsets.push(Offset { x: -1, y: 0 });
        offsets.push(Offset { x: 0, y: -1 });
        offsets.push(Offset { x: 0, y: 1 });
        proof {
            assert(offset_views(offsets@) =~= king_deltas());
        }
        self.check_offsets(position, &offsets, color)
    }

    /// Returns the squares a pawn of color `color` with the given moved
    /// flag could move to from `position`.
    pub fn check_pawn(&self, position: Position, color: Color, moved: bool) -> (r: Vec<Position>)
        requires
            self.wf(),
        ensures
            position_views(r@) == pawn_positions(self@, position@, color, moved),
    {
        let ghost v = self@;
        let ghost p = position@;
        let ghost sgn = color.forward();
        let ghost c1: Seq<(int, int)> = if !moved {
            pawn_candidate(v, p, (0, 2 * sgn), color, false, false)
        } else {
            Seq::empty()
        };
        let ghost c2 = pawn_candidate(v, p, (0, sgn), color, false, false);
        let ghost c3 = pawn_candidate(v, p, (1, sgn), color, true, true);
        let ghost c4 = pawn_candidate(v, p, (-1, sgn), color, true, true);
        let mut positions: Vec<Position> = Vec::new();
        let s = color.forward_sign();
        if !moved {
            if let Ok(q) = position.add(Offset { x: 0, y: 2 * s }) {
                if self.check_position(q, color, false, false) {
                    positions.push(q);
                }
            }
        }
        proof {
            assert(position_views(positions@) =~= c1);
        }
        if let Ok(q) = position.add(Offset { x: 0, y: s }) {
            if self.check_position(q, color, false, false) {
                proof {
                    lemma_position_views_push(positions@, q);
                }
                positions.push(q);
            }
        }
        proof {
            assert(position_views(positions@) =~= c1 + c2);
        }
        if let Ok(q) = position.add(Offset { x: 1, y: s }) {
            if self.check_position(q, color, true, true) {
                proof {
                    lemma_position_views_push(positions@, q);
                }
                positions.push(q);
            }
        }
        proof {
            assert(position_views(positions@) =~= (c1 + c2) + c3);
        }
        if let Ok(q) = position.add(Offset { x: -1, y: s }) {
            if self.check_position(q, color, true, true) {
                proof {
                    lemma_position_views_push(positions@, q);
                }
                positions.push(q);
            }
        }
        proof {
            assert(position_views(positions@) =~= ((c1 + c2) + c3) + c4);
        }
        positions
    }

    /// Takes in the position of a piece, returns all positions it could
    /// move to.
    ///
    /// The order of the returned vector is arbitrary, and should not be
    /// relied on (when checking against another vector for equality, both
    /// should be sorted). Fails with `PieceError::NotFound` iff the square
    /// is empty.
    pub fn check_positions(&self, position: Position) -> (r: Result<Vec<Position>, PieceError>)
        requires
            self.wf(),
        ensures
            r is Ok <==> self@[position@] is Some,
            r is Err ==> r == Err::<Vec<Position>, PieceError>(PieceError::NotFound(position)),
            r is Ok ==> position_views(r.unwrap()@) == piece_positions(self@, position@),
            r is Ok ==> r.unwrap()@.no_duplicates(),
    {
        let piece = match self.index(position) {
            Some(piece) => piece,
            None => {
                return Err(PieceError::NotFound(position));
            },
        };
        let positions =
            match piece.piece_type {
                PieceType::Pawn => self.check_pawn(position, piece.color, piece.moved),
                PieceType::Knight => self.check_knight(position, piece.color),
                PieceType::Bishop => {
                    let directions = vec![
                        Direction::NE,
                        Direction::SE,
                        Direction::SW,
                        Direction::NW,
                    ];
                    proof {
                        assert(directions@ =~= bishop_directions());
                    }
                    self.check_directions(position, directions, piece.color)
                },
                PieceType::Rook => {
                    let directions = vec![Direction::N, Direction::E, Direction::S, Direction::W];
                    proof {
                        assert(directions@ =~= rook_directions());
                    }
                    self.check_directions(position, directions, piece.color)
                },
                PieceType::Queen => {
                    let directions = vec![
                        Direction::N,
                        Direction::NE,
                        Direction::E,
                        Direction::SE,
                        Direction::S,
                        Direction::SW,
                        Direction::W,
                        Direction::NW,
                    ];
                    proof {
                        assert(directions@ =~= queen_directions());
                    }
                    self.check_directions(position, directions, piece.color)
                },
                PieceType::King => self.check_king(position, piece.color),
            };
        proof {
            lemma_piece_positions_no_duplicates(self@, position@);
            assert forall|i: int, j: int|
                0 <= i < positions@.len() && 0 <= j < positions@.len() && i != j
                implies positions@[i] != positions@[j] by {
                assert(position_views(positions@)[i] == positions@[i]@);
                assert(position_views(positions@)[j] == positions@[j]@);
            }
        }
        Ok(positions)
    }
}

} // verus!
