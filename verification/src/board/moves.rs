//! The mathematical model of move generation: which squares each kind of
//! piece reaches on a given board.

use crate::board::{on_board, Direction, Position};
use crate::piece::{Color, Piece, PieceType};
use vstd::prelude::*;

verus! {

/// The square reached from p after k steps of delta d.
pub open spec fn step(p: (int, int), d: (int, int), k: int) -> (int, int) {
    (p.0 + k * d.0, p.1 + k * d.1)
}

/// A unit step: each component is -1, 0 or 1, and not both are zero.
pub open spec fn unit_delta(d: (int, int)) -> bool {
    (d.0 == -1 || d.0 == 0 || d.0 == 1) && (d.1 == -1 || d.1 == 0 || d.1 == 1) && !(d.0 == 0
        && d.1 == 0)
}

/// Every direction's delta is a unit step.
pub proof fn lemma_direction_delta_unit(dir: Direction)
    ensures
        unit_delta(dir.delta()),
{
}

/// Taking no steps stays in place.
pub proof fn lemma_step_zero(p: (int, int), d: (int, int))
    ensures
        step(p, d, 0) == p,
{
}

/// One more step of d moves by d.
pub proof fn lemma_step_succ(p: (int, int), d: (int, int), k: int)
    ensures
        step(p, d, k + 1) == (step(p, d, k).0 + d.0, step(p, d, k).1 + d.1),
{
    assert((k + 1) * d.0 == k * d.0 + d.0) by (nonlinear_arith);
    assert((k + 1) * d.1 == k * d.1 + d.1) by (nonlinear_arith);
}

/// A single step moves by exactly the delta.
pub proof fn lemma_step_one(p: (int, int), d: (int, int))
    ensures
        step(p, d, 1) == (p.0 + d.0, p.1 + d.1),
{
    assert(1 * d.0 == d.0) by (nonlinear_arith);
    assert(1 * d.1 == d.1) by (nonlinear_arith);
}

/// Stepping k times from the square one step away is stepping k + 1 times.
pub proof fn lemma_step_shift(p: (int, int), d: (int, int), k: int)
    ensures
        step((p.0 + d.0, p.1 + d.1), d, k) == step(p, d, k + 1),
{
    assert(d.0 + k * d.0 == (k + 1) * d.0) by (nonlinear_arith);
    assert(d.1 + k * d.1 == (k + 1) * d.1) by (nonlinear_arith);
}

/// Along a fixed unit delta, distinct step counts reach distinct squares.
pub proof fn lemma_step_injective(p: (int, int), d: (int, int), a: int, b: int)
    requires
        unit_delta(d),
        step(p, d, a) == step(p, d, b),
    ensures
        a == b,
{
    assert(a == b) by (nonlinear_arith)
        requires
            unit_delta(d),
            p.0 + a * d.0 == p.0 + b * d.0,
            p.1 + a * d.1 == p.1 + b * d.1,
    ;
}

/// Positive numbers of unit steps in two directions from one square reach
/// the same square only for the same direction and the same count.
pub proof fn lemma_step_cross_injective(
    p: (int, int),
    d1: (int, int),
    d2: (int, int),
    k1: int,
    k2: int,
)
    requires
        unit_delta(d1),
        unit_delta(d2),
        k1 >= 1,
        k2 >= 1,
        step(p, d1, k1) == step(p, d2, k2),
    ensures
        d1 == d2,
        k1 == k2,
{
    assert(d1 == d2 && k1 == k2) by (nonlinear_arith)
        requires
            unit_delta(d1),
            unit_delta(d2),
            k1 >= 1,
            k2 >= 1,
            p.0 + k1 * d1.0 == p.0 + k2 * d2.0,
            p.1 + k1 * d1.1 == p.1 + k2 * d2.1,
    ;
}

/// Eight or more unit steps from any square on the board leave the board.
pub proof fn lemma_step_off_board(p: (int, int), d: (int, int), k: int)
    requires
        on_board(p),
        unit_delta(d),
        k >= 8,
    ensures
        !on_board(step(p, d, k)),
{
    assert(!on_board((p.0 + k * d.0, p.1 + k * d.1))) by (nonlinear_arith)
        requires
            on_board(p),
            unit_delta(d),
            k >= 8,
    ;
}

/// Whether a piece of color `color` may enter square q of board v: an empty
/// square unless the move must capture; an enemy-occupied square iff the
/// move may capture; never a friendly-occupied square.
pub open spec fn can_enter(
    v: Map<(int, int), Option<Piece>>,
    q: (int, int),
    color: Color,
    can_take: bool,
    must_take: bool,
) -> bool {
    match v[q] {
        None => !must_take,
        Some(piece) => piece.color != color && can_take,
    }
}

/// The squares a sliding piece of color `color` reaches from p along the
/// unit delta d: every empty square in turn, then the first occupied square
/// iff it holds an enemy piece. `fuel` bounds the scan; from any square on
/// the board, 8 steps always reach the edge.
pub open spec fn ray_positions(
    v: Map<(int, int), Option<Piece>>,
    p: (int, int),
    d: (int, int),
    color: Color,
    fuel: nat,
) -> Seq<(int, int)>
    decreases fuel,
{
    if fuel == 0 {
        Seq::empty()
    } else {
        let q = (p.0 + d.0, p.1 + d.1);
        if !on_board(q) {
            Seq::empty()
        } else {
            match v[q] {
                None => seq![q] + ray_positions(v, q, d, color, (fuel - 1) as nat),
                Some(piece) => if piece.color == color {
                    Seq::empty()
                } else {
                    seq![q]
                },
            }
        }
    }
}

/// The concatenation, in order, of the rays in the given directions.
pub open spec fn directions_positions(
    v: Map<(int, int), Option<Piece>>,
    p: (int, int),
    directions: Seq<Direction>,
    color: Color,
) -> Seq<(int, int)>
    decreases directions.len(),
{
    if directions.len() == 0 {
        Seq::empty()
    } else {
        ray_positions(v, p, directions[0].delta(), color, 8) + directions_positions(
            v,
            p,
            directions.skip(1),
            color,
        )
    }
}

/// The L-shaped deltas of a knight, in generation order.
pub open spec fn knight_deltas() -> Seq<(int, int)> {
    seq![(2, 1), (-2, 1), (-2, -1), (2, -1), (1, 2), (-1, 2), (-1, -2), (1, -2)]
}

/// The adjacent deltas of a king, in generation order.
pub open spec fn king_deltas() -> Seq<(int, int)> {
    seq![(1, 1), (-1, 1), (-1, -1), (1, -1), (1, 0), (-1, 0), (0, -1), (0, 1)]
}

/// The on-board squares at the given fixed deltas from p that a piece of
/// color `color` may enter, moving or capturing.
pub open spec fn offset_positions(
    v: Map<(int, int), Option<Piece>>,
    p: (int, int),
    deltas: Seq<(int, int)>,
    color: Color,
) -> Seq<(int, int)>
    decreases deltas.len(),
{
    if deltas.len() == 0 {
        Seq::empty()
    } else {
        let q = (p.0 + deltas[0].0, p.1 + deltas[0].1);
        (if on_board(q) && can_enter(v, q, color, true, false) {
            seq![q]
        } else {
            Seq::empty()
        }) + offset_positions(v, p, deltas.skip(1), color)
    }
}

/// The single candidate square at delta d from p, kept iff it is on the
/// board and the entry policy accepts it.
pub open spec fn pawn_candidate(
    v: Map<(int, int), Option<Piece>>,
    p: (int, int),
    d: (int, int),
    color: Color,
    can_take: bool,
    must_take: bool,
) -> Seq<(int, int)> {
    let q = (p.0 + d.0, p.1 + d.1);
    if on_board(q) && can_enter(v, q, color, can_take, must_take) {
        seq![q]
    } else {
        Seq::empty()
    }
}

/// The squares a pawn of color `color` reaches from p: the double step when
/// the pawn has not yet moved, the single step, and the two diagonal
/// captures, in that order. Forward steps need an empty destination; the
/// diagonals need an enemy piece. The double step checks only its own
/// destination, a deliberate simplification: the square it passes over is
/// not inspected.
pub open spec fn pawn_positions(
    v: Map<(int, int), Option<Piece>>,
    p: (int, int),
    color: Color,
    moved: bool,
) -> Seq<(int, int)> {
    let s = color.forward();
    (if !moved {
        pawn_candidate(v, p, (0, 2 * s), color, false, false)
    } else {
        Seq::empty()
    }) + pawn_candidate(v, p, (0, s), color, false, false) + pawn_candidate(
        v,
        p,
        (1, s),
        color,
        true,
        true,
    ) + pawn_candidate(v, p, (-1, s), color, true, true)
}

/// The directions a bishop slides in, in generation order.
pub open spec fn bishop_directions() -> Seq<Direction> {
    seq![Direction::NE, Direction::SE, Direction::SW, Direction::NW]
}

/// The directions a rook slides in, in generation order.
pub open spec fn rook_directions() -> Seq<Direction> {
    seq![Direction::N, Direction::E, Direction::S, Direction::W]
}

/// The directions a queen slides in, in generation order.
pub open spec fn queen_directions() -> Seq<Direction> {
    seq![
        Direction::N,
        Direction::NE,
        Direction::E,
        Direction::SE,
        Direction::S,
        Direction::SW,
        Direction::W,
        Direction::NW,
    ]
}

/// Every square the piece at p on board v could move to, in generation
/// order; the empty sequence when the square is empty.
pub open spec fn piece_positions(v: Map<(int, int), Option<Piece>>, p: (int, int)) -> Seq<
    (int, int),
> {
    match v[p] {
        None => Seq::empty(),
        Some(piece) => match piece.piece_type {
            PieceType::Pawn => pawn_positions(v, p, piece.color, piece.moved),
            PieceType::Knight => offset_positions(v, p, knight_deltas(), piece.color),
            PieceType::Bishop => directions_positions(v, p, bishop_directions(), piece.color),
            PieceType::Rook => directions_positions(v, p, rook_directions(), piece.color),
            PieceType::Queen => directions_positions(v, p, queen_directions(), piece.color),
            PieceType::King => offset_positions(v, p, king_deltas(), piece.color),
        },
    }
}

/// The views of a sequence of positions.
pub open spec fn position_views(s: Seq<Position>) -> Seq<(int, int)> {
    s.map_values(|q: Position| q@)
}

/// The views of a sequence of offsets.
pub open spec fn offset_views(s: Seq<crate::board::Offset>) -> Seq<(int, int)> {
    s.map_values(|o: crate::board::Offset| o@)
}

/// Mapping to views distributes over push.
pub proof fn lemma_position_views_push(s: Seq<Position>, q: Position)
    ensures
        position_views(s.push(q)) == position_views(s).push(q@),
{
    assert(position_views(s.push(q)) =~= position_views(s).push(q@));
}

/// Mapping to views distributes over concatenation.
pub proof fn lemma_position_views_add(a: Seq<Position>, b: Seq<Position>)
    ensures
        position_views(a + b) == position_views(a) + position_views(b),
{
    assert(position_views(a + b) =~= position_views(a) + position_views(b));
}

} // verus!
