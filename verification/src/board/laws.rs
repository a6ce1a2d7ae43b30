//! Proved laws of the move-generation model: blocking along rays, the
//! shape of fixed-offset move sets, the pawn's rules, and determinism.

use crate::board::moves::{
    bishop_directions, can_enter, directions_positions, king_deltas, knight_deltas,
    lemma_step_cross_injective, lemma_step_injective, lemma_step_one, lemma_step_shift,
    offset_positions, pawn_candidate, pawn_positions, piece_positions, position_views,
    queen_directions, ray_positions, rook_directions, step, unit_delta,
};
use crate::board::moves::lemma_direction_delta_unit;
use crate::board::{on_board, Direction, Position};
use crate::piece::{Color, Piece};
use vstd::prelude::*;

verus! {

/// Prepending one element: the result holds x iff x is that element or the
/// tail holds it.
pub proof fn lemma_cons_contains<A>(head: A, tail: Seq<A>, x: A)
    ensures
        (seq![head] + tail).contains(x) <==> (x == head || tail.contains(x)),
{
    let s = seq![head] + tail;
    if s.contains(x) {
        let i = choose|i: int| 0 <= i < s.len() && s[i] == x;
        if i > 0 {
            assert(tail[i - 1] == x);
            assert(tail.contains(x));
        }
    }
    if x == head {
        assert(s[0] == x);
        assert(s.contains(x));
    }
    if tail.contains(x) {
        let i = choose|i: int| 0 <= i < tail.len() && tail[i] == x;
        assert(s[i + 1] == x);
        assert(s.contains(x));
    }
}

/// Structure of a sliding ray: the i-th returned square lies i + 1 steps
/// from the origin and on the board, every returned square but the last is
/// empty, and the last one, if occupied at all, holds an enemy piece.
pub proof fn lemma_ray_structure(
    v: Map<(int, int), Option<Piece>>,
    p: (int, int),
    d: (int, int),
    color: Color,
    fuel: nat,
)
    ensures
        forall|i: int|
            0 <= i < ray_positions(v, p, d, color, fuel).len() ==> #[trigger] ray_positions(
                v,
                p,
                d,
                color,
                fuel,
            )[i] == step(p, d, i + 1),
        forall|i: int|
            0 <= i < ray_positions(v, p, d, color, fuel).len() ==> on_board(
                #[trigger] ray_positions(v, p, d, color, fuel)[i],
            ),
        forall|i: int|
            0 <= i < ray_positions(v, p, d, color, fuel).len() - 1 ==> v[#[trigger] ray_positions(
                v,
                p,
                d,
                color,
                fuel,
            )[i]] is None,
        ray_positions(v, p, d, color, fuel).len() > 0 ==> (v[ray_positions(
            v,
            p,
            d,
            color,
            fuel,
        ).last()] matches Some(piece) ==> piece.color != color),
    decreases fuel,
{
    let s = ray_positions(v, p, d, color, fuel);
    if fuel > 0 {
        let q = (p.0 + d.0, p.1 + d.1);
        if on_board(q) {
            match v[q] {
                None => {
                    let tail = ray_positions(v, q, d, color, (fuel - 1) as nat);
                    lemma_ray_structure(v, q, d, color, (fuel - 1) as nat);
                    assert(s == seq![q] + tail);
                    assert forall|i: int| 0 <= i < s.len() implies #[trigger] s[i] == step(
                        p,
                        d,
                        i + 1,
                    ) by {
                        if i == 0 {
                            assert(s[0] == q);
                            lemma_step_one(p, d);
                        } else {
                            assert(s[i] == tail[i - 1]);
                            assert(tail[i - 1] == step(q, d, i));
                            lemma_step_shift(p, d, i);
                        }
                    }
                    assert forall|i: int| 0 <= i < s.len() - 1 implies v[#[trigger] s[i]]
                        is None by {
                        if i > 0 {
                            assert(s[i] == tail[i - 1]);
                        }
                    }
                    if s.len() > 0 {
                        if tail.len() > 0 {
                            assert(s.last() == tail.last());
                        } else {
                            assert(s.last() == q);
                        }
                    }
                },
                Some(piece) => {
                    lemma_step_one(p, d);
                    if piece.color != color {
                        assert(s == seq![q]);
                        assert(s[0] == q);
                    }
                },
            }
        }
    }
}

/// A sliding piece never moves beyond a blocking piece: when the square j
/// steps along the ray is occupied, no square farther along the ray is
/// returned.
pub proof fn lemma_sliding_stops_at_blocker(
    v: Map<(int, int), Option<Piece>>,
    p: (int, int),
    d: (int, int),
    color: Color,
    fuel: nat,
    j: int,
    k: int,
)
    requires
        unit_delta(d),
        1 <= j < k,
        v[step(p, d, j)] is Some,
    ensures
        !ray_positions(v, p, d, color, fuel).contains(step(p, d, k)),
{
    let s = ray_positions(v, p, d, color, fuel);
    lemma_ray_structure(v, p, d, color, fuel);
    if s.contains(step(p, d, k)) {
        let i = choose|i: int| 0 <= i < s.len() && s[i] == step(p, d, k);
        lemma_step_injective(p, d, i + 1, k);
        assert(s[j - 1] == step(p, d, j));
        assert(v[s[j - 1]] is None);
    }
}

/// The first blocking square along a ray is returned iff it holds an enemy
/// piece: when every nearer square lies on the board and is empty, the
/// occupied square k steps away is returned iff its piece's color differs
/// from the moving piece's.
pub proof fn lemma_sliding_first_blocker(
    v: Map<(int, int), Option<Piece>>,
    p: (int, int),
    d: (int, int),
    color: Color,
    fuel: nat,
    k: int,
)
    requires
        unit_delta(d),
        1 <= k <= fuel,
        forall|j: int| 1 <= j < k ==> on_board(#[trigger] step(p, d, j)) && v[step(p, d, j)] is None,
        on_board(step(p, d, k)),
        v[step(p, d, k)] is Some,
    ensures
        ray_positions(v, p, d, color, fuel).contains(step(p, d, k)) <==> v[step(
            p,
            d,
            k,
        )].unwrap().color != color,
    decreases k,
{
    let s = ray_positions(v, p, d, color, fuel);
    let q = (p.0 + d.0, p.1 + d.1);
    assert(q == step(p, d, 1));
    if k == 1 {
        match v[q] {
            None => {},
            Some(piece) => {
                if piece.color != color {
                    assert(s == seq![q]);
                    assert(s[0] == q);
                    assert(s.contains(q));
                } else {
                    assert(s.len() == 0);
                }
            },
        }
    } else {
        assert(on_board(q) && v[q] is None);
        let tail = ray_positions(v, q, d, color, (fuel - 1) as nat);
        assert(s == seq![q] + tail);
        lemma_step_shift(p, d, k - 1);
        assert forall|j: int| 1 <= j < k - 1 implies on_board(#[trigger] step(q, d, j)) && v[step(
            q,
            d,
            j,
        )] is None by {
            lemma_step_shift(p, d, j);
        }
        lemma_sliding_first_blocker(v, q, d, color, (fuel - 1) as nat, k - 1);
        lemma_cons_contains(q, tail, step(p, d, k));
        assert(q != step(p, d, k));
    }
}

/// Fixed-offset generation: no more squares than offsets; every returned
/// square is the origin shifted by one of the offsets, lies on the board,
/// and may be entered (empty or enemy-occupied); and every offset whose
/// square passes that filter is returned.
pub proof fn lemma_offset_positions_correct(
    v: Map<(int, int), Option<Piece>>,
    p: (int, int),
    deltas: Seq<(int, int)>,
    color: Color,
)
    ensures
        offset_positions(v, p, deltas, color).len() <= deltas.len(),
        forall|q: (int, int)|
            #[trigger] offset_positions(v, p, deltas, color).contains(q) ==> on_board(q)
                && can_enter(v, q, color, true, false) && deltas.contains((q.0 - p.0, q.1 - p.1)),
        forall|i: int|
            0 <= i < deltas.len() && on_board((p.0 + #[trigger] deltas[i].0, p.1 + deltas[i].1))
                && can_enter(v, (p.0 + deltas[i].0, p.1 + deltas[i].1), color, true, false)
                ==> offset_positions(v, p, deltas, color).contains(
                (p.0 + deltas[i].0, p.1 + deltas[i].1),
            ),
    decreases deltas.len(),
{
    if deltas.len() > 0 {
        let s = offset_positions(v, p, deltas, color);
        let rest = deltas.skip(1);
        let tail = offset_positions(v, p, rest, color);
        let q0 = (p.0 + deltas[0].0, p.1 + deltas[0].1);
        let kept = on_board(q0) && can_enter(v, q0, color, true, false);
        lemma_offset_positions_correct(v, p, rest, color);
        assert forall|x: (int, int)| #[trigger] rest.contains(x) implies deltas.contains(x) by {
            let i = choose|i: int| 0 <= i < rest.len() && rest[i] == x;
            assert(deltas[i + 1] == x);
        }
        if kept {
            assert(s == seq![q0] + tail);
            assert forall|q: (int, int)| #[trigger] s.contains(q) implies on_board(q) && can_enter(
                v,
                q,
                color,
                true,
                false,
            ) && deltas.contains((q.0 - p.0, q.1 - p.1)) by {
                lemma_cons_contains(q0, tail, q);
                if q == q0 {
                    assert(deltas[0] == (q.0 - p.0, q.1 - p.1));
                    assert(deltas.contains((q.0 - p.0, q.1 - p.1)));
                }
            }
            assert forall|i: int|
                0 <= i < deltas.len() && on_board(
                    (p.0 + #[trigger] deltas[i].0, p.1 + deltas[i].1),
                ) && can_enter(
                    v,
                    (p.0 + deltas[i].0, p.1 + deltas[i].1),
                    color,
                    true,
                    false,
                ) implies s.contains((p.0 + deltas[i].0, p.1 + deltas[i].1)) by {
                let qi = (p.0 + deltas[i].0, p.1 + deltas[i].1);
                lemma_cons_contains(q0, tail, qi);
                if i > 0 {
                    assert(rest[i - 1] == deltas[i]);
                    assert(tail.contains(qi));
                }
            }
        } else {
            assert(s =~= tail);
            assert forall|i: int|
                0 <= i < deltas.len() && on_board(
                    (p.0 + #[trigger] deltas[i].0, p.1 + deltas[i].1),
                ) && can_enter(
                    v,
                    (p.0 + deltas[i].0, p.1 + deltas[i].1),
                    color,
                    true,
                    false,
                ) implies s.contains((p.0 + deltas[i].0, p.1 + deltas[i].1)) by {
                if i > 0 {
                    assert(rest[i - 1] == deltas[i]);
                } else {
                    assert(!kept);
                }
            }
        }
    }
}

/// A knight reaches at most 8 squares.
pub proof fn lemma_knight_at_most_eight(
    v: Map<(int, int), Option<Piece>>,
    p: (int, int),
    color: Color,
)
    ensures
        offset_positions(v, p, knight_deltas(), color).len() <= 8,
{
    lemma_offset_positions_correct(v, p, knight_deltas(), color);
}

/// A king reaches at most 8 squares.
pub proof fn lemma_king_at_most_eight(
    v: Map<(int, int), Option<Piece>>,
    p: (int, int),
    color: Color,
)
    ensures
        offset_positions(v, p, king_deltas(), color).len() <= 8,
{
    lemma_offset_positions_correct(v, p, king_deltas(), color);
}

/// A pawn that has not moved, with the square ahead and the square two
/// ahead both on the board and empty, may advance one or two squares.
pub proof fn lemma_pawn_home_rank(v: Map<(int, int), Option<Piece>>, p: (int, int), color: Color)
    requires
        on_board((p.0, p.1 + color.forward())),
        on_board((p.0, p.1 + 2 * color.forward())),
        v[(p.0, p.1 + color.forward())] is None,
        v[(p.0, p.1 + 2 * color.forward())] is None,
    ensures
        pawn_positions(v, p, color, false).contains((p.0, p.1 + color.forward())),
        pawn_positions(v, p, color, false).contains((p.0, p.1 + 2 * color.forward())),
{
    let s = pawn_positions(v, p, color, false);
    assert(s[0] == (p.0, p.1 + 2 * color.forward()));
    assert(s[1] == (p.0, p.1 + color.forward()));
    assert(s.contains(s[0]));
    assert(s.contains(s[1]));
}

/// A pawn that has already moved can no longer take the double step.
pub proof fn lemma_pawn_moved_no_double(
    v: Map<(int, int), Option<Piece>>,
    p: (int, int),
    color: Color,
)
    ensures
        !pawn_positions(v, p, color, true).contains((p.0, p.1 + 2 * color.forward())),
{
    let s = pawn_positions(v, p, color, true);
    let target = (p.0, p.1 + 2 * color.forward());
    if s.contains(target) {
        let i = choose|i: int| 0 <= i < s.len() && s[i] == target;
        assert(s[i] != target);
    }
}

/// A pawn's forward-diagonal square is returned iff an enemy piece stands
/// on it.
pub proof fn lemma_pawn_diagonal(
    v: Map<(int, int), Option<Piece>>,
    p: (int, int),
    color: Color,
    moved: bool,
    dx: int,
)
    requires
        dx == 1 || dx == -1,
    ensures
        pawn_positions(v, p, color, moved).contains((p.0 + dx, p.1 + color.forward())) <==> (
        on_board((p.0 + dx, p.1 + color.forward())) && (v[(p.0 + dx, p.1 + color.forward())]
            matches Some(piece) && piece.color != color)),
{
    let s = pawn_positions(v, p, color, moved);
    let sgn = color.forward();
    let target = (p.0 + dx, p.1 + sgn);
    let c1: Seq<(int, int)> = if !moved {
        pawn_candidate(v, p, (0, 2 * sgn), color, false, false)
    } else {
        Seq::empty()
    };
    let c2 = pawn_candidate(v, p, (0, sgn), color, false, false);
    let c3 = pawn_candidate(v, p, (1, sgn), color, true, true);
    let c4 = pawn_candidate(v, p, (-1, sgn), color, true, true);
    assert(s == ((c1 + c2) + c3) + c4);
    if s.contains(target) {
        let i = choose|i: int| 0 <= i < s.len() && s[i] == target;
        assert(on_board(target) && (v[target] matches Some(piece) && piece.color != color));
    }
    if on_board(target) && (v[target] matches Some(piece) && piece.color != color) {
        if dx == 1 {
            assert(c3 == seq![target]);
            assert(s[c1.len() as int + c2.len() as int] == target);
            assert(s.contains(target));
        } else {
            assert(c4 == seq![target]);
            assert(s[c1.len() as int + c2.len() as int + c3.len() as int] == target);
            assert(s.contains(target));
        }
    }
}

/// A singleton holds x iff x is its one element.
pub proof fn lemma_singleton_contains<A>(head: A, x: A)
    ensures
        seq![head].contains(x) <==> x == head,
{
    let s = seq![head];
    if s.contains(x) {
        let i = choose|i: int| 0 <= i < s.len() && s[i] == x;
        assert(x == head);
    }
    if x == head {
        assert(s[0] == x);
        assert(s.contains(x));
    }
}

/// A concatenation holds x iff one of its parts holds x.
pub proof fn lemma_concat_contains<A>(a: Seq<A>, b: Seq<A>, x: A)
    ensures
        (a + b).contains(x) <==> (a.contains(x) || b.contains(x)),
{
    let s = a + b;
    if s.contains(x) {
        let i = choose|i: int| 0 <= i < s.len() && s[i] == x;
        if i < a.len() {
            assert(a[i] == x);
            assert(a.contains(x));
        } else {
            assert(b[i - a.len()] == x);
            assert(b.contains(x));
        }
    }
    if a.contains(x) {
        let i = choose|i: int| 0 <= i < a.len() && a[i] == x;
        assert(s[i] == x);
        assert(s.contains(x));
    }
    if b.contains(x) {
        let i = choose|i: int| 0 <= i < b.len() && b[i] == x;
        assert(s[a.len() + i] == x);
        assert(s.contains(x));
    }
}

/// Concatenating duplicate-free sequences with no common element gives a
/// duplicate-free sequence.
pub proof fn lemma_concat_no_duplicates<A>(a: Seq<A>, b: Seq<A>)
    requires
        a.no_duplicates(),
        b.no_duplicates(),
        forall|x: A| #[trigger] a.contains(x) ==> !b.contains(x),
    ensures
        (a + b).no_duplicates(),
{
    let s = a + b;
    assert forall|i: int, j: int|
        0 <= i < s.len() && 0 <= j < s.len() && i != j implies s[i] != s[j] by {
        if i < a.len() && j >= a.len() {
            assert(a.contains(a[i]));
            if s[i] == s[j] {
                assert(b[j - a.len()] == a[i]);
                assert(b.contains(a[i]));
            }
        }
        if j < a.len() && i >= a.len() {
            assert(a.contains(a[j]));
            if s[i] == s[j] {
                assert(b[i - a.len()] == a[j]);
                assert(b.contains(a[j]));
            }
        }
    }
}

/// Every square of a ray lies a positive number of steps along its delta.
pub proof fn lemma_ray_membership(
    v: Map<(int, int), Option<Piece>>,
    p: (int, int),
    d: (int, int),
    color: Color,
    fuel: nat,
)
    ensures
        forall|x: (int, int)|
            #[trigger] ray_positions(v, p, d, color, fuel).contains(x) ==> exists|k: int|
                1 <= k && x == step(p, d, k),
{
    let s = ray_positions(v, p, d, color, fuel);
    lemma_ray_structure(v, p, d, color, fuel);
    assert forall|x: (int, int)| #[trigger] s.contains(x) implies exists|k: int|
        1 <= k && x == step(p, d, k) by {
        let i = choose|i: int| 0 <= i < s.len() && s[i] == x;
        assert(x == step(p, d, i + 1));
    }
}

/// A ray holds no square twice.
pub proof fn lemma_ray_no_duplicates(
    v: Map<(int, int), Option<Piece>>,
    p: (int, int),
    d: (int, int),
    color: Color,
    fuel: nat,
)
    requires
        unit_delta(d),
    ensures
        ray_positions(v, p, d, color, fuel).no_duplicates(),
{
    let s = ray_positions(v, p, d, color, fuel);
    lemma_ray_structure(v, p, d, color, fuel);
    assert forall|i: int, j: int|
        0 <= i < s.len() && 0 <= j < s.len() && i != j implies s[i] != s[j] by {
        if s[i] == s[j] {
            lemma_step_injective(p, d, i + 1, j + 1);
        }
    }
}

/// Rays from one square in distinct directions share no square.
pub proof fn lemma_rays_disjoint(
    v: Map<(int, int), Option<Piece>>,
    p: (int, int),
    d1: (int, int),
    d2: (int, int),
    color: Color,
    fuel1: nat,
    fuel2: nat,
)
    requires
        unit_delta(d1),
        unit_delta(d2),
        d1 != d2,
    ensures
        forall|x: (int, int)|
            #[trigger] ray_positions(v, p, d1, color, fuel1).contains(x) ==> !ray_positions(
                v,
                p,
                d2,
                color,
                fuel2,
            ).contains(x),
{
    lemma_ray_membership(v, p, d1, color, fuel1);
    lemma_ray_membership(v, p, d2, color, fuel2);
    assert forall|x: (int, int)|
        #[trigger] ray_positions(v, p, d1, color, fuel1).contains(x) implies !ray_positions(
        v,
        p,
        d2,
        color,
        fuel2,
    ).contains(x) by {
        if ray_positions(v, p, d2, color, fuel2).contains(x) {
            let k1 = choose|k: int| 1 <= k && x == step(p, d1, k);
            let k2 = choose|k: int| 1 <= k && x == step(p, d2, k);
            lemma_step_cross_injective(p, d1, d2, k1, k2);
        }
    }
}

/// Two distinct directions have distinct deltas.
pub proof fn lemma_delta_injective(a: Direction, b: Direction)
    requires
        a.delta() == b.delta(),
    ensures
        a == b,
{
}

/// Every square generated for a list of directions comes from the ray of
/// one of them.
pub proof fn lemma_directions_membership(
    v: Map<(int, int), Option<Piece>>,
    p: (int, int),
    directions: Seq<Direction>,
    color: Color,
)
    ensures
        forall|x: (int, int)|
            #[trigger] directions_positions(v, p, directions, color).contains(x) ==> exists|j: int|
                0 <= j < directions.len() && ray_positions(
                    v,
                    p,
                    directions[j].delta(),
                    color,
                    8,
                ).contains(x),
    decreases directions.len(),
{
    if directions.len() > 0 {
        let s = directions_positions(v, p, directions, color);
        let ray = ray_positions(v, p, directions[0].delta(), color, 8);
        let rest = directions_positions(v, p, directions.skip(1), color);
        assert(s == ray + rest);
        lemma_directions_membership(v, p, directions.skip(1), color);
        assert forall|x: (int, int)| #[trigger] s.contains(x) implies exists|j: int|
            0 <= j < directions.len() && ray_positions(
                v,
                p,
                directions[j].delta(),
                color,
                8,
            ).contains(x) by {
            lemma_concat_contains(ray, rest, x);
            if ray.contains(x) {
                assert(0 <= 0 < directions.len() && ray_positions(
                    v,
                    p,
                    directions[0].delta(),
                    color,
                    8,
                ).contains(x));
            } else {
                let j = choose|j: int|
                    0 <= j < directions.skip(1).len() && ray_positions(
                        v,
                        p,
                        directions.skip(1)[j].delta(),
                        color,
                        8,
                    ).contains(x);
                assert(directions.skip(1)[j] == directions[j + 1]);
                assert(ray_positions(v, p, directions[j + 1].delta(), color, 8).contains(x));
            }
        }
    }
}

/// Sliding generation over distinct directions holds no square twice.
pub proof fn lemma_directions_no_duplicates(
    v: Map<(int, int), Option<Piece>>,
    p: (int, int),
    directions: Seq<Direction>,
    color: Color,
)
    requires
        directions.no_duplicates(),
    ensures
        directions_positions(v, p, directions, color).no_duplicates(),
    decreases directions.len(),
{
    if directions.len() > 0 {
        let s = directions_positions(v, p, directions, color);
        let ray = ray_positions(v, p, directions[0].delta(), color, 8);
        let rest = directions_positions(v, p, directions.skip(1), color);
        assert(s == ray + rest);
        lemma_direction_delta_unit(directions[0]);
        lemma_ray_no_duplicates(v, p, directions[0].delta(), color, 8);
        assert forall|i: int, j: int|
            0 <= i < directions.skip(1).len() && 0 <= j < directions.skip(1).len() && i != j
            implies directions.skip(1)[i] != directions.skip(1)[j] by {
            assert(directions.skip(1)[i] == directions[i + 1]);
            assert(directions.skip(1)[j] == directions[j + 1]);
        }
        lemma_directions_no_duplicates(v, p, directions.skip(1), color);
        lemma_directions_membership(v, p, directions.skip(1), color);
        assert forall|x: (int, int)| #[trigger] ray.contains(x) implies !rest.contains(x) by {
            if rest.contains(x) {
                let j = choose|j: int|
                    0 <= j < directions.skip(1).len() && ray_positions(
                        v,
                        p,
                        directions.skip(1)[j].delta(),
                        color,
                        8,
                    ).contains(x);
                assert(directions.skip(1)[j] == directions[j + 1]);
                lemma_direction_delta_unit(directions[j + 1]);
                if directions[0].delta() == directions[j + 1].delta() {
                    lemma_delta_injective(directions[0], directions[j + 1]);
                    assert(false);
                } else {
                    lemma_rays_disjoint(
                        v,
                        p,
                        directions[0].delta(),
                        directions[j + 1].delta(),
                        color,
                        8,
                        8,
                    );
                }
            }
        }
        lemma_concat_no_duplicates(ray, rest);
    }
}

/// Fixed-offset generation over distinct offsets holds no square twice.
pub proof fn lemma_offset_positions_no_duplicates(
    v: Map<(int, int), Option<Piece>>,
    p: (int, int),
    deltas: Seq<(int, int)>,
    color: Color,
)
    requires
        deltas.no_duplicates(),
    ensures
        offset_positions(v, p, deltas, color).no_duplicates(),
    decreases deltas.len(),
{
    if deltas.len() > 0 {
        let s = offset_positions(v, p, deltas, color);
        let rest_deltas = deltas.skip(1);
        let tail = offset_positions(v, p, rest_deltas, color);
        let q0 = (p.0 + deltas[0].0, p.1 + deltas[0].1);
        let kept = on_board(q0) && can_enter(v, q0, color, true, false);
        let head: Seq<(int, int)> = if kept {
            seq![q0]
        } else {
            Seq::empty()
        };
        assert(s == head + tail);
        assert forall|i: int, j: int|
            0 <= i < rest_deltas.len() && 0 <= j < rest_deltas.len() && i != j
            implies rest_deltas[i] != rest_deltas[j] by {
            assert(rest_deltas[i] == deltas[i + 1]);
            assert(rest_deltas[j] == deltas[j + 1]);
        }
        lemma_offset_positions_no_duplicates(v, p, rest_deltas, color);
        lemma_offset_positions_correct(v, p, rest_deltas, color);
        assert forall|x: (int, int)| #[trigger] head.contains(x) implies !tail.contains(x) by {
            if kept {
                lemma_singleton_contains(q0, x);
                if tail.contains(x) {
                    assert(rest_deltas.contains((x.0 - p.0, x.1 - p.1)));
                    let i = choose|i: int|
                        0 <= i < rest_deltas.len() && rest_deltas[i] == (x.0 - p.0, x.1 - p.1);
                    assert(rest_deltas[i] == deltas[i + 1]);
                    assert(deltas[i + 1] == deltas[0]);
                }
            }
        }
        lemma_concat_no_duplicates(head, tail);
    }
}

/// Pawn generation holds no square twice.
pub proof fn lemma_pawn_no_duplicates(
    v: Map<(int, int), Option<Piece>>,
    p: (int, int),
    color: Color,
    moved: bool,
)
    ensures
        pawn_positions(v, p, color, moved).no_duplicates(),
{
    let s = pawn_positions(v, p, color, moved);
    let sgn = color.forward();
    let c1: Seq<(int, int)> = if !moved {
        pawn_candidate(v, p, (0, 2 * sgn), color, false, false)
    } else {
        Seq::empty()
    };
    let c2 = pawn_candidate(v, p, (0, sgn), color, false, false);
    let c3 = pawn_candidate(v, p, (1, sgn), color, true, true);
    let c4 = pawn_candidate(v, p, (-1, sgn), color, true, true);
    assert(s == ((c1 + c2) + c3) + c4);
    assert forall|i: int, j: int|
        0 <= i < s.len() && 0 <= j < s.len() && i != j implies s[i] != s[j] by {
        assert(sgn == 1 || sgn == -1);
    }
}

/// Move generation never yields the same square twice for one call.
pub proof fn lemma_piece_positions_no_duplicates(v: Map<(int, int), Option<Piece>>, p: (int, int))
    ensures
        piece_positions(v, p).no_duplicates(),
{
    match v[p] {
        None => {},
        Some(piece) => match piece.piece_type {
            crate::piece::PieceType::Pawn => {
                lemma_pawn_no_duplicates(v, p, piece.color, piece.moved);
            },
            crate::piece::PieceType::Knight => {
                assert(knight_deltas().no_duplicates());
                lemma_offset_positions_no_duplicates(v, p, knight_deltas(), piece.color);
            },
            crate::piece::PieceType::Bishop => {
                assert(bishop_directions().no_duplicates());
                lemma_directions_no_duplicates(v, p, bishop_directions(), piece.color);
            },
            crate::piece::PieceType::Rook => {
                assert(rook_directions().no_duplicates());
                lemma_directions_no_duplicates(v, p, rook_directions(), piece.color);
            },
            crate::piece::PieceType::Queen => {
                assert(queen_directions().no_duplicates());
                lemma_directions_no_duplicates(v, p, queen_directions(), piece.color);
            },
            crate::piece::PieceType::King => {
                assert(king_deltas().no_duplicates());
                lemma_offset_positions_no_duplicates(v, p, king_deltas(), piece.color);
            },
        },
    }
}

/// Move generation reads the board only: two generations from equal boards
/// at the same square yield the same squares in the same order.
pub proof fn lemma_generation_deterministic(
    v1: Map<(int, int), Option<Piece>>,
    v2: Map<(int, int), Option<Piece>>,
    p: (int, int),
)
    requires
        v1 == v2,
    ensures
        piece_positions(v1, p) == piece_positions(v2, p),
{
}

/// Positions with equal coordinates are equal.
pub proof fn lemma_position_view_injective(a: Position, b: Position)
    requires
        a@ == b@,
    ensures
        a == b,
{
}

/// Generation is idempotent: any two position vectors generated for the
/// same board and square are equal, element for element.
pub proof fn lemma_generation_idempotent(
    v: Map<(int, int), Option<Piece>>,
    p: (int, int),
    s1: Seq<Position>,
    s2: Seq<Position>,
)
    requires
        position_views(s1) == piece_positions(v, p),
        position_views(s2) == piece_positions(v, p),
    ensures
        s1 == s2,
{
    assert(s1.len() == position_views(s1).len());
    assert(s2.len() == position_views(s2).len());
    assert forall|i: int| 0 <= i < s1.len() implies s1[i] == s2[i] by {
        assert(position_views(s1)[i] == s1[i]@);
        assert(position_views(s2)[i] == s2[i]@);
        lemma_position_view_injective(s1[i], s2[i]);
    }
    assert(s1 =~= s2);
}

} // verus!
