//! Pseudo-legal destination generation, and move application validated
//! against it.
//!
//! For each piece the destinations are specified as a sequence in a
//! fixed enumeration order: each direction or offset rule is exhausted
//! in turn, and a sliding direction is walked outward square by square.
//! The executable generator returns exactly that sequence, so its
//! result is a function of the board snapshot and the source square
//! alone: two calls without an intervening mutation return identical
//! results.

use vstd::prelude::*;

use crate::chess::Board;
use crate::chess::ChessError;
use crate::chess::Kind;
use crate::chess::Pair;
use crate::chess::Piece;
use crate::chess::Position;
use crate::chess::in_bounds;
use crate::chess::square_at;

verus! {

/// Whether (r, c) holds a piece of the moving colour `k`.
pub open spec fn friend_at(b: Seq<Option<Pair>>, r: int, c: int, k: Kind) -> bool {
    match square_at(b, r, c) {
        Some(p) => p.kind == k,
        None => false,
    }
}

/// Whether (r, c) holds a piece of the colour opposite to `k`.
pub open spec fn enemy_at(b: Seq<Option<Pair>>, r: int, c: int, k: Kind) -> bool {
    match square_at(b, r, c) {
        Some(p) => p.kind != k,
        None => false,
    }
}

/// Whether (r, c) holds no piece.
pub open spec fn empty_at(b: Seq<Option<Pair>>, r: int, c: int) -> bool {
    square_at(b, r, c) is None
}

/// The destinations of a sliding piece of colour `k` along one
/// direction, walking outward from (r, c) one square at a time: an
/// empty square is taken and the walk goes on, a square with an enemy
/// is taken and ends the walk, a square with a friend ends the walk
/// untaken, and so does the edge of the grid.
pub open spec fn ray_seq(b: Seq<Option<Pair>>, k: Kind, r: int, c: int, dr: int, dc: int)
    -> Seq<(int, int)>
    decreases (if dr <= 0 { r } else { 7 - r }) + (if dc <= 0 { c } else { 7 - c }),
{
    if !in_bounds(r, c) || (dr == 0 && dc == 0) || !in_bounds(r + dr, c + dc) {
        seq![]
    } else {
        match square_at(b, r + dr, c + dc) {
            None => seq![(r + dr, c + dc)] + ray_seq(b, k, r + dr, c + dc, dr, dc),
            Some(p) => if p.kind != k {
                seq![(r + dr, c + dc)]
            } else {
                seq![]
            },
        }
    }
}

/// The destination of a fixed-offset move from (r, c) by (dr, dc) for
/// colour `k`: the target square, when it is on the grid and not held
/// by a friend; nothing otherwise.
pub open spec fn step_seq(b: Seq<Option<Pair>>, k: Kind, r: int, c: int, dr: int, dc: int)
    -> Seq<(int, int)>
{
    if in_bounds(r + dr, c + dc) && !friend_at(b, r + dr, c + dc, k) {
        seq![(r + dr, c + dc)]
    } else {
        seq![]
    }
}

/// The row direction a pawn of colour `k` advances in: white toward
/// row 0, black toward row 7.
pub open spec fn forward_dir(k: Kind) -> int {
    match k {
        Kind::White => -1,
        Kind::Black => 1,
    }
}

/// The row a pawn of colour `k` starts on.
pub open spec fn pawn_start_row(k: Kind) -> int {
    match k {
        Kind::White => 6,
        Kind::Black => 1,
    }
}

/// A pawn's single step straight forward, taken only onto an empty
/// square.
pub open spec fn pawn_forward_seq(b: Seq<Option<Pair>>, k: Kind, r: int, c: int)
    -> Seq<(int, int)>
{
    if in_bounds(r + forward_dir(k), c) && empty_at(b, r + forward_dir(k), c) {
        seq![(r + forward_dir(k), c)]
    } else {
        seq![]
    }
}

/// A pawn's diagonal-forward step to column c + dc, taken only onto a
/// square held by the opposite colour.
pub open spec fn pawn_capture_seq(b: Seq<Option<Pair>>, k: Kind, r: int, c: int, dc: int)
    -> Seq<(int, int)>
{
    if in_bounds(r + forward_dir(k), c + dc) && enemy_at(b, r + forward_dir(k), c + dc, k) {
        seq![(r + forward_dir(k), c + dc)]
    } else {
        seq![]
    }
}

/// A pawn's double step forward, taken only from its starting row and
/// only when both squares ahead are empty.
pub open spec fn pawn_double_seq(b: Seq<Option<Pair>>, k: Kind, r: int, c: int)
    -> Seq<(int, int)>
{
    if r == pawn_start_row(k) && in_bounds(r + 2 * forward_dir(k), c)
        && empty_at(b, r + forward_dir(k), c) && empty_at(b, r + 2 * forward_dir(k), c) {
        seq![(r + 2 * forward_dir(k), c)]
    } else {
        seq![]
    }
}

/// A pawn's destinations: one forward, diagonal left, diagonal right,
/// then the double step.
pub open spec fn pawn_seq(b: Seq<Option<Pair>>, k: Kind, r: int, c: int) -> Seq<(int, int)> {
    pawn_forward_seq(b, k, r, c) + pawn_capture_seq(b, k, r, c, -1)
        + pawn_capture_seq(b, k, r, c, 1) + pawn_double_seq(b, k, r, c)
}

/// A knight's destinations: the eight L-shaped offsets in a fixed
/// order.
pub open spec fn knight_seq(b: Seq<Option<Pair>>, k: Kind, r: int, c: int) -> Seq<(int, int)> {
    step_seq(b, k, r, c, -2, -1) + step_seq(b, k, r, c, -2, 1)
        + step_seq(b, k, r, c, 2, -1) + step_seq(b, k, r, c, 2, 1)
        + step_seq(b, k, r, c, -1, -2) + step_seq(b, k, r, c, 1, -2)
        + step_seq(b, k, r, c, -1, 2) + step_seq(b, k, r, c, 1, 2)
}

/// A king's destinations: the eight unit-distance neighbours in a
/// fixed order.
pub open spec fn king_seq(b: Seq<Option<Pair>>, k: Kind, r: int, c: int) -> Seq<(int, int)> {
    step_seq(b, k, r, c, -1, 0) + step_seq(b, k, r, c, 1, 0)
        + step_seq(b, k, r, c, 0, -1) + step_seq(b, k, r, c, 0, 1)
        + step_seq(b, k, r, c, -1, -1) + step_seq(b, k, r, c, -1, 1)
        + step_seq(b, k, r, c, 1, -1) + step_seq(b, k, r, c, 1, 1)
}

/// A rook's destinations: the four orthogonal rays, up, down, left,
/// right.
pub open spec fn rook_seq(b: Seq<Option<Pair>>, k: Kind, r: int, c: int) -> Seq<(int, int)> {
    ray_seq(b, k, r, c, -1, 0) + ray_seq(b, k, r, c, 1, 0)
        + ray_seq(b, k, r, c, 0, -1) + ray_seq(b, k, r, c, 0, 1)
}

/// A bishop's destinations: the four diagonal rays.
pub open spec fn bishop_seq(b: Seq<Option<Pair>>, k: Kind, r: int, c: int) -> Seq<(int, int)> {
    ray_seq(b, k, r, c, -1, -1) + ray_seq(b, k, r, c, -1, 1)
        + ray_seq(b, k, r, c, 1, -1) + ray_seq(b, k, r, c, 1, 1)
}

/// A queen's destinations: the rook's rays followed by the bishop's.
pub open spec fn queen_seq(b: Seq<Option<Pair>>, k: Kind, r: int, c: int) -> Seq<(int, int)> {
    rook_seq(b, k, r, c) + bishop_seq(b, k, r, c)
}

/// The destinations of an occupant `pair` standing at (r, c).
pub open spec fn piece_destinations(b: Seq<Option<Pair>>, pair: Pair, r: int, c: int)
    -> Seq<(int, int)>
{
    match pair.piece {
        Piece::Rook => rook_seq(b, pair.kind, r, c),
        Piece::Knight => knight_seq(b, pair.kind, r, c),
        Piece::Bishop => bishop_seq(b, pair.kind, r, c),
        Piece::Queen => queen_seq(b, pair.kind, r, c),
        Piece::King => king_seq(b, pair.kind, r, c),
        Piece::Pawn => pawn_seq(b, pair.kind, r, c),
    }
}

/// The destination sequence for the occupant of (r, c); empty when the
/// square holds none.
pub open spec fn destinations(b: Seq<Option<Pair>>, r: int, c: int) -> Seq<(int, int)> {
    match square_at(b, r, c) {
        Some(pair) => piece_destinations(b, pair, r, c),
        None => seq![],
    }
}

/// A position as a pair of mathematical integers.
pub open spec fn pos_view(p: Position) -> (int, int) {
    (p.0 as int, p.1 as int)
}

/// A sequence of positions as pairs of mathematical integers.
pub open spec fn moves_view(s: Seq<Position>) -> Seq<(int, int)> {
    s.map_values(|p: Position| pos_view(p))
}

/// Purity of destination generation: the destination sequence is a
/// function of the board snapshot and the source square alone, so any
/// two position sequences that satisfy the contract of `all_moves` or
/// `legal_destinations` for the same snapshot and square — such as the
/// results of two calls with no mutation in between — are identical.
pub proof fn lemma_destinations_determined(
    m1: Seq<Position>,
    m2: Seq<Position>,
    b: Seq<Option<Pair>>,
    r: int,
    c: int,
)
    requires
        moves_view(m1) == destinations(b, r, c),
        moves_view(m2) == destinations(b, r, c),
    ensures
        m1 == m2,
{
    assert(moves_view(m1).len() == m1.len());
    assert(moves_view(m2).len() == m2.len());
    assert forall|i: int| 0 <= i < m1.len() implies m1[i] == m2[i] by {
        assert(moves_view(m1)[i] == pos_view(m1[i]));
        assert(moves_view(m2)[i] == pos_view(m2[i]));
        assert(m1[i].0 == m2[i].0 && m1[i].1 == m2[i].1);
        assert(m1[i] =~= m2[i]);
    }
    assert(m1 =~= m2);
}

proof fn lemma_moves_view_push(s: Seq<Position>, x: Position)
    ensures
        moves_view(s.push(x)) =~= moves_view(s).push(pos_view(x)),
{
}

proof fn lemma_moves_view_add(a: Seq<Position>, b: Seq<Position>)
    ensures
        moves_view(a + b) =~= moves_view(a) + moves_view(b),
{
}

impl Board {
    /// Walks one sliding direction outward from `pos` and appends the
    /// squares it yields to `moves`.
    fn walk_ray(&self, k: Kind, pos: Position, dr: i8, dc: i8, moves: &mut Vec<Position>)
        requires
            pos.0 < 8,
            pos.1 < 8,
            -1 <= dr <= 1,
            -1 <= dc <= 1,
            !(dr == 0 && dc == 0),
        ensures
            moves_view(final(moves)@) == moves_view(old(moves)@)
                + ray_seq(self@, k, pos.0 as int, pos.1 as int, dr as int, dc as int),
    {
        let ghost orig = moves@;
        let ghost b = self@;
        let ghost full = ray_seq(self@, k, pos.0 as int, pos.1 as int, dr as int, dc as int);
        let mut r = pos.0;
        let mut c = pos.1;
        let ghost mut pushed: Seq<Position> = Seq::empty();
        loop
            invariant_except_break
                full == moves_view(pushed) + ray_seq(b, k, r as int, c as int, dr as int, dc as int),
            invariant
                r < 8,
                c < 8,
                -1 <= dr <= 1,
                -1 <= dc <= 1,
                !(dr == 0 && dc == 0),
                b == self@,
                moves@ == orig + pushed,
            ensures
                moves@ == orig + pushed,
                full == moves_view(pushed),
            decreases
                (if dr <= 0 { r as int } else { 7 - r as int })
                    + (if dc <= 0 { c as int } else { 7 - c as int }),
        {
            if (dr < 0 && r == 0) || (dr > 0 && r == 7) || (dc < 0 && c == 0) || (dc > 0 && c == 7) {
                proof {
                    assert(ray_seq(b, k, r as int, c as int, dr as int, dc as int)
                        =~= Seq::<(int, int)>::empty());
                    assert(full =~= moves_view(pushed));
                }
                break;
            }
            let nr = if dr < 0 { r - 1 } else if dr > 0 { r + 1 } else { r };
            let nc = if dc < 0 { c - 1 } else if dc > 0 { c + 1 } else { c };
            match self.at((nr, nc)) {
                None => {
                    moves.push((nr, nc));
                    proof {
                        lemma_moves_view_push(pushed, (nr, nc));
                        pushed = pushed.push((nr, nc));
                        assert(moves@ =~= orig + pushed);
                        assert(full =~= moves_view(pushed)
                            + ray_seq(b, k, nr as int, nc as int, dr as int, dc as int));
                    }
                    r = nr;
                    c = nc;
                }
                Some(p) => {
                    if p.kind != k {
                        moves.push((nr, nc));
                        proof {
                            lemma_moves_view_push(pushed, (nr, nc));
                            pushed = pushed.push((nr, nc));
                            assert(moves@ =~= orig + pushed);
                            assert(full =~= moves_view(pushed));
                        }
                    } else {
                        proof {
                            assert(ray_seq(b, k, r as int, c as int, dr as int, dc as int)
                                =~= Seq::<(int, int)>::empty());
                            assert(full =~= moves_view(pushed));
                        }
                    }
                    break;
                }
            }
        }
        proof {
            lemma_moves_view_add(orig, pushed);
        }
    }

    /// Appends the fixed-offset destination from `pos` by (dr, dc), if
    /// any, to `moves`.
    fn push_step(&self, k: Kind, pos: Position, dr: i8, dc: i8, moves: &mut Vec<Position>)
        requires
            pos.0 < 8,
            pos.1 < 8,
            -2 <= dr <= 2,
            -2 <= dc <= 2,
        ensures
            moves_view(final(moves)@) == moves_view(old(moves)@)
                + step_seq(self@, k, pos.0 as int, pos.1 as int, dr as int, dc as int),
    {
        let ghost target = step_seq(self@, k, pos.0 as int, pos.1 as int, dr as int, dc as int);
        let nr_i = pos.0 as i8 + dr;
        let nc_i = pos.1 as i8 + dc;
        if nr_i < 0 || nr_i > 7 || nc_i < 0 || nc_i > 7 {
            proof {
                assert(moves_view(moves@) =~= moves_view(moves@) + target);
            }
            return;
        }
        let nr = nr_i as usize;
        let nc = nc_i as usize;
        let take = match self.at((nr, nc)) {
            None => true,
            Some(p) => p.kind != k,
        };
        if take {
            let ghost before = moves@;
            moves.push((nr, nc));
            proof {
                lemma_moves_view_push(before, (nr, nc));
                assert(moves_view(moves@) =~= moves_view(before) + target);
            }
        } else {
            proof {
                assert(moves_view(moves@) =~= moves_view(moves@) + target);
            }
        }
    }

    /// Appends a pawn's single forward step from `pos`, if any, to
    /// `moves`.
    fn push_pawn_forward(&self, k: Kind, pos: Position, moves: &mut Vec<Position>)
        requires
            pos.0 < 8,
            pos.1 < 8,
        ensures
            moves_view(final(moves)@) == moves_view(old(moves)@)
                + pawn_forward_seq(self@, k, pos.0 as int, pos.1 as int),
    {
        let ghost target = pawn_forward_seq(self@, k, pos.0 as int, pos.1 as int);
        let fr_i = pos.0 as i8 + match k {
            Kind::White => -1,
            Kind::Black => 1,
        };
        if fr_i >= 0 && fr_i <= 7 {
            let fr = fr_i as usize;
            if self.at((fr, pos.1)).is_none() {
                let ghost before = moves@;
                moves.push((fr, pos.1));
                proof {
                    lemma_moves_view_push(before, (fr, pos.1));
                    assert(moves_view(moves@) =~= moves_view(before) + target);
                }
                return;
            }
        }
        proof {
            assert(moves_view(moves@) =~= moves_view(moves@) + target);
        }
    }

    /// Appends a pawn's diagonal-forward capture from `pos` toward
    /// column `pos.1 + dc`, if any, to `moves`.
    fn push_pawn_capture(&self, k: Kind, pos: Position, dc: i8, moves: &mut Vec<Position>)
        requires
            pos.0 < 8,
            pos.1 < 8,
            -1 <= dc <= 1,
        ensures
            moves_view(final(moves)@) == moves_view(old(moves)@)
                + pawn_capture_seq(self@, k, pos.0 as int, pos.1 as int, dc as int),
    {
        let ghost target = pawn_capture_seq(self@, k, pos.0 as int, pos.1 as int, dc as int);
        let fr_i = pos.0 as i8 + match k {
            Kind::White => -1,
            Kind::Black => 1,
        };
        let fc_i = pos.1 as i8 + dc;
        if fr_i >= 0 && fr_i <= 7 && fc_i >= 0 && fc_i <= 7 {
            let fr = fr_i as usize;
            let fc = fc_i as usize;
            let capture = match self.at((fr, fc)) {
                Some(p) => p.kind != k,
                None => false,
            };
            if capture {
                let ghost before = moves@;
                moves.push((fr, fc));
                proof {
                    lemma_moves_view_push(before, (fr, fc));
                    assert(moves_view(moves@) =~= moves_view(before) + target);
                }
                return;
            }
        }
        proof {
            assert(moves_view(moves@) =~= moves_view(moves@) + target);
        }
    }

    /// Appends a pawn's double step from its starting row, if any, to
    /// `moves`.
    fn push_pawn_double(&self, k: Kind, pos: Position, moves: &mut Vec<Position>)
        requires
            pos.0 < 8,
            pos.1 < 8,
        ensures
            moves_view(final(moves)@) == moves_view(old(moves)@)
                + pawn_double_seq(self@, k, pos.0 as int, pos.1 as int),
    {
        let ghost target = pawn_double_seq(self@, k, pos.0 as int, pos.1 as int);
        let taken = match k {
            Kind::White => pos.0 == 6
                && self.at((5, pos.1)).is_none() && self.at((4, pos.1)).is_none(),
            Kind::Black => pos.0 == 1
                && self.at((2, pos.1)).is_none() && self.at((3, pos.1)).is_none(),
        };
        if taken {
            let dest = match k {
                Kind::White => (4, pos.1),
                Kind::Black => (3, pos.1),
            };
            let ghost before = moves@;
            moves.push(dest);
            proof {
                lemma_moves_view_push(before, dest);
                assert(moves_view(moves@) =~= moves_view(before) + target);
            }
        } else {
            proof {
                assert(moves_view(moves@) =~= moves_view(moves@) + target);
            }
        }
    }

    /// Every pseudo-legal destination for the occupant of `pos`, in
    /// the fixed enumeration order of the piece's movement rules.
    pub fn all_moves(&self, pos: Position) -> (moves: Vec<Position>)
        requires
            pos.0 < 8,
            pos.1 < 8,
            square_at(self@, pos.0 as int, pos.1 as int) is Some,
        ensures
            moves_view(moves@) == destinations(self@, pos.0 as int, pos.1 as int),
    {
        let pair = self.at(pos).unwrap();
        let mut moves: Vec<Position> = Vec::new();
        proof {
            assert(moves_view(moves@) =~= Seq::<(int, int)>::empty());
        }
        match pair.piece {
            Piece::Rook => {
                self.walk_ray(pair.kind, pos, -1, 0, &mut moves);
                self.walk_ray(pair.kind, pos, 1, 0, &mut moves);
                self.walk_ray(pair.kind, pos, 0, -1, &mut moves);
                self.walk_ray(pair.kind, pos, 0, 1, &mut moves);
            }
            Piece::Knight => {
                self.push_step(pair.kind, pos, -2, -1, &mut moves);
                self.push_step(pair.kind, pos, -2, 1, &mut moves);
                self.push_step(pair.kind, pos, 2, -1, &mut moves);
                self.push_step(pair.kind, pos, 2, 1, &mut moves);
                self.push_step(pair.kind, pos, -1, -2, &mut moves);
                self.push_step(pair.kind, pos, 1, -2, &mut moves);
                self.push_step(pair.kind, pos, -1, 2, &mut moves);
                self.push_step(pair.kind, pos, 1, 2, &mut moves);
            }
            Piece::Bishop => {
                self.walk_ray(pair.kind, pos, -1, -1, &mut moves);
                self.walk_ray(pair.kind, pos, -1, 1, &mut moves);
                self.walk_ray(pair.kind, pos, 1, -1, &mut moves);
                self.walk_ray(pair.kind, pos, 1, 1, &mut moves);
            }
            Piece::Queen => {
                self.walk_ray(pair.kind, pos, -1, 0, &mut moves);
                self.walk_ray(pair.kind, pos, 1, 0, &mut moves);
                self.walk_ray(pair.kind, pos, 0, -1, &mut moves);
                self.walk_ray(pair.kind, pos, 0, 1, &mut moves);
                self.walk_ray(pair.kind, pos, -1, -1, &mut moves);
                self.walk_ray(pair.kind, pos, -1, 1, &mut moves);
                self.walk_ray(pair.kind, pos, 1, -1, &mut moves);
                self.walk_ray(pair.kind, pos, 1, 1, &mut moves);
            }
            Piece::King => {
                self.push_step(pair.kind, pos, -1, 0, &mut moves);
                self.push_step(pair.kind, pos, 1, 0, &mut moves);
                self.push_step(pair.kind, pos, 0, -1, &mut moves);
                self.push_step(pair.kind, pos, 0, 1, &mut moves);
                self.push_step(pair.kind, pos, -1, -1, &mut moves);
                self.push_step(pair.kind, pos, -1, 1, &mut moves);
                self.push_step(pair.kind, pos, 1, -1, &mut moves);
                self.push_step(pair.kind, pos, 1, 1, &mut moves);
            }
            Piece::Pawn => {
                self.push_pawn_forward(pair.kind, pos, &mut moves);
                self.push_pawn_capture(pair.kind, pos, -1, &mut moves);
                self.push_pawn_capture(pair.kind, pos, 1, &mut moves);
                self.push_pawn_double(pair.kind, pos, &mut moves);
            }
        }
        proof {
            assert(moves_view(moves@)
                =~= destinations(self@, pos.0 as int, pos.1 as int));
        }
        moves
    }

    /// Every pseudo-legal destination for the occupant of `pos`, or
    /// `EmptySource` when the square holds none. The result is a
    /// function of the board snapshot and `pos` alone, so two calls
    /// without an intervening mutation return identical results.
    pub fn legal_destinations(&self, pos: Position) -> (r: Result<Vec<Position>, ChessError>)
        requires
            pos.0 < 8,
            pos.1 < 8,
        ensures
            match square_at(self@, pos.0 as int, pos.1 as int) {
                None => r == Err::<Vec<Position>, ChessError>(ChessError::EmptySource),
                Some(_) => ({
                    &&& r matches Ok(v)
                    &&& moves_view(v@) == destinations(self@, pos.0 as int, pos.1 as int)
                }),
            },
    {
        match self.at(pos) {
            None => Err(ChessError::EmptySource),
            Some(_) => Ok(self.all_moves(pos)),
        }
    }

    /// Validates a move request against the pseudo-legal destinations
    /// of the occupant of `from` and applies it on acceptance. Fails
    /// with `EmptySource` when `from` holds no occupant and with
    /// `IllegalDestination` when `to` is not among the occupant's
    /// destinations; on either failure the grid is left unchanged.
    pub fn try_move(&mut self, from: Position, to: Position) -> (r: Result<(), ChessError>)
        requires
            from.0 < 8,
            from.1 < 8,
            to.0 < 8,
            to.1 < 8,
        ensures
            match square_at(old(self)@, from.0 as int, from.1 as int) {
                None => r == Err::<(), ChessError>(ChessError::EmptySource)
                    && final(self)@ == old(self)@,
                Some(p) => if destinations(old(self)@, from.0 as int, from.1 as int)
                    .contains((to.0 as int, to.1 as int)) {
                    r == Ok::<(), ChessError>(()) && final(self)@ == old(self)@
                        .update(to.0 as int * 8 + to.1 as int, Some(p))
                        .update(from.0 as int * 8 + from.1 as int, None::<Pair>)
                } else {
                    r == Err::<(), ChessError>(ChessError::IllegalDestination)
                        && final(self)@ == old(self)@
                },
            },
    {
        if self.at(from).is_none() {
            return Err(ChessError::EmptySource);
        }
        let ghost dests = destinations(self@, from.0 as int, from.1 as int);
        let moves = self.all_moves(from);
        let mut found = false;
        let mut i: usize = 0;
        while i < moves.len()
            invariant
                i <= moves@.len(),
                moves_view(moves@) == dests,
                found <==> exists|j: int| 0 <= j < i && moves@[j] == to,
            decreases moves@.len() - i,
        {
            if moves[i].0 == to.0 && moves[i].1 == to.1 {
                found = true;
            }
            i = i + 1;
        }
        if found {
            proof {
                let j = choose|j: int| 0 <= j < moves@.len() && moves@[j] == to;
                assert(moves_view(moves@)[j] == (to.0 as int, to.1 as int));
            }
            self.move_piece(from, to)
        } else {
            proof {
                assert forall|j: int| 0 <= j < dests.len()
                    implies dests[j] != ((to.0 as int, to.1 as int)) by {
                    assert(dests[j] == pos_view(moves@[j]));
                    assert(moves@[j] != to);
                }
                assert(!dests.contains((to.0 as int, to.1 as int)));
            }
            Err(ChessError::IllegalDestination)
        }
    }
}

} // verus!
