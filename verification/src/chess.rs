//! The board: an 8x8 grid of optional occupants, with the standard
//! opening setup and a relocation operation.

use vstd::prelude::*;

verus! {

/// The shape of a chess piece, which decides its movement rule.
#[derive(Clone, Copy, Debug, PartialEq, Eq, Structural)]
pub enum Piece {
    Rook,
    Knight,
    Bishop,
    Queen,
    King,
    Pawn,
}

/// The colour that owns an occupant.
#[derive(Clone, Copy, Debug, PartialEq, Eq, Structural)]
pub enum Kind {
    White,
    Black,
}

/// An occupant of a square: a colour together with a piece.
#[derive(Clone, Copy, Debug, PartialEq, Eq, Structural)]
pub struct Pair {
    pub kind: Kind,
    pub piece: Piece,
}

/// The recoverable failures of the board operations.
#[derive(Clone, Copy, Debug, PartialEq, Eq, Structural)]
pub enum ChessError {
    /// The queried or moved-from square holds no occupant.
    EmptySource,
    /// The requested target square is not a pseudo-legal destination
    /// for the occupant of the source square.
    IllegalDestination,
}

/// A coordinate (row, column), each in [0, 7]. Row 0 is black's home
/// rank in the standard setup, row 7 is white's.
pub type Position = (usize, usize);

/// Whether (r, c) lies on the 8x8 grid.
pub open spec fn in_bounds(r: int, c: int) -> bool {
    0 <= r < 8 && 0 <= c < 8
}

/// The occupant of square (r, c) in a row-major view of the grid.
pub open spec fn square_at(b: Seq<Option<Pair>>, r: int, c: int) -> Option<Pair> {
    b[r * 8 + c]
}

/// The piece standing in column c of a back rank in the standard
/// setup: rooks at the corners, knights beside them, then bishops,
/// with the queen in column 3 and the king in column 4.
pub open spec fn back_rank_piece(c: int) -> Piece {
    if c == 0 || c == 7 {
        Piece::Rook
    } else if c == 1 || c == 6 {
        Piece::Knight
    } else if c == 2 || c == 5 {
        Piece::Bishop
    } else if c == 3 {
        Piece::Queen
    } else {
        Piece::King
    }
}

/// The occupant of (r, c) in the standard opening setup: black's back
/// rank on row 0 and pawns on row 1, white's pawns on row 6 and back
/// rank on row 7.
pub open spec fn initial_square(r: int, c: int) -> Option<Pair> {
    if r == 0 {
        Some(Pair { kind: Kind::Black, piece: back_rank_piece(c) })
    } else if r == 1 {
        Some(Pair { kind: Kind::Black, piece: Piece::Pawn })
    } else if r == 6 {
        Some(Pair { kind: Kind::White, piece: Piece::Pawn })
    } else if r == 7 {
        Some(Pair { kind: Kind::White, piece: back_rank_piece(c) })
    } else {
        None
    }
}

/// An 8x8 grid of optional occupants, stored row-major. Its view is
/// the sequence of the 64 squares, row 0 first.
pub struct Board {
    squares: Vec<Option<Pair>>,
}

impl View for Board {
    type V = Seq<Option<Pair>>;

    closed spec fn view(&self) -> Seq<Option<Pair>> {
        self.squares@
    }
}

impl Board {
    #[verifier::type_invariant]
    spec fn grid_shape(self) -> bool {
        self.squares@.len() == 64
    }

    /// An empty grid: every square unoccupied.
    pub fn new() -> (b: Board)
        ensures
            b@.len() == 64,
            forall|i: int| 0 <= i < 64 ==> b@[i] is None,
            forall|r: int, c: int| in_bounds(r, c) ==> square_at(b@, r, c) is None,
    {
        let squares: Vec<Option<Pair>> = vec![None; 64];
        Board { squares }
    }

    /// A grid holding the given occupants, `data[r][c]` at row r,
    /// column c.
    pub fn from_data(data: [[Option<Pair>; 8]; 8]) -> (b: Board)
        ensures
            b@.len() == 64,
            forall|r: int, c: int| in_bounds(r, c) ==> square_at(b@, r, c) == data@[r]@[c],
    {
        let mut squares: Vec<Option<Pair>> = Vec::new();
        let mut r: usize = 0;
        while r < 8
            invariant
                r <= 8,
                squares@.len() == 8 * r,
                forall|r2: int, c2: int| 0 <= r2 < r && 0 <= c2 < 8
                    ==> squares@[r2 * 8 + c2] == #[trigger] data@[r2]@[c2],
            decreases 8 - r,
        {
            let row = data[r];
            let mut c: usize = 0;
            while c < 8
                invariant
                    r < 8,
                    c <= 8,
                    row == data@[r as int],
                    squares@.len() == 8 * r + c,
                    forall|r2: int, c2: int| 0 <= r2 < r && 0 <= c2 < 8
                        ==> squares@[r2 * 8 + c2] == #[trigger] data@[r2]@[c2],
                    forall|c2: int| 0 <= c2 < c
                        ==> squares@[r * 8 + c2] == #[trigger] data@[r as int]@[c2],
                decreases 8 - c,
            {
                squares.push(row[c]);
                c = c + 1;
            }
            r = r + 1;
        }
        Board { squares }
    }

    /// The occupant of `pos`, or `None` for an empty square.
    pub fn at(&self, pos: Position) -> (r: Option<Pair>)
        requires
            pos.0 < 8,
            pos.1 < 8,
        ensures
            r == square_at(self@, pos.0 as int, pos.1 as int),
    {
        proof {
            use_type_invariant(self);
        }
        self.squares[pos.0 * 8 + pos.1]
    }

    /// Replaces the occupant of `pos` with `v`.
    pub fn set_square(&mut self, pos: Position, v: Option<Pair>)
        requires
            pos.0 < 8,
            pos.1 < 8,
        ensures
            final(self)@ == old(self)@.update(pos.0 as int * 8 + pos.1 as int, v),
    {
        proof {
            use_type_invariant(&*self);
        }
        self.squares[pos.0 * 8 + pos.1] = v;
    }

    /// Relocates the occupant of `from` into `to` and clears `from`,
    /// without asking whether the piece may move there. Fails with
    /// `EmptySource`, leaving the grid unchanged, when `from` holds
    /// no occupant.
    pub fn move_piece(&mut self, from: Position, to: Position) -> (r: Result<(), ChessError>)
        requires
            from.0 < 8,
            from.1 < 8,
            to.0 < 8,
            to.1 < 8,
        ensures
            match square_at(old(self)@, from.0 as int, from.1 as int) {
                None => r == Err::<(), ChessError>(ChessError::EmptySource)
                    && final(self)@ == old(self)@,
                Some(p) => r == Ok::<(), ChessError>(())
                    && final(self)@ == old(self)@
                        .update(to.0 as int * 8 + to.1 as int, Some(p))
                        .update(from.0 as int * 8 + from.1 as int, None::<Pair>),
            },
    {
        proof {
            use_type_invariant(&*self);
        }
        match self.at(from) {
            None => Err(ChessError::EmptySource),
            Some(p) => {
                self.squares[to.0 * 8 + to.1] = Some(p);
                self.squares[from.0 * 8 + from.1] = None;
                Ok(())
            }
        }
    }
}

/// The occupant of (r, c) in the standard opening setup.
fn initial_square_exec(r: usize, c: usize) -> (p: Option<Pair>)
    requires
        r < 8,
        c < 8,
    ensures
        p == initial_square(r as int, c as int),
{
    if r == 1 {
        Some(Pair { kind: Kind::Black, piece: Piece::Pawn })
    } else if r == 6 {
        Some(Pair { kind: Kind::White, piece: Piece::Pawn })
    } else if r == 0 || r == 7 {
        let kind = if r == 0 { Kind::Black } else { Kind::White };
        let piece = if c == 0 || c == 7 {
            Piece::Rook
        } else if c == 1 || c == 6 {
            Piece::Knight
        } else if c == 2 || c == 5 {
            Piece::Bishop
        } else if c == 3 {
            Piece::Queen
        } else {
            Piece::King
        };
        Some(Pair { kind, piece })
    } else {
        None
    }
}

impl Default for Board {
    /// A grid pre-populated with the standard chess opening position.
    fn default() -> (b: Board)
        ensures
            b@.len() == 64,
            forall|r: int, c: int| in_bounds(r, c)
                ==> square_at(b@, r, c) == initial_square(r, c),
    {
        let mut squares: Vec<Option<Pair>> = Vec::new();
        let mut r: usize = 0;
        while r < 8
            invariant
                r <= 8,
                squares@.len() == 8 * r,
                forall|r2: int, c2: int| 0 <= r2 < r && 0 <= c2 < 8
                    ==> squares@[r2 * 8 + c2] == #[trigger] initial_square(r2, c2),
            decreases 8 - r,
        {
            let mut c: usize = 0;
            while c < 8
                invariant
                    r < 8,
                    c <= 8,
                    squares@.len() == 8 * r + c,
                    forall|r2: int, c2: int| 0 <= r2 < r && 0 <= c2 < 8
                        ==> squares@[r2 * 8 + c2] == #[trigger] initial_square(r2, c2),
                    forall|c2: int| 0 <= c2 < c
                        ==> squares@[r * 8 + c2] == #[trigger] initial_square(r as int, c2),
                decreases 8 - c,
            {
                squares.push(initial_square_exec(r, c));
                c = c + 1;
            }
            r = r + 1;
        }
        Board { squares }
    }
}

} // verus!
