//! The values exchanged with the transport layer around the board: a
//! move request naming two squares, and a snapshot of the occupied
//! squares. Translating square names to and from coordinates, and any
//! wire format, is the transport's own business.

use vstd::prelude::*;

use crate::chess::Pair;
use crate::chess::Position;

verus! {

/// A request to move the occupant of one named square to another. The
/// square names are carried verbatim; decoding them is left to the
/// transport layer.
pub struct RequestMove {
    from: String,
    to: String,
}

impl View for RequestMove {
    type V = (Seq<char>, Seq<char>);

    closed spec fn view(&self) -> (Seq<char>, Seq<char>) {
        (self.from@, self.to@)
    }
}

impl RequestMove {
    /// A request carrying the two given square names.
    pub fn new(from: String, to: String) -> (r: RequestMove)
        ensures
            r@ == (from@, to@),
    {
        RequestMove { from, to }
    }

    /// The name of the square moved from.
    pub fn from(&self) -> (r: String)
        ensures
            r@ == self@.0,
    {
        self.from.clone()
    }

    /// The name of the square moved to.
    pub fn to(&self) -> (r: String)
        ensures
            r@ == self@.1,
    {
        self.to.clone()
    }
}

/// An entry of a snapshot as a pair of mathematical values.
pub open spec fn entry_view(e: (Position, Pair)) -> ((int, int), Pair) {
    ((e.0.0 as int, e.0.1 as int), e.1)
}

/// A sequence of snapshot entries as pairs of mathematical values.
pub open spec fn entries_view(s: Seq<(Position, Pair)>) -> Seq<((int, int), Pair)> {
    s.map_values(|e: (Position, Pair)| entry_view(e))
}

/// The occupied squares among the first `n` squares of a row-major
/// grid view, in row-major order, each with its occupant.
pub open spec fn occupied_entries(b: Seq<Option<Pair>>, n: int) -> Seq<((int, int), Pair)>
    decreases n,
{
    if n <= 0 {
        seq![]
    } else {
        occupied_entries(b, n - 1) + match b[n - 1] {
            Some(p) => seq![(((n - 1) / 8, (n - 1) % 8), p)],
            None => seq![],
        }
    }
}

/// A snapshot of a grid: its occupied squares in row-major order,
/// each with its occupant. Empty squares are omitted.
pub struct Board {
    /// The occupied squares, row-major, each with its occupant.
    pub entries: Vec<(Position, Pair)>,
}

impl Board {
    /// The snapshot of the given grid.
    pub fn snapshot(src: &crate::chess::Board) -> (snap: Board)
        ensures
            entries_view(snap.entries@) == occupied_entries(src@, 64),
    {
        let mut entries: Vec<(Position, Pair)> = Vec::new();
        proof {
            assert(occupied_entries(src@, 0) =~= Seq::<((int, int), Pair)>::empty());
            assert(entries_view(entries@) =~= Seq::<((int, int), Pair)>::empty());
        }
        let mut r: usize = 0;
        while r < 8
            invariant
                r <= 8,
                entries_view(entries@) == occupied_entries(src@, 8 * r),
            decreases 8 - r,
        {
            let mut c: usize = 0;
            while c < 8
                invariant
                    r < 8,
                    c <= 8,
                    entries_view(entries@) == occupied_entries(src@, 8 * r + c),
                decreases 8 - c,
            {
                let ghost n = 8 * (r as int) + (c as int);
                proof {
                    assert(n / 8 == r as int && n % 8 == c as int) by (nonlinear_arith)
                        requires
                            n == 8 * (r as int) + (c as int),
                            0 <= r as int,
                            0 <= (c as int) < 8,
                    ;
                }
                let ghost before = entries@;
                match src.at((r, c)) {
                    Some(p) => {
                        entries.push(((r, c), p));
                        proof {
                            assert(entries_view(entries@)
                                =~= entries_view(before).push((((r as int, c as int)), p)));
                            assert(entries_view(entries@) =~= occupied_entries(src@, n + 1));
                        }
                    }
                    None => {
                        proof {
                            assert(entries_view(entries@) =~= occupied_entries(src@, n + 1));
                        }
                    }
                }
                c = c + 1;
            }
            r = r + 1;
        }
        Board { entries }
    }
}

} // verus!
