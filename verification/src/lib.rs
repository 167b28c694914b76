//! A verified chessboard: an 8x8 grid of optional occupants with the
//! standard opening setup, pseudo-legal destination generation for the
//! occupant of a square, and validated move application.
//!
//! The move generator ignores everything outside pure piece movement:
//! there is no check detection, no turn enforcement, no castling,
//! no en passant and no promotion.

pub mod api;
pub mod chess;
pub mod moves;

pub use chess::Board;
pub use chess::ChessError;
pub use chess::Kind;
pub use chess::Pair;
pub use chess::Piece;
pub use chess::Position;
