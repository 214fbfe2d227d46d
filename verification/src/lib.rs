//! A chess rules engine: bitboards, attack tables, legal move generation and
//! reversible position updates, with machine-checked contracts.

pub mod array_vec;
pub mod attack;
pub mod bitboard;
pub mod bits;
pub mod chessboard;
pub mod chessmove;
pub mod chesspiece;
pub mod clock;
pub mod evaluator;
pub mod lexi;
pub mod limits;
pub mod nnue;
pub mod square;
pub mod transposition;

pub use crate::attack::AttackTables;
pub use crate::bitboard::Bitboard;
pub use crate::chessboard::game::{ChessBoardSnapshot, ChessGame};
pub use crate::chessboard::zobrist::{ZobristHash, ZobristTable};
pub use crate::chessboard::{ChessBoard, GameResult, GameState};
pub use crate::chessmove::{Castling, ChessMove, MoveList, MoveType, Precedence};
pub use crate::lexi::LexiOrd;
pub use crate::nnue::{castle_index, index};
pub use crate::chesspiece::{ChessPiece, FenError, PieceType, Side, SliderType};
pub use crate::square::{Column, Square};
