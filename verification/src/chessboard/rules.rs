//! The rules of the game, stated move by move.

use vstd::prelude::*;
use crate::attack::init::{king_attacks, pawn_attacks};
use crate::bitboard::PROMOTION_SQUARES;
use crate::bits::{lowest, member};
use crate::chessboard::movegen::reach;
use crate::chessboard::position::Position;
use crate::chessboard::updatestate::apply;
use crate::chessboard::{attacked, castle_legal};
use crate::chessmove::{castle_move, make, valid_kind, ChessMove, MoveType};
use crate::chesspiece::{ChessPiece, PieceType, Side};
use crate::square::Square;

verus! {

/// Whether the other side attacks the king of `side`.
pub open spec fn in_check(pos: Position, side: Side) -> bool {
    attacked(pos, pos.king_idx(side), side.flip(), pos.occ())
}

/// Whether the kings do not stand next to each other.
pub open spec fn kings_apart(pos: Position) -> bool {
    king_attacks(pos.king_idx(pos.side)) & pos.pieces(
        ChessPiece(pos.side.flip(), PieceType::King),
    ) == 0
}

/// Whether the move is one that its piece can make, the safety of the king
/// left aside. The move is written in the one way in which a move is
/// encoded; a piece of the side to move stands on its source; its target
/// holds neither a piece of that side nor a king. A normal move ends on a
/// square that the piece reaches, and for a pawn not on the first or last
/// rank; a promotion is a pawn's move to the first or last rank; an
/// en-passant capture is a pawn's move to the en-passant square, which it
/// attacks; a castle is the king's, made while it is not in check, with the
/// right held, the squares between king and rook empty and the king's path
/// not attacked.
pub open spec fn follows_rules(pos: Position, m: ChessMove) -> bool {
    let s = m.source_idx();
    let t = m.target_idx();
    &&& m == make(Square::of(s), Square::of(t), m.kind())
    &&& valid_kind(m.kind())
    &&& pos.board[s] is Some
    &&& pos.piece_at(s).0 == pos.side
    &&& (pos.board[t] matches Some(q) ==> q.0 != pos.side && q.1 != PieceType::King)
    &&& match m.kind() {
        MoveType::Normal => member(reach(pos, pos.piece_at(s).1, s), t) && (pos.piece_at(s).1
            == PieceType::Pawn ==> !member(PROMOTION_SQUARES, t)),
        MoveType::Promotion(_) => pos.piece_at(s).1 == PieceType::Pawn && member(
            reach(pos, PieceType::Pawn, s),
            t,
        ) && member(PROMOTION_SQUARES, t),
        MoveType::EnPassant => pos.piece_at(s).1 == PieceType::Pawn && pos.ep != 0 && t == lowest(
            pos.ep,
        ) && member(pawn_attacks(pos.side, s), t),
        MoveType::Castle(c) => c.side() == pos.side && m == castle_move(c) && !in_check(
            pos,
            pos.side,
        ) && castle_legal(pos, c),
    }
}

/// Whether the move follows the rules and does not leave the mover's king attacked.
pub open spec fn legal(pos: Position, m: ChessMove) -> bool {
    follows_rules(pos, m) && !in_check(apply(pos, m), pos.side)
}

} // verus!
