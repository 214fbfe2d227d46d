//! The legal moves are the moves that follow the rules and do not leave the
//! mover's king attacked.

use vstd::prelude::*;
use crate::attack::init::{king_attacks, knight_attacks};
use crate::attack::{line_dir, long_line};
use crate::bits::{
    lemma_ext, lemma_is_single, lemma_member_and, lemma_member_not, lemma_member_single,
    lemma_member_zero, lemma_single, member, single,
};
use crate::chessboard::castle_safe::lemma_castle_safe;
use crate::chessboard::ep_listed::{ep_plain, lemma_ep_listed, lemma_pawn_attack_back};
use crate::chessboard::ep_safe::{ep_shielded, lemma_after_ep};
use crate::chessboard::king_target;
use crate::chessboard::ruled::{lemma_legal_ruled, lemma_threats_attacked, ruled};
use crate::chessboard::soundness::lemma_after_move;
use crate::chessboard::check::check_state;
use crate::chessboard::checks::{lemma_checkers, threats};
use crate::chessboard::exposed::{
    lemma_pinner, lemma_safe_answers, lemma_safe_pinned, lemma_safe_unpinned,
};
use crate::chessboard::laws::lemma_knight_attacks;
use crate::chessboard::legality::{
    lemma_attacked_threats, lemma_legal_moves_safe, safe_after,
};
use crate::chessboard::listed::{
    lemma_has_left, lemma_has_right, lemma_king_steps_have, lemma_legal_has_king,
    lemma_legal_has_piece, lemma_normal_has, lemma_pawn_moves_have, lemma_piece_moves_have,
};
use crate::chessboard::movegen::{
    allowed, castle_if_legal, castles, king_steps, king_targets, legal_moves, moves_from, reach,
    target_mask,
};
use crate::chessboard::pinned::lemma_long_line;
use crate::chessboard::position::{lemma_occ_member, Position};
use crate::chessboard::rules::{follows_rules, in_check, kings_apart, legal};
use crate::chessboard::safety::lemma_king_step_safe;
use crate::chessboard::updatestate::apply;
use crate::chessboard::valid;
use crate::chessmove::{Castling, ChessMove, MoveType};
use crate::chesspiece::{ChessPiece, PieceType};

verus! {

/// No square that a knight attacks lies on a line through the knight's square.
proof fn lemma_knight_off_line(king: int, s: int, t: int)
    requires
        0 <= king < 64,
        0 <= s < 64,
        line_dir(king, s) is Some,
        member(knight_attacks(s), t),
    ensures
        !member(long_line(king, s), t),
{
    lemma_knight_attacks(s, t);
    lemma_long_line(king, s, t);
}

/// A normal move or a promotion of a piece other than the king that follows
/// the rules and leaves the king attacked by no enemy pawn, knight, bishop,
/// rook or queen is among the legal moves.
pub proof fn lemma_piece_move_listed(pos: Position, m: ChessMove)
    requires
        valid(pos),
        follows_rules(pos, m),
        m.kind() is Normal || m.kind() is Promotion,
        pos.piece_at(m.source_idx()).1 != PieceType::King,
        threats(apply(pos, m), pos.side) == 0,
    ensures
        legal_moves(pos).contains(m),
{
    let side = pos.side;
    let s = m.source_idx();
    let t = m.target_idx();
    let kind = m.kind();
    let piece = pos.piece_at(s).1;
    let cs = check_state(pos);
    let king_bb = pos.pieces(ChessPiece(side, PieceType::King));
    lemma_is_single(king_bb);
    let king = pos.king_idx(side);
    lemma_safe_answers(pos, s, t, kind);
    let own = pos.side_occ(side);
    let enemy_king = pos.pieces(ChessPiece(side.flip(), PieceType::King));
    lemma_member_and(cs.mask & !own, !enemy_king, t);
    lemma_member_and(cs.mask, !own, t);
    lemma_member_not(own, t);
    lemma_member_not(enemy_king, t);
    pos.lemma_side_occ(side, t);
    lemma_occ_member(pos.board, ChessPiece(side.flip(), PieceType::King), t);
    assert(member(target_mask(pos, cs), t));
    let pinned = member(cs.pinned, s);
    assert(member(reach(pos, piece, s), t));
    lemma_member_and(target_mask(pos, cs), long_line(king, s), t);
    if pinned {
        lemma_pinner(pos, s);
        lemma_safe_pinned(pos, s, t, kind);
        if cs.checkers != 0 {
            lemma_safe_unpinned(pos, s, t, kind);
        }
        if piece == PieceType::Knight {
            lemma_knight_off_line(king, s, t);
        }
    }
    assert(member(allowed(pos, cs, s, pinned), t));
    lemma_member_and(reach(pos, piece, s), allowed(pos, cs, s, pinned), t);
    let targets = reach(pos, piece, s) & allowed(pos, cs, s, pinned);
    if piece == PieceType::Pawn {
        lemma_pawn_moves_have(s, targets, t, kind);
    } else {
        lemma_normal_has(s, targets, t);
    }
    assert(moves_from(pos, cs, piece, s, pinned).contains(m));
    lemma_occ_member(pos.board, ChessPiece(side, piece), s);
    lemma_piece_moves_have(pos, cs, piece, s, m);
    lemma_legal_has_piece(pos, piece, m);
}

/// A step of the king that follows the rules and does not leave the king
/// attacked is among the legal moves.
pub proof fn lemma_king_step_listed(pos: Position, m: ChessMove)
    requires
        valid(pos),
        follows_rules(pos, m),
        m.kind() is Normal,
        pos.piece_at(m.source_idx()).1 == PieceType::King,
        !in_check(apply(pos, m), pos.side),
    ensures
        legal_moves(pos).contains(m),
{
    let side = pos.side;
    let s = m.source_idx();
    let t = m.target_idx();
    let cs = check_state(pos);
    let king_bb = pos.pieces(ChessPiece(side, PieceType::King));
    lemma_is_single(king_bb);
    let king = pos.king_idx(side);
    lemma_occ_member(pos.board, ChessPiece(side, PieceType::King), s);
    lemma_member_single(king, s);
    assert(s == king);
    let own = pos.side_occ(side);
    let enemy_king = pos.pieces(ChessPiece(side.flip(), PieceType::King));
    lemma_member_and(king_attacks(king) & !own, !enemy_king, t);
    lemma_member_and(king_attacks(king), !own, t);
    lemma_member_not(own, t);
    lemma_member_not(enemy_king, t);
    pos.lemma_side_occ(side, t);
    lemma_occ_member(pos.board, ChessPiece(side.flip(), PieceType::King), t);
    assert(member(king_targets(pos), t));
    lemma_king_step_safe(pos, t);
    lemma_single(t);
    lemma_king_steps_have(pos, king_targets(pos), t);
    lemma_has_left(king_steps(pos, king_targets(pos)), castles(pos, cs), m);
    lemma_legal_has_king(pos, m);
}

/// A castle that follows the rules is among the legal moves.
pub proof fn lemma_castle_listed(pos: Position, m: ChessMove)
    requires
        valid(pos),
        follows_rules(pos, m),
        m.kind() is Castle,
    ensures
        legal_moves(pos).contains(m),
{
    let side = pos.side;
    let cs = check_state(pos);
    let c = m.kind()->Castle_0;
    lemma_attacked_threats(pos, side);
    lemma_checkers(pos);
    assert(cs.checkers == 0);
    let a = castle_if_legal(pos, Castling::Kingside(side));
    let b = castle_if_legal(pos, Castling::Queenside(side));
    if c == Castling::Kingside(side) {
        assert(a[0] == m);
        lemma_has_left(a, b, m);
    } else {
        assert(c == Castling::Queenside(side));
        assert(b[0] == m);
        lemma_has_right(a, b, m);
    }
    lemma_has_right(king_steps(pos, king_targets(pos)), castles(pos, cs), m);
    lemma_legal_has_king(pos, m);
}

/// A move that follows the rules and does not leave the mover's king
/// attacked is among the legal moves, provided that the en-passant target
/// lies between the king and no piece that gives check.
pub proof fn lemma_legal_listed(pos: Position, m: ChessMove)
    requires
        valid(pos),
        ep_plain(pos),
        legal(pos, m),
    ensures
        legal_moves(pos).contains(m),
{
    let next = apply(pos, m);
    lemma_attacked_threats(next, pos.side);
    match m.kind() {
        MoveType::Normal => {
            if pos.piece_at(m.source_idx()).1 == PieceType::King {
                lemma_king_step_listed(pos, m);
            } else {
                lemma_piece_move_listed(pos, m);
            }
        },
        MoveType::Promotion(_) => {
            lemma_piece_move_listed(pos, m);
        },
        MoveType::EnPassant => {
            lemma_ep_listed(pos, m);
        },
        MoveType::Castle(_) => {
            lemma_castle_listed(pos, m);
        },
    }
}

/// Every legal move follows the rules and does not leave the mover's king
/// attacked, provided that the kings do not stand next to each other and
/// that the pawn that can be taken en passant, if there is one, is not the
/// only shield of the king against an enemy slider on a diagonal.
pub proof fn lemma_listed_legal(pos: Position, m: ChessMove)
    requires
        valid(pos),
        kings_apart(pos),
        ep_shielded(pos),
        legal_moves(pos).contains(m),
    ensures
        legal(pos, m),
{
    let side = pos.side;
    let enemy = side.flip();
    let ms = legal_moves(pos);
    let i = choose|i: int| 0 <= i < ms.len() && ms[i] == m;
    lemma_legal_ruled(pos);
    lemma_legal_moves_safe(pos);
    assert(ruled(pos, ms[i]));
    assert(safe_after(pos, ms[i]));
    let s = m.source_idx();
    let t = m.target_idx();
    let next = apply(pos, m);
    let king_bb = pos.pieces(ChessPiece(side, PieceType::King));
    lemma_is_single(king_bb);
    let king = pos.king_idx(side);
    let pk = pos.pieces(ChessPiece(enemy, PieceType::King));
    match m.kind() {
        MoveType::Castle(c) => {
            lemma_castle_safe(pos, c);
            lemma_single(king_target(c));
        },
        MoveType::EnPassant => {
            lemma_pawn_attack_back(side, s, t);
            lemma_after_ep(pos, s);
            assert(next.pieces(ChessPiece(enemy, PieceType::King)) == pk);
            lemma_threats_attacked(next, side);
        },
        _ => {
            if pos.piece_at(s).1 == PieceType::King {
                lemma_occ_member(pos.board, ChessPiece(side, PieceType::King), s);
                lemma_member_single(king, s);
                let own = pos.side_occ(side);
                lemma_member_and(king_attacks(king) & !own, !pk, t);
                lemma_member_and(king_attacks(king), !own, t);
                lemma_member_not(own, t);
                lemma_member_not(pk, t);
                pos.lemma_side_occ(side, t);
                lemma_occ_member(pos.board, ChessPiece(enemy, PieceType::King), t);
                lemma_king_step_safe(pos, t);
                lemma_single(t);
            } else {
                lemma_after_move(pos, s, t, m.kind());
                assert(next.pieces(ChessPiece(enemy, PieceType::King)) == pk & !single(t));
                assert forall|y: int| 0 <= y < 64 implies member(
                    king_attacks(king) & (pk & !single(t)),
                    y,
                ) == member(0, y) by {
                    lemma_member_and(king_attacks(king), pk & !single(t), y);
                    lemma_member_and(pk, !single(t), y);
                    lemma_member_and(king_attacks(king), pk, y);
                    lemma_member_zero(y);
                }
                lemma_ext(king_attacks(king) & (pk & !single(t)), 0);
                lemma_threats_attacked(next, side);
            }
        },
    }
}

/// Whether the kings do not stand next to each other and an en-passant
/// target, if there is one, is of the common kind: the pawn that can be
/// taken is not the only shield of the king against an enemy slider on a
/// diagonal, and the target lies between the king and no piece that gives
/// check.
pub open spec fn regular(pos: Position) -> bool {
    kings_apart(pos) && ep_shielded(pos) && ep_plain(pos)
}

/// The legal moves of a valid and regular position are exactly the moves
/// that follow the rules and do not leave the mover's king attacked.
pub proof fn lemma_legal_moves_exact(pos: Position, m: ChessMove)
    requires
        valid(pos),
        regular(pos),
    ensures
        legal_moves(pos).contains(m) <==> legal(pos, m),
{
    if legal_moves(pos).contains(m) {
        lemma_listed_legal(pos, m);
    }
    if legal(pos, m) {
        lemma_legal_listed(pos, m);
    }
}

} // verus!
