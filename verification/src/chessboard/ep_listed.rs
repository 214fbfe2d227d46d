//! An en-passant capture that the generator leaves out leaves the king
//! attacked, unless it would stop a check by standing in its way.

use vstd::prelude::*;
use crate::attack::init::{
    bishop_attacks, in_range, knight_attacks, pawn_attacks, rook_attacks, step,
};
use crate::attack::{between, forward, long_line};
use crate::bits::{
    drop_lowest, is_single, lemma_and_zero, lemma_ext, lemma_is_single, lemma_lowest,
    lemma_member_all, lemma_member_and, lemma_member_not, lemma_member_or, lemma_member_single,
    lemma_member_zero, lowest, member, single,
};
use crate::chessboard::check::{check_state, leaper_checkers, slider_candidates};
use crate::chessboard::checks::{lemma_slider_reaches, threats};
use crate::chessboard::ep_safe::{ep_source, lemma_after_ep, lemma_resulting, victim};
use crate::chessboard::exposed::{lemma_checker, lemma_pinner, lemma_two_members, pinner_of};
use crate::chessboard::laws::lemma_pawn_attacks;
use crate::chessboard::listed::{lemma_ep_moves_have, lemma_legal_has_ep};
use crate::chessboard::movegen::{
    allowed, ep_allowed, ep_exposes, ep_moves, legal_moves, target_mask,
};
use crate::chessboard::pinned::lemma_long_line;
use crate::chessboard::pins::{inside, lemma_between};
use crate::chessboard::position::{lemma_occ_member, Position};
use crate::chessboard::rules::follows_rules;
use crate::chessboard::updatestate::apply;
use crate::chessboard::valid;
use crate::chessmove::{make, ChessMove, MoveType};
use crate::chesspiece::{ChessPiece, PieceType, Side};
use crate::square::{col_of, row_of, Square};

verus! {

/// A pawn attacks a square exactly from the squares that a pawn of the other
/// side on that square attacks.
pub proof fn lemma_pawn_attack_back(side: Side, s: int, t: int)
    requires
        0 <= s < 64,
        member(pawn_attacks(side, s), t),
    ensures
        member(pawn_attacks(side.flip(), t), s),
{
    lemma_pawn_attacks(side, s, t);
    let f = forward(side.flip());
    let a = step(t, f, -1);
    let b = step(t, f, 1);
    lemma_member_or(0 | a, b, s);
    lemma_member_or(0, a, s);
    lemma_member_single(s, s);
    assert(in_range(row_of(s), col_of(s)));
}

/// Whether the en-passant target, if there is one, lies between the king and
/// no piece that gives check.
pub open spec fn ep_plain(pos: Position) -> bool {
    pos.ep != 0 ==> forall|c: int| #[trigger]
        member(check_state(pos).checkers, c) ==> !member(
            between(pos.king_idx(pos.side), c),
            lowest(pos.ep),
        )
}

/// A piece other than the pawn that is taken, which gave check before an
/// en-passant capture, still attacks the king after it unless the target
/// lies between it and the king; and so does a slider that only the
/// capturing pawn shielded the king from.
pub proof fn lemma_attacker_stays_ep(pos: Position, s: int, x: int)
    requires
        valid(pos),
        ep_source(pos, s),
        x != victim(pos),
        member(leaper_checkers(pos), x) || (member(slider_candidates(pos), x) && !member(
            between(pos.king_idx(pos.side), x),
            lowest(pos.ep),
        ) && (between(pos.king_idx(pos.side), x) & pos.occ() == 0 || between(
            pos.king_idx(pos.side),
            x,
        ) & pos.occ() == single(s))),
    ensures
        member(
            threats(
                apply(pos, make(Square::of(s), Square::of(lowest(pos.ep)), MoveType::EnPassant)),
                pos.side,
            ),
            x,
        ),
{
    let side = pos.side;
    let enemy = side.flip();
    let own_king = ChessPiece(side, PieceType::King);
    let king_bb = pos.pieces(own_king);
    lemma_is_single(king_bb);
    let king = pos.king_idx(side);
    let occ = pos.occ();
    let e = lowest(pos.ep);
    let v = victim(pos);
    lemma_after_ep(pos, s);
    let next = apply(pos, make(Square::of(s), Square::of(e), MoveType::EnPassant));
    let occ2 = next.occ();
    let pw = pos.pieces(ChessPiece(enemy, PieceType::Pawn));
    let pn = pos.pieces(ChessPiece(enemy, PieceType::Knight));
    let pb = pos.pieces(ChessPiece(enemy, PieceType::Bishop));
    let pr = pos.pieces(ChessPiece(enemy, PieceType::Rook));
    let pq = pos.pieces(ChessPiece(enemy, PieceType::Queen));
    assert(next.pieces(ChessPiece(enemy, PieceType::Pawn)) == pw & !single(v));
    assert(next.pieces(ChessPiece(enemy, PieceType::Knight)) == pn);
    assert(next.pieces(ChessPiece(enemy, PieceType::Bishop)) == pb);
    assert(next.pieces(ChessPiece(enemy, PieceType::Rook)) == pr);
    assert(next.pieces(ChessPiece(enemy, PieceType::Queen)) == pq);
    assert(next.king_idx(side) == king);
    lemma_member_zero(x);
    let leap = (pawn_attacks(side, king) & (pw & !single(v))) | (knight_attacks(king) & pn);
    let slide = (bishop_attacks(king, occ2) & (pq | pb)) | (rook_attacks(king, occ2) & (pq | pr));
    lemma_member_or(leap, slide, x);
    lemma_member_or(pawn_attacks(side, king) & (pw & !single(v)), knight_attacks(king) & pn, x);
    lemma_member_and(pawn_attacks(side, king), pw & !single(v), x);
    lemma_member_and(knight_attacks(king), pn, x);
    lemma_member_and(pw, !single(v), x);
    lemma_member_not(single(v), x);
    lemma_member_single(v, x);
    lemma_member_or(bishop_attacks(king, occ2) & (pq | pb), rook_attacks(king, occ2) & (pq | pr), x);
    lemma_member_and(bishop_attacks(king, occ2), pq | pb, x);
    lemma_member_and(rook_attacks(king, occ2), pq | pr, x);
    lemma_member_or(pawn_attacks(side, king) & pw, knight_attacks(king) & pn, x);
    lemma_member_and(pawn_attacks(side, king), pw, x);
    if !member(leaper_checkers(pos), x) {
        let ray = between(king, x);
        lemma_slider_reaches(king, x, occ2);
        lemma_slider_reaches(king, x, 0);
        lemma_and_zero(ray);
        lemma_member_or(bishop_attacks(king, 0) & (pq | pb), rook_attacks(king, 0) & (pq | pr), x);
        lemma_member_and(bishop_attacks(king, 0), pq | pb, x);
        lemma_member_and(rook_attacks(king, 0), pq | pr, x);
        assert forall|y: int| 0 <= y < 64 implies member(ray & occ2, y) == member(0, y) by {
            lemma_member_and(ray, occ2, y);
            lemma_member_and(ray, occ, y);
            lemma_member_zero(y);
            lemma_member_single(s, y);
        }
        lemma_ext(ray & occ2, 0);
    }
}

/// An en-passant capture can leave the king unattacked only if no piece but
/// the pawn that is taken gives check, provided that the target lies between
/// the king and no piece that gives check.
proof fn lemma_ep_checker(pos: Position, s: int, c: int)
    requires
        valid(pos),
        ep_source(pos, s),
        ep_plain(pos),
        threats(
            apply(pos, make(Square::of(s), Square::of(lowest(pos.ep)), MoveType::EnPassant)),
            pos.side,
        ) == 0,
        member(check_state(pos).checkers, c),
    ensures
        c == victim(pos),
        member(leaper_checkers(pos), c),
        member(pawn_attacks(pos.side, pos.king_idx(pos.side)), c),
{
    let side = pos.side;
    let enemy = side.flip();
    let king = pos.king_idx(side);
    let v = victim(pos);
    lemma_checker(pos, c);
    lemma_after_ep(pos, s);
    if c != v {
        lemma_attacker_stays_ep(pos, s, c);
        lemma_member_zero(c);
    }
    let pw = pos.pieces(ChessPiece(enemy, PieceType::Pawn));
    let pn = pos.pieces(ChessPiece(enemy, PieceType::Knight));
    let pb = pos.pieces(ChessPiece(enemy, PieceType::Bishop));
    let pr = pos.pieces(ChessPiece(enemy, PieceType::Rook));
    let pq = pos.pieces(ChessPiece(enemy, PieceType::Queen));
    lemma_member_or(pawn_attacks(side, king) & pw, knight_attacks(king) & pn, c);
    lemma_member_and(pawn_attacks(side, king), pw, c);
    lemma_member_and(knight_attacks(king), pn, c);
    lemma_member_or(bishop_attacks(king, 0) & (pq | pb), rook_attacks(king, 0) & (pq | pr), c);
    lemma_member_and(bishop_attacks(king, 0), pq | pb, c);
    lemma_member_and(rook_attacks(king, 0), pq | pr, c);
    lemma_member_or(pq, pb, c);
    lemma_member_or(pq, pr, c);
    lemma_occ_member(pos.board, ChessPiece(enemy, PieceType::Knight), c);
    lemma_occ_member(pos.board, ChessPiece(enemy, PieceType::Bishop), c);
    lemma_occ_member(pos.board, ChessPiece(enemy, PieceType::Rook), c);
    lemma_occ_member(pos.board, ChessPiece(enemy, PieceType::Queen), c);
}

/// A pinned pawn can capture en passant and leave the king unattacked only
/// along the line through the king and itself, and only while no piece
/// gives check.
proof fn lemma_ep_pinned(pos: Position, s: int)
    requires
        valid(pos),
        ep_source(pos, s),
        ep_plain(pos),
        threats(
            apply(pos, make(Square::of(s), Square::of(lowest(pos.ep)), MoveType::EnPassant)),
            pos.side,
        ) == 0,
        member(check_state(pos).pinned, s),
    ensures
        member(long_line(pos.king_idx(pos.side), s), lowest(pos.ep)),
        check_state(pos).checkers == 0,
{
    let side = pos.side;
    let king_bb = pos.pieces(ChessPiece(side, PieceType::King));
    lemma_is_single(king_bb);
    let king = pos.king_idx(side);
    let e = lowest(pos.ep);
    let v = victim(pos);
    let cs = check_state(pos);
    lemma_pinner(pos, s);
    let x = pinner_of(pos, s);
    lemma_after_ep(pos, s);
    lemma_occ_member(pos.board, ChessPiece(side.flip(), PieceType::Pawn), x);
    assert(x != v);
    if !member(between(king, x), e) {
        lemma_attacker_stays_ep(pos, s, x);
        lemma_member_zero(x);
    }
    lemma_between(king, x, e);
    lemma_long_line(king, s, e);
    if cs.checkers != 0 {
        lemma_lowest(cs.checkers);
        let c = lowest(cs.checkers);
        lemma_ep_checker(pos, s, c);
        lemma_pawn_attacks(side, king, v);
        lemma_pawn_attack_back(side.flip(), e, s);
        lemma_pawn_attacks(side, s, e);
        assert(inside(king, x, s));
        assert(inside(king, x, e));
        assert(false);
    }
}

/// An en-passant capture that follows the rules and leaves the king
/// attacked by no enemy pawn, knight, bishop, rook or queen is among the
/// legal moves, provided that the target lies between the king and no piece
/// that gives check.
pub proof fn lemma_ep_listed(pos: Position, m: ChessMove)
    requires
        valid(pos),
        ep_plain(pos),
        follows_rules(pos, m),
        m.kind() is EnPassant,
        threats(apply(pos, m), pos.side) == 0,
    ensures
        legal_moves(pos).contains(m),
{
    let side = pos.side;
    let enemy = side.flip();
    let s = m.source_idx();
    let e = lowest(pos.ep);
    let v = victim(pos);
    let cs = check_state(pos);
    let king_bb = pos.pieces(ChessPiece(side, PieceType::King));
    lemma_is_single(king_bb);
    let king = pos.king_idx(side);
    let occ = pos.occ();
    lemma_pawn_attack_back(side, s, e);
    assert(ep_source(pos, s));
    lemma_after_ep(pos, s);
    let next = apply(pos, m);
    let occ2 = next.occ();
    if cs.checkers != 0 && !is_single(cs.checkers) {
        lemma_two_members(cs.checkers);
        lemma_ep_checker(pos, s, lowest(cs.checkers));
        lemma_ep_checker(pos, s, lowest(drop_lowest(cs.checkers)));
    }
    let pinned = member(cs.pinned, s);
    if pinned {
        lemma_ep_pinned(pos, s);
    }
    assert(!ep_exposes(pos, s)) by {
        let pr = pos.pieces(ChessPiece(enemy, PieceType::Rook));
        let pq = pos.pieces(ChessPiece(enemy, PieceType::Queen));
        let pb = pos.pieces(ChessPiece(enemy, PieceType::Bishop));
        let lateral = pr | pq;
        pos.lemma_occ(s);
        pos.lemma_occ(v);
        lemma_resulting(occ, occ2, s, v, e);
        let hit = rook_attacks(king, occ2) & lateral;
        if hit != 0 {
            lemma_lowest(hit);
            let y = lowest(hit);
            lemma_member_and(rook_attacks(king, occ2), lateral, y);
            lemma_member_or(pr, pq, y);
            lemma_member_or(pq, pr, y);
            lemma_member_and(rook_attacks(king, occ2), pq | pr, y);
            assert(next.pieces(ChessPiece(enemy, PieceType::Rook)) == pr);
            assert(next.pieces(ChessPiece(enemy, PieceType::Queen)) == pq);
            assert(next.king_idx(side) == king);
            let leap = (pawn_attacks(side, king) & next.pieces(
                ChessPiece(enemy, PieceType::Pawn),
            )) | (knight_attacks(king) & next.pieces(ChessPiece(enemy, PieceType::Knight)));
            let diag = bishop_attacks(king, occ2) & (pq | next.pieces(
                ChessPiece(enemy, PieceType::Bishop),
            ));
            lemma_member_or(leap, diag | (rook_attacks(king, occ2) & (pq | pr)), y);
            lemma_member_or(diag, rook_attacks(king, occ2) & (pq | pr), y);
            lemma_member_zero(y);
        }
    }
    assert(ep_allowed(pos, cs, s)) by {
        if cs.checkers == 0 {
            lemma_lowest(pos.ep);
            lemma_member_all(e);
            let own = pos.side_occ(side);
            let enemy_king = pos.pieces(ChessPiece(enemy, PieceType::King));
            lemma_member_and(cs.mask & !own, !enemy_king, e);
            lemma_member_and(cs.mask, !own, e);
            lemma_member_not(own, e);
            lemma_member_not(enemy_king, e);
            pos.lemma_side_occ(side, e);
            lemma_occ_member(pos.board, ChessPiece(enemy, PieceType::King), e);
            lemma_member_and(target_mask(pos, cs), long_line(king, s), e);
            lemma_member_and(pawn_attacks(side, s), pos.ep, e);
            lemma_member_and(pawn_attacks(side, s) & pos.ep, allowed(pos, cs, s, pinned), e);
        } else {
            lemma_lowest(cs.checkers);
            lemma_ep_checker(pos, s, lowest(cs.checkers));
        }
    }
    let sources = pawn_attacks(enemy, e) & pos.pieces(ChessPiece(side, PieceType::Pawn));
    lemma_member_and(pawn_attacks(enemy, e), pos.pieces(ChessPiece(side, PieceType::Pawn)), s);
    lemma_occ_member(pos.board, ChessPiece(side, PieceType::Pawn), s);
    lemma_ep_moves_have(pos, cs, sources, s);
    assert(ep_moves(pos, cs).contains(m));
    lemma_legal_has_ep(pos, m);
}

} // verus!
