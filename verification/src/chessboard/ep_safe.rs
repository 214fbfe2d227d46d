//! After an en-passant capture that the generator allows, no enemy piece
//! attacks the king, provided that the pawn that is taken was not the only
//! shield of the king against an enemy slider on a diagonal.

use vstd::prelude::*;
use crate::attack::init::{bishop_attacks, knight_attacks, pawn_attacks, rook_attacks};
use crate::attack::{between, line_dir};
use crate::bitboard::{lemma_row_mask, row_mask};
use crate::bits::{
    is_single, lemma_and_zero, lemma_ext, lemma_is_single, lemma_lowest, lemma_member_and,
    lemma_member_nonzero, lemma_member_not, lemma_member_or, lemma_member_single, lemma_member_xor,
    lemma_member_zero, lowest, member, single,
};
use crate::chessboard::check::{
    check_state, leaper_checkers, raw_check_state, slider_candidates, CheckState,
};
use crate::chessboard::checks::{
    lemma_between_sym, lemma_scan_checkers, lemma_slider_reaches, straight, threats,
};
use crate::chessboard::laws::lemma_pawn_attacks;
use crate::chessboard::movegen::{allowed, ep_allowed, ep_exposes, target_mask};
use crate::chessboard::pinned::{in_line, lemma_long_line, lemma_next_on_line, outside};
use crate::chessboard::pins::{along, inside, lemma_between, on_line};
use crate::chessboard::position::{lemma_occ_member, lemma_occ_update, Position};
use crate::chessboard::soundness::lemma_scan_pinned;
use crate::chessboard::updatestate::{apply, ep_victim};
use crate::chessboard::{ep_ok, valid};
use crate::chessmove::{lemma_make, make, MoveType};
use crate::chesspiece::{ChessPiece, PieceType};
use crate::square::{col_of, row_of, Square};

verus! {

/// The square of the pawn that an en-passant capture in the position takes.
pub open spec fn victim(pos: Position) -> int {
    ep_victim(pos.side, lowest(pos.ep))
}

/// Whether the pawn on `s` can be the one that captures en passant: it is a
/// pawn of the side to move that attacks the target square.
pub open spec fn ep_source(pos: Position, s: int) -> bool {
    &&& 0 <= s < 64
    &&& pos.ep != 0
    &&& pos.board[s] == Some(ChessPiece(pos.side, PieceType::Pawn))
    &&& member(pawn_attacks(pos.side.flip(), lowest(pos.ep)), s)
}

/// What stands where after an en-passant capture: the pawns have left their
/// squares, the capturing pawn stands on the target, and nothing else has changed.
pub proof fn lemma_after_ep(pos: Position, s: int)
    requires
        valid(pos),
        ep_source(pos, s),
    ensures
        ({
            let e = lowest(pos.ep);
            let v = victim(pos);
            let next = apply(pos, make(Square::of(s), Square::of(e), MoveType::EnPassant));
            let own_king = ChessPiece(pos.side, PieceType::King);
            let enemy = pos.side.flip();
            &&& 0 <= e < 64 && 0 <= v < 64
            &&& s != e && s != v && v != e
            &&& row_of(s) == row_of(v)
            &&& col_of(s) == col_of(v) + 1 || col_of(s) == col_of(v) - 1
            &&& -1 <= row_of(e) - row_of(s) <= 1
            &&& -1 <= col_of(e) - col_of(s) <= 1
            &&& pos.board[e] is None
            &&& pos.board[v] == Some(ChessPiece(enemy, PieceType::Pawn))
            &&& next.pieces(own_king) == pos.pieces(own_king)
            &&& next.pieces(ChessPiece(enemy, PieceType::Pawn)) == pos.pieces(
                ChessPiece(enemy, PieceType::Pawn),
            ) & !single(v)
            &&& forall|k: PieceType|
                k != PieceType::Pawn ==> #[trigger] next.pieces(ChessPiece(enemy, k)) == pos.pieces(
                    ChessPiece(enemy, k),
                )
            &&& forall|i: int| #[trigger]
                member(next.occ(), i) == (i == e || (i != s && i != v && member(pos.occ(), i)))
        }),
{
    let side = pos.side;
    let enemy = side.flip();
    let e = lowest(pos.ep);
    let v = victim(pos);
    lemma_is_single(pos.ep);
    assert(ep_ok(pos));
    lemma_pawn_attacks(enemy, e, s);
    let own_king = ChessPiece(side, PieceType::King);
    let own_pawn = ChessPiece(side, PieceType::Pawn);
    Square::lemma_of(s);
    Square::lemma_of(e);
    lemma_make(Square::of(s), Square::of(e), MoveType::EnPassant);
    let next = apply(pos, make(Square::of(s), Square::of(e), MoveType::EnPassant));
    let b0 = pos.board;
    let b1 = b0.update(s, None);
    let b2 = b1.update(e, Some(own_pawn));
    let b3 = b2.update(v, None);
    assert(next.board == b3);
    lemma_occ_update(b0, s, None, own_king);
    lemma_occ_update(b1, e, Some(own_pawn), own_king);
    lemma_occ_update(b2, v, None, own_king);
    assert forall|k: PieceType| #[trigger]
        next.pieces(ChessPiece(enemy, k)) == (if k == PieceType::Pawn {
            pos.pieces(ChessPiece(enemy, k)) & !single(v)
        } else {
            pos.pieces(ChessPiece(enemy, k))
        }) by {
        let q = ChessPiece(enemy, k);
        lemma_occ_update(b0, s, None, q);
        lemma_occ_update(b1, e, Some(own_pawn), q);
        lemma_occ_update(b2, v, None, q);
    }
    assert(next.pieces(ChessPiece(enemy, PieceType::Pawn)) == pos.pieces(
        ChessPiece(enemy, PieceType::Pawn),
    ) & !single(v));
    assert forall|i: int| #[trigger]
        member(next.occ(), i) == (i == e || (i != s && i != v && member(pos.occ(), i))) by {
        next.lemma_occ(i);
        pos.lemma_occ(i);
    }
}

/// What is occupied once both pawns of an en-passant capture have left their
/// squares and the target is taken, as the generator computes it, is what is
/// occupied after the capture.
pub proof fn lemma_resulting(occ: u64, occ2: u64, s: int, v: int, e: int)
    requires
        0 <= s < 64 && 0 <= v < 64 && 0 <= e < 64,
        s != v,
        member(occ, s),
        member(occ, v),
        forall|i: int| #[trigger]
            member(occ2, i) == (i == e || (i != s && i != v && member(occ, i))),
    ensures
        ((occ ^ single(s)) ^ single(v)) | single(e) == occ2,
{
    let r = ((occ ^ single(s)) ^ single(v)) | single(e);
    assert forall|i: int| 0 <= i < 64 implies member(r, i) == member(occ2, i) by {
        lemma_member_or((occ ^ single(s)) ^ single(v), single(e), i);
        lemma_member_xor(occ ^ single(s), single(v), i);
        lemma_member_xor(occ, single(s), i);
        lemma_member_single(s, i);
        lemma_member_single(v, i);
        lemma_member_single(e, i);
    }
    lemma_ext(r, occ2);
}

/// Two squares of one rank that both lie between the king and another square
/// lie with them on that rank.
proof fn lemma_same_rank(king: int, x: int, s: int, v: int)
    requires
        0 <= king < 64 && 0 <= x < 64 && 0 <= s < 64 && 0 <= v < 64,
        inside(king, x, s),
        inside(king, x, v),
        row_of(s) == row_of(v),
        s != v,
    ensures
        straight(line_dir(king, x)->0),
        row_of(king) == row_of(s),
        row_of(x) == row_of(s),
{
}

/// A piece that attacks the king after an en-passant capture gave check
/// before, or is a slider that only the two pawns shielded the king from.
proof fn lemma_attacker_after_ep(pos: Position, s: int, x: int)
    requires
        valid(pos),
        ep_source(pos, s),
        member(
            threats(
                apply(pos, make(Square::of(s), Square::of(lowest(pos.ep)), MoveType::EnPassant)),
                pos.side,
            ),
            x,
        ),
    ensures
        0 <= x < 64,
        x != victim(pos),
        member(pos.occ(), x),
        member(raw_check_state(pos).checkers, x) || member(slider_candidates(pos), x),
        member(slider_candidates(pos), x) ==> {
            let king = pos.king_idx(pos.side);
            let ray = between(king, x);
            let enemy = pos.side.flip();
            let lateral = pos.pieces(ChessPiece(enemy, PieceType::Rook)) | pos.pieces(
                ChessPiece(enemy, PieceType::Queen),
            );
            let next = apply(
                pos,
                make(Square::of(s), Square::of(lowest(pos.ep)), MoveType::EnPassant),
            );
            &&& line_dir(king, x) is Some
            &&& !member(ray, lowest(pos.ep))
            &&& forall|y: int| member(ray & pos.occ(), y) ==> y == s || y == victim(pos)
            &&& ray & pos.occ() == 0 ==> member(raw_check_state(pos).checkers, x)
            &&& straight(line_dir(king, x)->0) ==> member(rook_attacks(king, next.occ()), x)
                && member(lateral, x)
        },
{
    let side = pos.side;
    let enemy = side.flip();
    let e = lowest(pos.ep);
    let v = victim(pos);
    let raw = raw_check_state(pos);
    let own_king = ChessPiece(side, PieceType::King);
    let king_bb = pos.pieces(own_king);
    lemma_is_single(king_bb);
    let king = pos.king_idx(side);
    let occ = pos.occ();
    let l = leaper_checkers(pos);
    let start = CheckState { checkers: l, mask: l, pinned: 0, pinners: 0 };
    let cands = slider_candidates(pos);
    lemma_after_ep(pos, s);
    let next = apply(pos, make(Square::of(s), Square::of(e), MoveType::EnPassant));
    let occ2 = next.occ();
    let pw = pos.pieces(ChessPiece(enemy, PieceType::Pawn));
    let pn = pos.pieces(ChessPiece(enemy, PieceType::Knight));
    let pb = pos.pieces(ChessPiece(enemy, PieceType::Bishop));
    let pr = pos.pieces(ChessPiece(enemy, PieceType::Rook));
    let pq = pos.pieces(ChessPiece(enemy, PieceType::Queen));
    assert(next.pieces(ChessPiece(enemy, PieceType::Pawn)) == pw & !single(v));
    assert(next.pieces(ChessPiece(enemy, PieceType::Knight)) == pn);
    assert(next.pieces(ChessPiece(enemy, PieceType::Bishop)) == pb);
    assert(next.pieces(ChessPiece(enemy, PieceType::Rook)) == pr);
    assert(next.pieces(ChessPiece(enemy, PieceType::Queen)) == pq);
    assert(next.king_idx(side) == king);
    lemma_member_zero(x);
    let leap = (pawn_attacks(side, king) & (pw & !single(v))) | (knight_attacks(king) & pn);
    let slide = (bishop_attacks(king, occ2) & (pq | pb)) | (rook_attacks(king, occ2) & (pq | pr));
    lemma_member_or(leap, slide, x);
    lemma_member_or(pawn_attacks(side, king) & (pw & !single(v)), knight_attacks(king) & pn, x);
    lemma_member_and(pawn_attacks(side, king), pw & !single(v), x);
    lemma_member_and(knight_attacks(king), pn, x);
    lemma_member_and(pw, !single(v), x);
    lemma_member_not(single(v), x);
    lemma_member_single(v, x);
    lemma_member_or(bishop_attacks(king, occ2) & (pq | pb), rook_attacks(king, occ2) & (pq | pr), x);
    lemma_member_and(bishop_attacks(king, occ2), pq | pb, x);
    lemma_member_and(rook_attacks(king, occ2), pq | pr, x);
    lemma_member_or(pq, pb, x);
    lemma_member_or(pq, pr, x);
    lemma_member_or(pr, pq, x);
    lemma_scan_checkers(cands, king, occ, start, x);
    lemma_member_or(pawn_attacks(side, king) & pw, knight_attacks(king) & pn, x);
    lemma_member_and(pawn_attacks(side, king), pw, x);
    lemma_occ_member(pos.board, ChessPiece(enemy, PieceType::Pawn), x);
    lemma_occ_member(pos.board, ChessPiece(enemy, PieceType::Knight), x);
    lemma_occ_member(pos.board, ChessPiece(enemy, PieceType::Bishop), x);
    lemma_occ_member(pos.board, ChessPiece(enemy, PieceType::Rook), x);
    lemma_occ_member(pos.board, ChessPiece(enemy, PieceType::Queen), x);
    pos.lemma_occ(x);
    let ray = between(king, x);
    lemma_between_sym(king, x);
    lemma_slider_reaches(king, x, occ2);
    lemma_slider_reaches(king, x, 0);
    lemma_and_zero(ray);
    lemma_member_or(bishop_attacks(king, 0) & (pq | pb), rook_attacks(king, 0) & (pq | pr), x);
    lemma_member_and(bishop_attacks(king, 0), pq | pb, x);
    lemma_member_and(rook_attacks(king, 0), pq | pr, x);
    if member(slide, x) {
        assert(member(cands, x));
        assert(ray & occ2 == 0);
        lemma_member_and(ray, occ2, e);
        lemma_member_zero(e);
        assert forall|y: int| member(ray & occ, y) implies y == s || y == v by {
            lemma_member_and(ray, occ, y);
            lemma_member_and(ray, occ2, y);
            lemma_member_zero(y);
        }
    } else {
        assert(member(l, x));
        assert(member(raw.checkers, x));
        assert(!member(cands, x));
    }
}

/// Next to a square between two squares of a rank or a file lies, on that
/// rank or file, a square between the two or one of them.
#[verifier::rlimit(40)]
proof fn lemma_straight_shield(king: int, x: int, s: int, v: int, e: int)
    requires
        0 <= king < 64 && 0 <= x < 64 && 0 <= s < 64 && 0 <= v < 64 && 0 <= e < 64,
        inside(king, x, v),
        line_dir(king, v) matches Some(d) && straight(d),
        row_of(s) == row_of(v),
        col_of(s) == col_of(v) + 1 || col_of(s) == col_of(v) - 1,
        e == v + 8 || e == v - 8,
        e != king && e != x,
        s != king && s != x,
    ensures
        inside(king, x, e) || inside(king, x, s),
{
    let d = line_dir(king, x)->0;
    let n = along(king, x, d.0, d.1);
    let k = along(king, v, d.0, d.1);
    assert(line_dir(king, v) == Some(d));
    if d.0 == 0 {
        let a = along(king, s, d.0, d.1);
        assert(row_of(s) == row_of(king));
        assert(row_of(x) == row_of(king));
        assert(a == k + 1 || a == k - 1);
        assert(on_line(king, s, d.0, d.1));
        if a == 0 {
            assert(col_of(s) == col_of(king));
            assert(s == king);
        }
        if a == n {
            assert(col_of(s) == col_of(x));
            assert(s == x);
        }
        assert(inside(king, x, s));
    } else {
        let a = along(king, e, d.0, d.1);
        assert(d.1 == 0);
        assert(col_of(e) == col_of(king));
        assert(col_of(x) == col_of(king));
        assert(row_of(e) == row_of(v) + 1 || row_of(e) == row_of(v) - 1);
        assert(a == k + 1 || a == k - 1);
        assert(on_line(king, e, d.0, d.1));
        if a == 0 {
            assert(row_of(e) == row_of(king));
            assert(e == king);
        }
        if a == n {
            assert(row_of(e) == row_of(x));
            assert(e == x);
        }
        assert(inside(king, x, e));
    }
}

/// Whether the pawn that an en-passant capture would take, if there is one,
/// is not the only shield of the king of the side to move against an enemy
/// slider on a diagonal: if it is recorded as pinned, it shares a rank or a
/// file with the king.
pub open spec fn ep_shielded(pos: Position) -> bool {
    pos.ep != 0 && member(check_state(pos).pinned, victim(pos)) ==> (line_dir(
        pos.king_idx(pos.side),
        victim(pos),
    ) matches Some(d) && straight(d))
}

/// The pawn that an en-passant capture takes does not stand alone between
/// the king and an enemy slider whose line holds neither the capturing pawn
/// nor the target, if it is not the king's only shield on a diagonal.
proof fn lemma_victim_shield(pos: Position, s: int, x: int)
    requires
        valid(pos),
        ep_source(pos, s),
        ep_shielded(pos),
        0 <= x < 64,
        member(slider_candidates(pos), x),
        member(pos.occ(), x),
        !member(between(pos.king_idx(pos.side), x), lowest(pos.ep)),
        !member(between(pos.king_idx(pos.side), x), s),
    ensures
        between(pos.king_idx(pos.side), x) & pos.occ() != single(victim(pos)),
{
    let side = pos.side;
    let e = lowest(pos.ep);
    let v = victim(pos);
    let king_bb = pos.pieces(ChessPiece(side, PieceType::King));
    lemma_is_single(king_bb);
    let king = pos.king_idx(side);
    let occ = pos.occ();
    let l = leaper_checkers(pos);
    let start = CheckState { checkers: l, mask: l, pinned: 0, pinners: 0 };
    let cands = slider_candidates(pos);
    if between(king, x) & occ == single(v) {
        lemma_after_ep(pos, s);
        lemma_between_sym(king, x);
        lemma_scan_pinned(cands, king, occ, start, x, v);
        lemma_member_single(v, v);
        lemma_member_and(between(king, x), occ, v);
        lemma_between(king, x, v);
        lemma_between(king, x, e);
        lemma_between(king, x, s);
        lemma_occ_member(pos.board, ChessPiece(side, PieceType::King), king);
        lemma_member_single(king, king);
        pos.lemma_occ(x);
        pos.lemma_occ(e);
        lemma_member_or(
            bishop_attacks(king, 0) & (pos.pieces(ChessPiece(side.flip(), PieceType::Queen))
                | pos.pieces(ChessPiece(side.flip(), PieceType::Bishop))),
            rook_attacks(king, 0) & (pos.pieces(ChessPiece(side.flip(), PieceType::Queen))
                | pos.pieces(ChessPiece(side.flip(), PieceType::Rook))),
            x,
        );
        lemma_member_and(
            bishop_attacks(king, 0),
            pos.pieces(ChessPiece(side.flip(), PieceType::Queen)) | pos.pieces(
                ChessPiece(side.flip(), PieceType::Bishop),
            ),
            x,
        );
        lemma_member_and(
            rook_attacks(king, 0),
            pos.pieces(ChessPiece(side.flip(), PieceType::Queen)) | pos.pieces(
                ChessPiece(side.flip(), PieceType::Rook),
            ),
            x,
        );
        lemma_member_or(
            pos.pieces(ChessPiece(side.flip(), PieceType::Queen)),
            pos.pieces(ChessPiece(side.flip(), PieceType::Bishop)),
            x,
        );
        lemma_member_or(
            pos.pieces(ChessPiece(side.flip(), PieceType::Queen)),
            pos.pieces(ChessPiece(side.flip(), PieceType::Rook)),
            x,
        );
        lemma_occ_member(pos.board, ChessPiece(side.flip(), PieceType::Queen), x);
        lemma_occ_member(pos.board, ChessPiece(side.flip(), PieceType::Bishop), x);
        lemma_occ_member(pos.board, ChessPiece(side.flip(), PieceType::Rook), x);
        assert(s != x);
        assert(s != king);
        assert(line_dir(king, v) == line_dir(king, x));
        lemma_straight_shield(king, x, s, v, e);
    }
}

/// After an en-passant capture that the generator allows, no enemy pawn,
/// knight, bishop, rook or queen attacks the mover's king, provided that at
/// most one piece gave check before and that the pawn that is taken is not
/// the king's only shield on a diagonal.
#[verifier::rlimit(40)]
pub proof fn lemma_ep_safe(pos: Position, s: int)
    requires
        valid(pos),
        ep_source(pos, s),
        check_state(pos).checkers == 0 || is_single(check_state(pos).checkers),
        ep_allowed(pos, check_state(pos), s),
        ep_shielded(pos),
    ensures
        threats(
            apply(pos, make(Square::of(s), Square::of(lowest(pos.ep)), MoveType::EnPassant)),
            pos.side,
        ) == 0,
{
    let side = pos.side;
    let enemy = side.flip();
    let cs = check_state(pos);
    let e = lowest(pos.ep);
    let v = victim(pos);
    let king_bb = pos.pieces(ChessPiece(side, PieceType::King));
    lemma_is_single(king_bb);
    let king = pos.king_idx(side);
    let occ = pos.occ();
    let l = leaper_checkers(pos);
    let start = CheckState { checkers: l, mask: l, pinned: 0, pinners: 0 };
    let cands = slider_candidates(pos);
    let next = apply(pos, make(Square::of(s), Square::of(e), MoveType::EnPassant));
    lemma_after_ep(pos, s);
    let th = threats(next, side);
    if th != 0 {
        lemma_lowest(th);
        let x = lowest(th);
        lemma_attacker_after_ep(pos, s, x);
        lemma_member_zero(x);
        if member(cs.checkers, x) {
            lemma_is_single(cs.checkers);
            lemma_member_single(lowest(cs.checkers), x);
            assert(false);
        }
        let ray = between(king, x);
        let blk = ray & occ;
        assert(blk != 0);
        lemma_between_sym(king, x);
        lemma_member_and(ray, occ, s);
        lemma_member_and(ray, occ, v);
        pos.lemma_occ(s);
        pos.lemma_occ(v);
        pos.lemma_occ(e);
        pos.lemma_occ(king);
        lemma_between(king, x, s);
        lemma_between(king, x, v);
        lemma_between(king, x, e);
        if member(ray, s) && member(ray, v) {
            lemma_same_rank(king, x, s, v);
            let lateral = pos.pieces(ChessPiece(enemy, PieceType::Rook)) | pos.pieces(
                ChessPiece(enemy, PieceType::Queen),
            );
            lemma_resulting(occ, next.occ(), s, v, e);
            let rows = row_mask(row_of(s)) & row_mask(row_of(king));
            lemma_row_mask(row_of(s), x);
            lemma_row_mask(row_of(king), x);
            lemma_member_and(row_mask(row_of(s)), row_mask(row_of(king)), x);
            lemma_member_and(rows, lateral, x);
            lemma_member_nonzero(rows & lateral, x);
            lemma_member_and(rook_attacks(king, next.occ()), lateral, x);
            lemma_member_nonzero(rook_attacks(king, next.occ()) & lateral, x);
            assert(ep_exposes(pos, s));
            assert(false);
        } else if member(ray, s) {
            assert forall|y: int| 0 <= y < 64 implies member(blk, y) == member(single(s), y) by {
                lemma_member_single(s, y);
                lemma_member_and(ray, occ, y);
            }
            lemma_ext(blk, single(s));
            lemma_scan_pinned(cands, king, occ, start, x, s);
            assert(member(cs.pinned, s));
            assert(cs.checkers == 0);
            let hit = (pawn_attacks(side, s) & pos.ep) & allowed(pos, cs, s, true);
            lemma_member_and(pawn_attacks(side, s) & pos.ep, allowed(pos, cs, s, true), e);
            lemma_member_and(target_mask(pos, cs), crate::attack::long_line(king, s), e);
            assert(line_dir(king, s) == line_dir(king, x));
            lemma_long_line(king, s, e);
            assert(in_line(king, x, s, e));
            lemma_next_on_line(king, x, s, e);
            lemma_occ_member(pos.board, ChessPiece(side, PieceType::King), king);
            lemma_member_single(king, king);
            assert(e != king);
            assert(e != x);
            assert(!inside(king, x, e));
            assert(outside(king, x, s, e));
            assert(false);
        } else {
            assert(member(blk, v)) by {
                lemma_lowest(blk);
                lemma_member_and(ray, occ, lowest(blk));
            }
            assert forall|y: int| 0 <= y < 64 implies member(blk, y) == member(single(v), y) by {
                lemma_member_single(v, y);
                lemma_member_and(ray, occ, y);
            }
            lemma_ext(blk, single(v));
            lemma_victim_shield(pos, s, x);
            assert(false);
        }
    }
}

} // verus!
