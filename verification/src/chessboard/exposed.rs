//! Moves that the generator leaves out leave the king attacked.

use vstd::prelude::*;
use crate::attack::init::{bishop_attacks, knight_attacks, pawn_attacks, rook_attacks};
use crate::attack::{between, line_dir, long_line};
use crate::bits::{
    drop_lowest, is_single, lemma_and_zero, lemma_drop_lowest, lemma_ext, lemma_is_single,
    lemma_lowest, lemma_member_all, lemma_member_and, lemma_member_not, lemma_member_or,
    lemma_member_single, lemma_member_zero, lowest, member, single,
};
use crate::chessboard::check::{
    check_state, leaper_checkers, scan_one, scan_sliders, slider_candidates, CheckState,
};
use crate::chessboard::checks::{
    lemma_between_sym, lemma_scan_checkers, lemma_slider_reaches, threats,
};
use crate::chessboard::pinned::lemma_long_line;
use crate::chessboard::pins::{inside, lemma_between, lemma_same_ray, pins};
use crate::chessboard::position::{lemma_occ_member, Position};
use crate::chessboard::soundness::{answers, lemma_after_move};
use crate::chessboard::updatestate::apply;
use crate::chessboard::valid;
use crate::chessmove::{make, valid_kind, MoveType};
use crate::chesspiece::{ChessPiece, PieceType};
use crate::square::Square;

verus! {

/// A piece that the scan records as pinned was recorded so before, or stands
/// alone between a scanned slider and the king.
pub proof fn lemma_scan_pinned_by(cands: u64, king: int, occ: u64, acc: CheckState, y: int)
    requires
        member(scan_sliders(cands, king, occ, acc).pinned, y),
    ensures
        member(acc.pinned, y) || exists|a: int| member(cands, a) && #[trigger] pins(a, y, king, occ),
    decreases cands,
{
    if cands != 0 {
        lemma_lowest(cands);
        lemma_drop_lowest(cands);
        let l = lowest(cands);
        let next = scan_one(l, king, occ, acc);
        let blk = between(l, king) & occ;
        lemma_scan_pinned_by(drop_lowest(cands), king, occ, next, y);
        if member(next.pinned, y) {
            if !member(acc.pinned, y) {
                lemma_member_or(acc.pinned, blk, y);
                lemma_is_single(blk);
                lemma_member_single(lowest(blk), y);
                assert(member(cands, l) && pins(l, y, king, occ));
            }
        } else {
            let a = choose|a: int| member(drop_lowest(cands), a) && pins(a, y, king, occ);
            assert(member(cands, a) && pins(a, y, king, occ));
        }
    }
}

/// What the scan has recorded as answering the check stays recorded.
pub proof fn lemma_scan_mask_kept(cands: u64, king: int, occ: u64, acc: CheckState, y: int)
    requires
        member(acc.mask, y),
    ensures
        member(scan_sliders(cands, king, occ, acc).mask, y),
    decreases cands,
{
    if cands != 0 {
        lemma_drop_lowest(cands);
        let a = lowest(cands);
        let next = scan_one(a, king, occ, acc);
        lemma_member_or(acc.mask, single(a) | between(a, king), y);
        lemma_scan_mask_kept(drop_lowest(cands), king, occ, next, y);
    }
}

/// A square that answers the check of a scanned slider is recorded as
/// answering the check.
pub proof fn lemma_scan_mask_has(cands: u64, king: int, occ: u64, acc: CheckState, a: int, y: int)
    requires
        member(cands, a),
        answers(a, king, occ, y),
    ensures
        member(scan_sliders(cands, king, occ, acc).mask, y),
    decreases cands,
{
    lemma_member_zero(a);
    lemma_lowest(cands);
    lemma_drop_lowest(cands);
    let l = lowest(cands);
    let next = scan_one(l, king, occ, acc);
    if a == l {
        lemma_member_or(acc.mask, single(l) | between(l, king), y);
        lemma_member_or(single(l), between(l, king), y);
        lemma_member_single(l, y);
        lemma_scan_mask_kept(drop_lowest(cands), king, occ, next, y);
    } else {
        lemma_scan_mask_has(drop_lowest(cands), king, occ, next, a, y);
    }
}

/// A set that is neither empty nor of one square has two different squares.
pub proof fn lemma_two_members(b: u64)
    requires
        b != 0,
        !is_single(b),
    ensures
        member(b, lowest(b)),
        member(b, lowest(drop_lowest(b))),
        lowest(b) != lowest(drop_lowest(b)),
{
    lemma_lowest(b);
    lemma_drop_lowest(b);
    lemma_lowest(drop_lowest(b));
}

/// A piece that gave check before a normal move or a promotion of a piece
/// other than the king still attacks the king after it, unless it is taken
/// or, if it is a slider, the target lies between it and the king; and so
/// does a slider that only the moved piece shielded the king from.
pub proof fn lemma_attacker_stays(pos: Position, s: int, t: int, kind: MoveType, x: int)
    requires
        valid(pos),
        0 <= s < 64,
        0 <= t < 64,
        pos.board[s] is Some,
        pos.piece_at(s).0 == pos.side,
        pos.piece_at(s).1 != PieceType::King,
        pos.board[t] matches Some(q) ==> q.0 != pos.side && q.1 != PieceType::King,
        kind is Normal || kind is Promotion,
        valid_kind(kind),
        x != t,
        member(leaper_checkers(pos), x) || (member(slider_candidates(pos), x) && !member(
            between(pos.king_idx(pos.side), x),
            t,
        ) && (between(pos.king_idx(pos.side), x) & pos.occ() == 0 || between(
            pos.king_idx(pos.side),
            x,
        ) & pos.occ() == single(s))),
    ensures
        member(threats(apply(pos, make(Square::of(s), Square::of(t), kind)), pos.side), x),
{
    let side = pos.side;
    let enemy = side.flip();
    let own_king = ChessPiece(side, PieceType::King);
    let king_bb = pos.pieces(own_king);
    lemma_is_single(king_bb);
    let king = pos.king_idx(side);
    let occ = pos.occ();
    let cands = slider_candidates(pos);
    lemma_after_move(pos, s, t, kind);
    let next = apply(pos, make(Square::of(s), Square::of(t), kind));
    let occ2 = next.occ();
    let pw = pos.pieces(ChessPiece(enemy, PieceType::Pawn));
    let pn = pos.pieces(ChessPiece(enemy, PieceType::Knight));
    let pb = pos.pieces(ChessPiece(enemy, PieceType::Bishop));
    let pr = pos.pieces(ChessPiece(enemy, PieceType::Rook));
    let pq = pos.pieces(ChessPiece(enemy, PieceType::Queen));
    assert(next.pieces(ChessPiece(enemy, PieceType::Pawn)) == pw & !single(t));
    assert(next.pieces(ChessPiece(enemy, PieceType::Knight)) == pn & !single(t));
    assert(next.pieces(ChessPiece(enemy, PieceType::Bishop)) == pb & !single(t));
    assert(next.pieces(ChessPiece(enemy, PieceType::Rook)) == pr & !single(t));
    assert(next.pieces(ChessPiece(enemy, PieceType::Queen)) == pq & !single(t));
    assert(next.king_idx(side) == king);
    lemma_member_zero(x);
    let leap = (pawn_attacks(side, king) & (pw & !single(t))) | (knight_attacks(king) & (pn
        & !single(t)));
    let diag2 = (pq & !single(t)) | (pb & !single(t));
    let line2 = (pq & !single(t)) | (pr & !single(t));
    let slide = (bishop_attacks(king, occ2) & diag2) | (rook_attacks(king, occ2) & line2);
    lemma_member_or(leap, slide, x);
    lemma_member_or(
        pawn_attacks(side, king) & (pw & !single(t)),
        knight_attacks(king) & (pn & !single(t)),
        x,
    );
    lemma_member_and(pawn_attacks(side, king), pw & !single(t), x);
    lemma_member_and(knight_attacks(king), pn & !single(t), x);
    lemma_member_and(pw, !single(t), x);
    lemma_member_and(pn, !single(t), x);
    lemma_member_and(pb, !single(t), x);
    lemma_member_and(pr, !single(t), x);
    lemma_member_and(pq, !single(t), x);
    lemma_member_not(single(t), x);
    lemma_member_single(t, x);
    lemma_member_or(bishop_attacks(king, occ2) & diag2, rook_attacks(king, occ2) & line2, x);
    lemma_member_and(bishop_attacks(king, occ2), diag2, x);
    lemma_member_and(rook_attacks(king, occ2), line2, x);
    lemma_member_or(pq & !single(t), pb & !single(t), x);
    lemma_member_or(pq & !single(t), pr & !single(t), x);
    lemma_member_or(pawn_attacks(side, king) & pw, knight_attacks(king) & pn, x);
    lemma_member_and(pawn_attacks(side, king), pw, x);
    lemma_member_and(knight_attacks(king), pn, x);
    if !member(leaper_checkers(pos), x) {
        let ray = between(king, x);
        lemma_slider_reaches(king, x, occ2);
        lemma_slider_reaches(king, x, 0);
        lemma_and_zero(ray);
        lemma_member_or(bishop_attacks(king, 0) & (pq | pb), rook_attacks(king, 0) & (pq | pr), x);
        lemma_member_and(bishop_attacks(king, 0), pq | pb, x);
        lemma_member_and(rook_attacks(king, 0), pq | pr, x);
        lemma_member_or(pq, pb, x);
        lemma_member_or(pq, pr, x);
        assert forall|y: int| 0 <= y < 64 implies member(ray & occ2, y) == member(0, y) by {
            lemma_member_and(ray, occ2, y);
            lemma_member_and(ray, occ, y);
            lemma_member_zero(y);
            lemma_member_single(s, y);
        }
        lemma_ext(ray & occ2, 0);
    }
}

/// A piece that gives check stands on an occupied square, and it is an enemy
/// pawn or knight that attacks the king, or a slider on one of the king's
/// lines with only empty squares between the two.
pub proof fn lemma_checker(pos: Position, c: int)
    requires
        valid(pos),
        member(check_state(pos).checkers, c),
    ensures
        0 <= c < 64,
        member(pos.occ(), c),
        pos.board[c] is Some,
        pos.piece_at(c).0 == pos.side.flip(),
        member(leaper_checkers(pos), c) || (member(slider_candidates(pos), c) && between(
            pos.king_idx(pos.side),
            c,
        ) & pos.occ() == 0),
{
    let side = pos.side;
    let enemy = side.flip();
    let king = pos.king_idx(side);
    let occ = pos.occ();
    let l = leaper_checkers(pos);
    let start = CheckState { checkers: l, mask: l, pinned: 0, pinners: 0 };
    let cands = slider_candidates(pos);
    let pw = pos.pieces(ChessPiece(enemy, PieceType::Pawn));
    let pn = pos.pieces(ChessPiece(enemy, PieceType::Knight));
    let pb = pos.pieces(ChessPiece(enemy, PieceType::Bishop));
    let pr = pos.pieces(ChessPiece(enemy, PieceType::Rook));
    let pq = pos.pieces(ChessPiece(enemy, PieceType::Queen));
    lemma_member_zero(c);
    lemma_scan_checkers(cands, king, occ, start, c);
    let king_bb = pos.pieces(ChessPiece(side, PieceType::King));
    lemma_is_single(king_bb);
    lemma_between_sym(king, c);
    lemma_member_or(pawn_attacks(side, king) & pw, knight_attacks(king) & pn, c);
    lemma_member_and(pawn_attacks(side, king), pw, c);
    lemma_member_and(knight_attacks(king), pn, c);
    lemma_member_or(bishop_attacks(king, 0) & (pq | pb), rook_attacks(king, 0) & (pq | pr), c);
    lemma_member_and(bishop_attacks(king, 0), pq | pb, c);
    lemma_member_and(rook_attacks(king, 0), pq | pr, c);
    lemma_member_or(pq, pb, c);
    lemma_member_or(pq, pr, c);
    lemma_occ_member(pos.board, ChessPiece(enemy, PieceType::Pawn), c);
    lemma_occ_member(pos.board, ChessPiece(enemy, PieceType::Knight), c);
    lemma_occ_member(pos.board, ChessPiece(enemy, PieceType::Bishop), c);
    lemma_occ_member(pos.board, ChessPiece(enemy, PieceType::Rook), c);
    lemma_occ_member(pos.board, ChessPiece(enemy, PieceType::Queen), c);
    pos.lemma_occ(c);
}

/// Whether a move to square `t` takes the piece on square `c` or, if that
/// piece is a slider on a line of the king with only empty squares between
/// the two, puts a piece between them.
pub open spec fn parries(pos: Position, c: int, t: int) -> bool {
    t == c || (member(slider_candidates(pos), c) && between(pos.king_idx(pos.side), c) & pos.occ()
        == 0 && member(between(pos.king_idx(pos.side), c), t))
}

/// A normal move or a promotion of a piece other than the king that leaves
/// the king unattacked parries every check.
pub proof fn lemma_safe_parries(pos: Position, s: int, t: int, kind: MoveType, c: int)
    requires
        valid(pos),
        0 <= s < 64,
        0 <= t < 64,
        pos.board[s] is Some,
        pos.piece_at(s).0 == pos.side,
        pos.piece_at(s).1 != PieceType::King,
        pos.board[t] matches Some(q) ==> q.0 != pos.side && q.1 != PieceType::King,
        kind is Normal || kind is Promotion,
        valid_kind(kind),
        threats(apply(pos, make(Square::of(s), Square::of(t), kind)), pos.side) == 0,
        member(check_state(pos).checkers, c),
    ensures
        parries(pos, c, t),
{
    lemma_checker(pos, c);
    if !parries(pos, c, t) {
        lemma_attacker_stays(pos, s, t, kind, c);
        lemma_member_zero(c);
    }
}

/// No square parries two checks.
pub proof fn lemma_one_parry(pos: Position, c1: int, c2: int, t: int)
    requires
        valid(pos),
        member(check_state(pos).checkers, c1),
        member(check_state(pos).checkers, c2),
        parries(pos, c1, t),
        parries(pos, c2, t),
    ensures
        c1 == c2,
{
    let king_bb = pos.pieces(ChessPiece(pos.side, PieceType::King));
    lemma_is_single(king_bb);
    let king = pos.king_idx(pos.side);
    let occ = pos.occ();
    lemma_checker(pos, c1);
    lemma_checker(pos, c2);
    lemma_member_and(between(king, c1), occ, c2);
    lemma_member_and(between(king, c2), occ, c1);
    lemma_member_zero(c1);
    lemma_member_zero(c2);
    lemma_member_zero(t);
    if c1 != c2 && t != c1 && t != c2 {
        lemma_between_sym(king, c1);
        lemma_between_sym(king, c2);
        lemma_between(c1, king, t);
        lemma_between(c2, king, t);
        lemma_same_ray(c1, c2, king, t);
        lemma_between(c1, king, c2);
        lemma_between(c2, king, c1);
    }
}

/// A slider that pins the piece on square `s`, where there is one.
pub open spec fn pinner_of(pos: Position, s: int) -> int {
    choose|a: int|
        member(slider_candidates(pos), a) && #[trigger] pins(
            a,
            s,
            pos.king_idx(pos.side),
            pos.occ(),
        )
}

/// A piece that the check state records as pinned stands alone between the
/// king and an enemy bishop, rook or queen on a line of the king along which
/// that piece moves.
pub proof fn lemma_pinner(pos: Position, s: int)
    requires
        valid(pos),
        member(check_state(pos).pinned, s),
    ensures
        0 <= s < 64,
        0 <= pinner_of(pos, s) < 64,
        member(slider_candidates(pos), pinner_of(pos, s)),
        between(pos.king_idx(pos.side), pinner_of(pos, s)) & pos.occ() == single(s),
        inside(pos.king_idx(pos.side), pinner_of(pos, s), s),
        member(pos.occ(), pinner_of(pos, s)),
        !member(leaper_checkers(pos), pinner_of(pos, s)),
        !member(pos.pieces(ChessPiece(pos.side.flip(), PieceType::Pawn)), pinner_of(pos, s)),
        line_dir(pos.king_idx(pos.side), s) == line_dir(pos.king_idx(pos.side), pinner_of(pos, s)),
{
    let side = pos.side;
    let enemy = side.flip();
    let king_bb = pos.pieces(ChessPiece(side, PieceType::King));
    lemma_is_single(king_bb);
    let king = pos.king_idx(side);
    let occ = pos.occ();
    let cands = slider_candidates(pos);
    let l = leaper_checkers(pos);
    let start = CheckState { checkers: l, mask: l, pinned: 0, pinners: 0 };
    lemma_member_zero(s);
    lemma_scan_pinned_by(cands, king, occ, start, s);
    let x = pinner_of(pos, s);
    lemma_member_zero(x);
    lemma_between_sym(king, x);
    lemma_member_single(s, s);
    lemma_member_and(between(king, x), occ, s);
    lemma_between(king, x, s);
    let pw = pos.pieces(ChessPiece(enemy, PieceType::Pawn));
    let pn = pos.pieces(ChessPiece(enemy, PieceType::Knight));
    let pb = pos.pieces(ChessPiece(enemy, PieceType::Bishop));
    let pr = pos.pieces(ChessPiece(enemy, PieceType::Rook));
    let pq = pos.pieces(ChessPiece(enemy, PieceType::Queen));
    lemma_member_or(pawn_attacks(side, king) & pw, knight_attacks(king) & pn, x);
    lemma_member_and(pawn_attacks(side, king), pw, x);
    lemma_member_and(knight_attacks(king), pn, x);
    lemma_member_or(bishop_attacks(king, 0) & (pq | pb), rook_attacks(king, 0) & (pq | pr), x);
    lemma_member_and(bishop_attacks(king, 0), pq | pb, x);
    lemma_member_and(rook_attacks(king, 0), pq | pr, x);
    lemma_member_or(pq, pb, x);
    lemma_member_or(pq, pr, x);
    lemma_occ_member(pos.board, ChessPiece(enemy, PieceType::Pawn), x);
    lemma_occ_member(pos.board, ChessPiece(enemy, PieceType::Knight), x);
    lemma_occ_member(pos.board, ChessPiece(enemy, PieceType::Bishop), x);
    lemma_occ_member(pos.board, ChessPiece(enemy, PieceType::Rook), x);
    lemma_occ_member(pos.board, ChessPiece(enemy, PieceType::Queen), x);
    pos.lemma_occ(x);
}

/// A pinned piece can make a normal move or a promotion that leaves the king
/// unattacked only along the line through the king and itself.
pub proof fn lemma_safe_pinned(pos: Position, s: int, t: int, kind: MoveType)
    requires
        valid(pos),
        0 <= s < 64,
        0 <= t < 64,
        pos.board[s] is Some,
        pos.piece_at(s).0 == pos.side,
        pos.piece_at(s).1 != PieceType::King,
        pos.board[t] matches Some(q) ==> q.0 != pos.side && q.1 != PieceType::King,
        kind is Normal || kind is Promotion,
        valid_kind(kind),
        threats(apply(pos, make(Square::of(s), Square::of(t), kind)), pos.side) == 0,
        member(check_state(pos).pinned, s),
    ensures
        t == pinner_of(pos, s) || member(between(pos.king_idx(pos.side), pinner_of(pos, s)), t),
        member(long_line(pos.king_idx(pos.side), s), t),
{
    let king = pos.king_idx(pos.side);
    lemma_pinner(pos, s);
    let x = pinner_of(pos, s);
    lemma_between(king, x, t);
    if x != t && !member(between(king, x), t) {
        lemma_attacker_stays(pos, s, t, kind, x);
        lemma_member_zero(x);
    }
    lemma_long_line(king, s, t);
}

/// While a piece gives check, no pinned piece can make a normal move or a
/// promotion that leaves the king unattacked.
pub proof fn lemma_safe_unpinned(pos: Position, s: int, t: int, kind: MoveType)
    requires
        valid(pos),
        0 <= s < 64,
        0 <= t < 64,
        pos.board[s] is Some,
        pos.piece_at(s).0 == pos.side,
        pos.piece_at(s).1 != PieceType::King,
        pos.board[t] matches Some(q) ==> q.0 != pos.side && q.1 != PieceType::King,
        kind is Normal || kind is Promotion,
        valid_kind(kind),
        threats(apply(pos, make(Square::of(s), Square::of(t), kind)), pos.side) == 0,
        check_state(pos).checkers != 0,
    ensures
        !member(check_state(pos).pinned, s),
{
    let king = pos.king_idx(pos.side);
    let occ = pos.occ();
    let cs = check_state(pos);
    if member(cs.pinned, s) {
        lemma_pinner(pos, s);
        lemma_safe_pinned(pos, s, t, kind);
        let x = pinner_of(pos, s);
        lemma_lowest(cs.checkers);
        let c = lowest(cs.checkers);
        lemma_checker(pos, c);
        lemma_safe_parries(pos, s, t, kind, c);
        lemma_member_and(between(king, c), occ, x);
        lemma_member_and(between(king, x), occ, c);
        lemma_member_single(s, c);
        lemma_member_single(s, s);
        lemma_member_zero(c);
        lemma_member_zero(s);
        lemma_member_zero(x);
        assert(x != c);
        if t == x {
        } else if t == c {
        } else {
            lemma_between_sym(king, c);
            lemma_between_sym(king, x);
            lemma_between(c, king, t);
            lemma_between(x, king, t);
            lemma_same_ray(c, x, king, t);
            lemma_between(c, king, x);
            lemma_between(x, king, c);
        }
    }
}

/// A normal move or a promotion of a piece other than the king can leave the
/// king unattacked only if at most one piece gives check, and only if it
/// ends on a square that answers the check.
pub proof fn lemma_safe_answers(pos: Position, s: int, t: int, kind: MoveType)
    requires
        valid(pos),
        0 <= s < 64,
        0 <= t < 64,
        pos.board[s] is Some,
        pos.piece_at(s).0 == pos.side,
        pos.piece_at(s).1 != PieceType::King,
        pos.board[t] matches Some(q) ==> q.0 != pos.side && q.1 != PieceType::King,
        kind is Normal || kind is Promotion,
        valid_kind(kind),
        threats(apply(pos, make(Square::of(s), Square::of(t), kind)), pos.side) == 0,
    ensures
        check_state(pos).checkers == 0 || is_single(check_state(pos).checkers),
        member(check_state(pos).mask, t),
{
    let cs = check_state(pos);
    let king = pos.king_idx(pos.side);
    let occ = pos.occ();
    let cands = slider_candidates(pos);
    let l = leaper_checkers(pos);
    let start = CheckState { checkers: l, mask: l, pinned: 0, pinners: 0 };
    if cs.checkers == 0 {
        lemma_member_all(t);
    } else if !is_single(cs.checkers) {
        lemma_two_members(cs.checkers);
        let c1 = lowest(cs.checkers);
        let c2 = lowest(drop_lowest(cs.checkers));
        lemma_safe_parries(pos, s, t, kind, c1);
        lemma_safe_parries(pos, s, t, kind, c2);
        lemma_one_parry(pos, c1, c2, t);
    } else {
        lemma_lowest(cs.checkers);
        let c = lowest(cs.checkers);
        lemma_checker(pos, c);
        lemma_safe_parries(pos, s, t, kind, c);
        lemma_between_sym(king, c);
        if t == c && member(l, c) {
            lemma_scan_mask_kept(cands, king, occ, start, t);
        } else {
            lemma_scan_mask_has(cands, king, occ, start, c, t);
        }
    }
}

} // verus!
