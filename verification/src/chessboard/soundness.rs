//! A move of a piece that is not pinned, to a square that answers the check,
//! leaves the king unattacked.

use vstd::prelude::*;
use crate::attack::init::{bishop_attacks, knight_attacks, pawn_attacks, rook_attacks};
use crate::attack::between;
use crate::bits::{
    drop_lowest, is_single, lemma_and_zero, lemma_drop_lowest, lemma_ext, lemma_is_single,
    lemma_lowest, lemma_member_and, lemma_member_not, lemma_member_or, lemma_member_single,
    lemma_member_zero, lemma_single, lowest, member, single,
};
use crate::chessboard::check::{
    check_state, leaper_checkers, raw_check_state, scan_one, scan_sliders, slider_candidates,
    CheckState,
};
use crate::chessboard::checks::{
    lemma_between_sym, lemma_scan_checkers, lemma_slider_reaches, threats,
};
use crate::chessboard::movegen::target_mask;
use crate::chessboard::position::{lemma_occ_member, lemma_occ_update, Position};
use crate::chessboard::updatestate::apply;
use crate::chessboard::valid;
use crate::chessmove::{lemma_make, make, valid_kind, MoveType};
use crate::chesspiece::{ChessPiece, PieceType};
use crate::square::Square;

verus! {

/// What the scan has recorded as pinned stays recorded.
proof fn lemma_scan_pinned_kept(cands: u64, king: int, occ: u64, acc: CheckState, y: int)
    requires
        member(acc.pinned, y),
    ensures
        member(scan_sliders(cands, king, occ, acc).pinned, y),
    decreases cands,
{
    if cands != 0 {
        lemma_drop_lowest(cands);
        let a = lowest(cands);
        let next = scan_one(a, king, occ, acc);
        lemma_member_or(acc.pinned, between(a, king) & occ, y);
        lemma_scan_pinned_kept(drop_lowest(cands), king, occ, next, y);
    }
}

/// A piece that stands alone between a scanned slider and the king is
/// recorded as pinned.
pub proof fn lemma_scan_pinned(cands: u64, king: int, occ: u64, acc: CheckState, a: int, y: int)
    requires
        member(cands, a),
        0 <= y < 64,
        between(a, king) & occ == single(y),
    ensures
        member(scan_sliders(cands, king, occ, acc).pinned, y),
    decreases cands,
{
    lemma_member_zero(a);
    lemma_lowest(cands);
    lemma_drop_lowest(cands);
    let l = lowest(cands);
    let next = scan_one(l, king, occ, acc);
    if a == l {
        lemma_single(y);
        lemma_member_single(y, y);
        lemma_member_or(acc.pinned, single(y), y);
        lemma_scan_pinned_kept(drop_lowest(cands), king, occ, next, y);
    } else {
        lemma_scan_pinned(drop_lowest(cands), king, occ, next, a, y);
    }
}

/// Whether slider `a` gives check and a move to square `y` answers it: `y` is
/// the slider's square or one of the empty squares between it and the king.
pub open spec fn answers(a: int, king: int, occ: u64, y: int) -> bool {
    between(a, king) & occ == 0 && (y == a || member(between(a, king), y))
}

/// A square that the scan records as answering the check was recorded so
/// before, or answers the check of a scanned slider.
pub proof fn lemma_scan_mask(cands: u64, king: int, occ: u64, acc: CheckState, y: int)
    requires
        member(scan_sliders(cands, king, occ, acc).mask, y),
    ensures
        member(acc.mask, y) || exists|a: int| member(cands, a) && #[trigger] answers(a, king, occ, y),
    decreases cands,
{
    if cands != 0 {
        lemma_lowest(cands);
        lemma_drop_lowest(cands);
        let l = lowest(cands);
        let next = scan_one(l, king, occ, acc);
        let ray = between(l, king);
        lemma_scan_mask(drop_lowest(cands), king, occ, next, y);
        if member(next.mask, y) {
            if !member(acc.mask, y) {
                lemma_member_or(acc.mask, single(l) | ray, y);
                lemma_member_or(single(l), ray, y);
                lemma_member_single(l, y);
                assert(member(cands, l) && answers(l, king, occ, y));
            }
        } else {
            let a = choose|a: int| member(drop_lowest(cands), a) && answers(a, king, occ, y);
            assert(member(cands, a) && answers(a, king, occ, y));
        }
    }
}

/// What stands where after a normal move or a promotion of a piece other
/// than the king: the source is empty, the target holds a piece of the mover,
/// the mover's king stands where it stood, the enemy has lost what stood on
/// the target, and every other square holds what it held.
pub proof fn lemma_after_move(pos: Position, s: int, t: int, kind: MoveType)
    requires
        valid(pos),
        0 <= s < 64,
        0 <= t < 64,
        pos.board[s] is Some,
        pos.piece_at(s).0 == pos.side,
        pos.piece_at(s).1 != PieceType::King,
        pos.board[t] matches Some(q) ==> q.0 != pos.side && q.1 != PieceType::King,
        kind is Normal || kind is Promotion,
        valid_kind(kind),
    ensures
        ({
            let next = apply(pos, make(Square::of(s), Square::of(t), kind));
            let own_king = ChessPiece(pos.side, PieceType::King);
            &&& s != t
            &&& next.board.len() == 64
            &&& next.pieces(own_king) == pos.pieces(own_king)
            &&& forall|k: PieceType| #[trigger]
                next.pieces(ChessPiece(pos.side.flip(), k)) == pos.pieces(
                    ChessPiece(pos.side.flip(), k),
                ) & !single(t)
            &&& forall|i: int| #[trigger]
                member(next.occ(), i) == (i == t || (i != s && member(pos.occ(), i)))
        }),
{
    let side = pos.side;
    let enemy = side.flip();
    let own_king = ChessPiece(side, PieceType::King);
    Square::lemma_of(s);
    Square::lemma_of(t);
    lemma_make(Square::of(s), Square::of(t), kind);
    let m = make(Square::of(s), Square::of(t), kind);
    let next = apply(pos, m);
    let b0 = pos.board;
    let b1 = b0.update(s, None);
    let placed: Option<ChessPiece> = match kind {
        MoveType::Promotion(p) => Some(ChessPiece(side, p)),
        _ => b0[s],
    };
    assert(next.board == b1.update(t, placed));
    let put = placed->0;
    assert(placed is Some && put.0 == side && put.1 != PieceType::King);
    lemma_occ_update(b0, s, None, own_king);
    lemma_occ_update(b1, t, placed, own_king);
    assert forall|k: PieceType| #[trigger]
        next.pieces(ChessPiece(enemy, k)) == pos.pieces(ChessPiece(enemy, k)) & !single(t) by {
        let q = ChessPiece(enemy, k);
        lemma_occ_update(b0, s, None, q);
        lemma_occ_update(b1, t, placed, q);
    }
    assert forall|i: int| #[trigger]
        member(next.occ(), i) == (i == t || (i != s && member(pos.occ(), i))) by {
        next.lemma_occ(i);
        pos.lemma_occ(i);
    }
}

/// A piece that attacks the mover's king after a normal move or a promotion
/// of a piece other than the king gave check before the move, or is a slider
/// that only the moved piece shielded the king from and that the target
/// square does not shield it from.
pub proof fn lemma_attacker_after(pos: Position, s: int, t: int, kind: MoveType, x: int)
    requires
        valid(pos),
        0 <= s < 64,
        0 <= t < 64,
        pos.board[s] is Some,
        pos.piece_at(s).0 == pos.side,
        pos.piece_at(s).1 != PieceType::King,
        pos.board[t] matches Some(q) ==> q.0 != pos.side && q.1 != PieceType::King,
        kind is Normal || kind is Promotion,
        valid_kind(kind),
        member(threats(apply(pos, make(Square::of(s), Square::of(t), kind)), pos.side), x),
    ensures
        0 <= x < 64,
        x != t,
        x != s,
        member(pos.occ(), x),
        member(raw_check_state(pos).checkers, x) || (member(slider_candidates(pos), x) && between(
            pos.king_idx(pos.side),
            x,
        ) & pos.occ() == single(s)),
        member(slider_candidates(pos), x) ==> !member(between(pos.king_idx(pos.side), x), t),
{
    let side = pos.side;
    let enemy = side.flip();
    let raw = raw_check_state(pos);
    let own_king = ChessPiece(side, PieceType::King);
    let king_bb = pos.pieces(own_king);
    lemma_is_single(king_bb);
    let king = pos.king_idx(side);
    let occ = pos.occ();
    let l = leaper_checkers(pos);
    let start = CheckState { checkers: l, mask: l, pinned: 0, pinners: 0 };
    let cands = slider_candidates(pos);
    lemma_after_move(pos, s, t, kind);
    let next = apply(pos, make(Square::of(s), Square::of(t), kind));
    let occ2 = next.occ();
    let pw = pos.pieces(ChessPiece(enemy, PieceType::Pawn));
    let pn = pos.pieces(ChessPiece(enemy, PieceType::Knight));
    let pb = pos.pieces(ChessPiece(enemy, PieceType::Bishop));
    let pr = pos.pieces(ChessPiece(enemy, PieceType::Rook));
    let pq = pos.pieces(ChessPiece(enemy, PieceType::Queen));
    assert(next.pieces(ChessPiece(enemy, PieceType::Pawn)) == pw & !single(t));
    assert(next.pieces(ChessPiece(enemy, PieceType::Knight)) == pn & !single(t));
    assert(next.pieces(ChessPiece(enemy, PieceType::Bishop)) == pb & !single(t));
    assert(next.pieces(ChessPiece(enemy, PieceType::Rook)) == pr & !single(t));
    assert(next.pieces(ChessPiece(enemy, PieceType::Queen)) == pq & !single(t));
    assert(next.king_idx(side) == king);
    lemma_member_zero(x);
    let leap = (pawn_attacks(side, king) & (pw & !single(t))) | (knight_attacks(king) & (pn
        & !single(t)));
    let diag2 = (pq & !single(t)) | (pb & !single(t));
    let line2 = (pq & !single(t)) | (pr & !single(t));
    let slide = (bishop_attacks(king, occ2) & diag2) | (rook_attacks(king, occ2) & line2);
    lemma_member_or(leap, slide, x);
    lemma_member_or(
        pawn_attacks(side, king) & (pw & !single(t)),
        knight_attacks(king) & (pn & !single(t)),
        x,
    );
    lemma_member_and(pawn_attacks(side, king), pw & !single(t), x);
    lemma_member_and(knight_attacks(king), pn & !single(t), x);
    lemma_member_and(pw, !single(t), x);
    lemma_member_and(pn, !single(t), x);
    lemma_member_and(pb, !single(t), x);
    lemma_member_and(pr, !single(t), x);
    lemma_member_and(pq, !single(t), x);
    lemma_member_not(single(t), x);
    lemma_member_single(t, x);
    lemma_member_or(bishop_attacks(king, occ2) & diag2, rook_attacks(king, occ2) & line2, x);
    lemma_member_and(bishop_attacks(king, occ2), diag2, x);
    lemma_member_and(rook_attacks(king, occ2), line2, x);
    lemma_member_or(pq & !single(t), pb & !single(t), x);
    lemma_member_or(pq & !single(t), pr & !single(t), x);
    lemma_scan_checkers(cands, king, occ, start, x);
    lemma_member_or(pawn_attacks(side, king) & pw, knight_attacks(king) & pn, x);
    lemma_member_and(pawn_attacks(side, king), pw, x);
    lemma_member_and(knight_attacks(king), pn, x);
    lemma_occ_member(pos.board, ChessPiece(enemy, PieceType::Pawn), x);
    lemma_occ_member(pos.board, ChessPiece(enemy, PieceType::Knight), x);
    lemma_occ_member(pos.board, ChessPiece(enemy, PieceType::Bishop), x);
    lemma_occ_member(pos.board, ChessPiece(enemy, PieceType::Rook), x);
    lemma_occ_member(pos.board, ChessPiece(enemy, PieceType::Queen), x);
    pos.lemma_occ(x);
    let ray = between(king, x);
    lemma_between_sym(king, x);
    lemma_slider_reaches(king, x, occ2);
    lemma_slider_reaches(king, x, 0);
    lemma_and_zero(ray);
    lemma_member_or(bishop_attacks(king, 0) & (pq | pb), rook_attacks(king, 0) & (pq | pr), x);
    lemma_member_and(bishop_attacks(king, 0), pq | pb, x);
    lemma_member_and(rook_attacks(king, 0), pq | pr, x);
    lemma_member_or(pq, pb, x);
    lemma_member_or(pq, pr, x);
    if member(slide, x) {
        assert(member(cands, x));
        assert(ray & occ2 == 0);
        lemma_member_and(ray, occ2, t);
        lemma_member_zero(t);
        let blk = ray & occ;
        assert forall|y: int| 0 <= y < 64 && y != s implies !member(blk, y) by {
            lemma_member_and(ray, occ, y);
            lemma_member_and(ray, occ2, y);
            lemma_member_zero(y);
        }
        if member(blk, s) {
            assert forall|y: int| 0 <= y < 64 implies member(blk, y) == member(single(s), y) by {
                lemma_member_single(s, y);
            }
            lemma_ext(blk, single(s));
        } else {
            assert forall|y: int| 0 <= y < 64 implies member(blk, y) == member(0, y) by {
                lemma_member_zero(y);
            }
            lemma_ext(blk, 0);
            assert(member(raw.checkers, x));
        }
    } else {
        assert(member(l, x));
        assert(member(raw.checkers, x));
        assert(!member(cands, x));
    }
}

/// With exactly one piece giving check, a square that answers the check is
/// the square of that piece or lies between it and the king.
pub proof fn lemma_single_check_mask(pos: Position, x: int, t: int)
    requires
        valid(pos),
        check_state(pos).checkers == single(x),
        0 <= x < 64,
        member(check_state(pos).mask, t),
    ensures
        t == x || (member(slider_candidates(pos), x) && member(
            between(pos.king_idx(pos.side), x),
            t,
        )),
{
    let side = pos.side;
    let enemy = side.flip();
    let cs = check_state(pos);
    let king = pos.king_idx(side);
    let occ = pos.occ();
    let l = leaper_checkers(pos);
    let start = CheckState { checkers: l, mask: l, pinned: 0, pinners: 0 };
    let cands = slider_candidates(pos);
    lemma_single(x);
    assert(cs.mask == raw_check_state(pos).mask);
    lemma_scan_mask(cands, king, occ, start, t);
    if member(l, t) {
        lemma_scan_checkers(cands, king, occ, start, t);
        lemma_member_single(x, t);
    } else {
        let a = choose|a: int| member(cands, a) && answers(a, king, occ, t);
        lemma_scan_checkers(cands, king, occ, start, a);
        lemma_member_single(x, a);
        lemma_member_zero(a);
        lemma_between_sym(king, x);
    }
}

/// After a normal move or a promotion of a piece that is not pinned and not
/// the king, to a square of the target mask, no enemy pawn, knight, bishop,
/// rook or queen attacks the mover's king, provided that at most one piece
/// gave check before.
pub proof fn lemma_unpinned_move_safe(pos: Position, s: int, t: int, kind: MoveType)
    requires
        valid(pos),
        check_state(pos).checkers == 0 || is_single(check_state(pos).checkers),
        0 <= s < 64,
        pos.board[s] is Some,
        pos.piece_at(s).0 == pos.side,
        pos.piece_at(s).1 != PieceType::King,
        !member(check_state(pos).pinned, s),
        member(target_mask(pos, check_state(pos)), t),
        kind is Normal || kind is Promotion,
        valid_kind(kind),
    ensures
        threats(apply(pos, make(Square::of(s), Square::of(t), kind)), pos.side) == 0,
{
    let side = pos.side;
    let enemy = side.flip();
    let cs = check_state(pos);
    let king = pos.king_idx(side);
    let occ = pos.occ();
    let l = leaper_checkers(pos);
    let start = CheckState { checkers: l, mask: l, pinned: 0, pinners: 0 };
    let cands = slider_candidates(pos);
    lemma_target(pos, t);
    let next = apply(pos, make(Square::of(s), Square::of(t), kind));
    let th = threats(next, side);
    if th != 0 {
        lemma_lowest(th);
        let x = lowest(th);
        lemma_attacker_after(pos, s, t, kind, x);
        if !member(cs.checkers, x) {
            lemma_between_sym(king, x);
            lemma_scan_pinned(cands, king, occ, start, x, s);
            assert(false);
        }
        lemma_member_zero(x);
        lemma_is_single(cs.checkers);
        lemma_member_single(lowest(cs.checkers), x);
        lemma_single_check_mask(pos, x, t);
        assert(false);
    }
}

/// A square of the target mask is a square, holds no piece of the side to
/// move and no king, and answers the check.
pub proof fn lemma_target(pos: Position, t: int)
    requires
        pos.shaped(),
        member(target_mask(pos, check_state(pos)), t),
    ensures
        0 <= t < 64,
        member(check_state(pos).mask, t),
        pos.board[t] matches Some(q) ==> q.0 != pos.side && q.1 != PieceType::King,
{
    let side = pos.side;
    let enemy = side.flip();
    let cs = check_state(pos);
    let own = pos.side_occ(side);
    let enemy_king = pos.pieces(ChessPiece(enemy, PieceType::King));
    lemma_member_and(cs.mask & !own, !enemy_king, t);
    lemma_member_and(cs.mask, !own, t);
    lemma_member_not(own, t);
    lemma_member_not(enemy_king, t);
    pos.lemma_side_occ(side, t);
    lemma_occ_member(pos.board, ChessPiece(enemy, PieceType::King), t);
}

} // verus!
