//! After a castle that the generator allows, the enemy does not attack the king.

use vstd::prelude::*;
use crate::attack::init::{bishop_attacks, queen_attacks, rook_attacks};
use crate::attack::between;
use crate::bits::{
    lemma_lowest, lemma_member_and, lemma_member_or, lemma_member_single, lemma_member_zero, lowest,
    member, single,
};
use crate::chessboard::checks::lemma_slider_reaches;
use crate::chessboard::pins::{inside, lemma_between};
use crate::chessboard::position::{lemma_occ_update, Position};
use crate::chessboard::updatestate::{apply, lemma_king_moved};
use crate::chessboard::{
    attacked, castle_legal, king_crossing, king_home, king_target, right_ok, rights_ok, rook_home,
    rook_target, valid,
};
use crate::chessmove::{castle_move, lemma_make, Castling, MoveType};
use crate::chesspiece::{ChessPiece, PieceType};
use crate::square::Square;

verus! {

/// Whether `occ2` is `occ` after a castle: king and rook have left their home
/// squares and stand on their target squares.
pub open spec fn castled(occ: u64, occ2: u64, c: Castling) -> bool {
    forall|i: int| #[trigger]
        member(occ2, i) == (i == king_target(c) || i == rook_target(c) || (i != king_home(c.side())
            && i != rook_home(c) && member(occ, i)))
}

/// A line from the king's target square that is open after a castle was open before it.
proof fn lemma_castle_line(c: Castling, occ: u64, occ2: u64, x: int)
    requires
        castled(occ, occ2, c),
        0 <= x < 64,
        between(king_target(c), x) & occ2 == 0,
    ensures
        between(king_target(c), x) & occ == 0,
{
    let kt = king_target(c);
    let ray = between(kt, x);
    let blk = ray & occ;
    if blk != 0 {
        lemma_lowest(blk);
        let y = lowest(blk);
        lemma_member_and(ray, occ, y);
        lemma_member_and(ray, occ2, y);
        lemma_member_and(ray, occ2, rook_target(c));
        lemma_member_zero(y);
        lemma_member_zero(rook_target(c));
        lemma_between(kt, x, y);
        lemma_between(kt, x, rook_target(c));
        assert(member(occ2, rook_target(c)));
        assert(y == king_home(c.side()) || y == rook_home(c));
        assert(inside(kt, x, rook_target(c)));
    }
}

/// A slider that attacks the king's target square after a castle attacked it before.
proof fn lemma_castle_attack(c: Castling, occ: u64, occ2: u64, x: int)
    requires
        castled(occ, occ2, c),
        0 <= x < 64,
    ensures
        member(rook_attacks(king_target(c), occ2), x) ==> member(
            rook_attacks(king_target(c), occ),
            x,
        ),
        member(bishop_attacks(king_target(c), occ2), x) ==> member(
            bishop_attacks(king_target(c), occ),
            x,
        ),
        member(queen_attacks(king_target(c), occ2), x) ==> member(
            queen_attacks(king_target(c), occ),
            x,
        ),
{
    let kt = king_target(c);
    lemma_slider_reaches(kt, x, occ2);
    lemma_slider_reaches(kt, x, occ);
    if between(kt, x) & occ2 == 0 {
        lemma_castle_line(c, occ, occ2, x);
    }
    lemma_member_or(bishop_attacks(kt, occ2), rook_attacks(kt, occ2), x);
    lemma_member_or(bishop_attacks(kt, occ), rook_attacks(kt, occ), x);
}

/// Attackers found among a set of pieces after a castle were found among it before.
proof fn lemma_castle_term(a2: u64, a: u64, p: u64)
    requires
        forall|x: int| 0 <= x < 64 && member(a2, x) ==> member(a, x),
        a & p == 0,
    ensures
        a2 & p == 0,
{
    let z = a2 & p;
    if z != 0 {
        lemma_lowest(z);
        let x = lowest(z);
        lemma_member_and(a2, p, x);
        lemma_member_and(a, p, x);
        lemma_member_zero(x);
    }
}

/// After a castle that the generator allows, the king stands on its target
/// square and the enemy does not attack it there.
pub proof fn lemma_castle_safe(pos: Position, c: Castling)
    requires
        valid(pos),
        c.side() == pos.side,
        castle_legal(pos, c),
    ensures
        ({
            let next = apply(pos, castle_move(c));
            &&& next.pieces(ChessPiece(pos.side, PieceType::King)) == single(king_target(c))
            &&& !attacked(next, king_target(c), pos.side.flip(), next.occ())
        }),
{
    let side = pos.side;
    let enemy = side.flip();
    let own_king = ChessPiece(side, PieceType::King);
    let own_rook = ChessPiece(side, PieceType::Rook);
    let kh = king_home(side);
    let kt = king_target(c);
    let rh = rook_home(c);
    let rt = rook_target(c);
    lemma_make(Square::E1, Square::G1, MoveType::Castle(c));
    lemma_make(Square::E1, Square::C1, MoveType::Castle(c));
    lemma_make(Square::E8, Square::G8, MoveType::Castle(c));
    lemma_make(Square::E8, Square::C8, MoveType::Castle(c));
    assert(rights_ok(pos));
    assert(right_ok(pos, c));
    let occ = pos.occ();
    let a = single(king_crossing(c));
    let b = single(kt);
    lemma_member_single(king_crossing(c), king_crossing(c));
    lemma_member_single(kt, kt);
    lemma_member_or(a, b, king_crossing(c));
    lemma_member_or(a, b, kt);
    lemma_member_and(a | b, occ, king_crossing(c));
    lemma_member_and(a | b, occ, kt);
    lemma_member_zero(king_crossing(c));
    lemma_member_zero(kt);
    pos.lemma_occ(king_crossing(c));
    pos.lemma_occ(kt);
    let next = apply(pos, castle_move(c));
    let b0 = pos.board;
    let b1 = b0.update(kh, None);
    let b2 = b1.update(kt, Some(own_king));
    let b3 = b2.update(rh, None);
    let b4 = b3.update(rt, Some(own_rook));
    assert(next.board == b4);
    lemma_king_moved(b0, kh, kt, own_king);
    lemma_occ_update(b2, rh, None, own_king);
    lemma_occ_update(b3, rt, Some(own_rook), own_king);
    let occ2 = next.occ();
    assert(castled(occ, occ2, c)) by {
        assert forall|i: int| #[trigger]
            member(occ2, i) == (i == kt || i == rt || (i != kh && i != rh && member(occ, i))) by {
            next.lemma_occ(i);
            pos.lemma_occ(i);
        }
    }
    assert forall|k: PieceType| #[trigger]
        next.pieces(ChessPiece(enemy, k)) == pos.pieces(ChessPiece(enemy, k)) by {
        let q = ChessPiece(enemy, k);
        lemma_occ_update(b0, kh, None, q);
        lemma_occ_update(b1, kt, Some(own_king), q);
        lemma_occ_update(b2, rh, None, q);
        lemma_occ_update(b3, rt, Some(own_rook), q);
    }
    let pb = pos.pieces(ChessPiece(enemy, PieceType::Bishop));
    let pr = pos.pieces(ChessPiece(enemy, PieceType::Rook));
    let pq = pos.pieces(ChessPiece(enemy, PieceType::Queen));
    assert(next.pieces(ChessPiece(enemy, PieceType::Pawn)) == pos.pieces(
        ChessPiece(enemy, PieceType::Pawn),
    ));
    assert(next.pieces(ChessPiece(enemy, PieceType::Knight)) == pos.pieces(
        ChessPiece(enemy, PieceType::Knight),
    ));
    assert(next.pieces(ChessPiece(enemy, PieceType::Bishop)) == pb);
    assert(next.pieces(ChessPiece(enemy, PieceType::Rook)) == pr);
    assert(next.pieces(ChessPiece(enemy, PieceType::Queen)) == pq);
    assert(next.pieces(ChessPiece(enemy, PieceType::King)) == pos.pieces(
        ChessPiece(enemy, PieceType::King),
    ));
    assert forall|x: int| 0 <= x < 64 implies (member(rook_attacks(kt, occ2), x) ==> member(
        rook_attacks(kt, occ),
        x,
    )) && (member(bishop_attacks(kt, occ2), x) ==> member(bishop_attacks(kt, occ), x)) && (member(
        queen_attacks(kt, occ2),
        x,
    ) ==> member(queen_attacks(kt, occ), x)) by {
        lemma_castle_attack(c, occ, occ2, x);
    }
    lemma_castle_term(bishop_attacks(kt, occ2), bishop_attacks(kt, occ), pb);
    lemma_castle_term(rook_attacks(kt, occ2), rook_attacks(kt, occ), pr);
    lemma_castle_term(queen_attacks(kt, occ2), queen_attacks(kt, occ), pq);
}

} // verus!
