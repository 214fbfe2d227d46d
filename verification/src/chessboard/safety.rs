//! The king never steps onto an attacked square.

use vstd::prelude::*;
use crate::attack::init::{
    bishop_attacks, in_range, is_dir, king_attacks, knight_attacks, pawn_attacks, queen_attacks,
    ray_attacks, rook_attacks, step, steps_left, walk,
};
use crate::attack::magic::{inner, lemma_walk_inner};
use crate::bits::{
    lemma_ext, lemma_is_single, lemma_member_and, lemma_member_not, lemma_member_or,
    lemma_member_single, lemma_member_xor, lemma_member_zero, member, single,
};
use crate::chessboard::movegen::{king_targets, kingless};
use crate::chessboard::position::{lemma_occ_member, lemma_occ_update, Position};
use crate::chessboard::updatestate::apply;
use crate::chessboard::{attacked, valid};
use crate::chessmove::{lemma_make, make, MoveType};
use crate::chesspiece::{ChessPiece, PieceType, Side};
use crate::square::{col_of, row_of, Square};

verus! {

/// Whether square `x` lies at or beyond rank `r` and file `c` in direction `(dr, dc)`.
pub open spec fn ahead(r: int, c: int, dr: int, dc: int, x: int) -> bool {
    &&& 0 <= x < 64
    &&& dr == 1 ==> row_of(x) >= r
    &&& dr == -1 ==> row_of(x) <= r
    &&& dc == 1 ==> col_of(x) >= c
    &&& dc == -1 ==> col_of(x) <= c
}

/// The squares of a line from a square on lie at or beyond that square.
proof fn lemma_inner_ahead(r: int, c: int, dr: int, dc: int, x: int)
    requires
        member(inner(r, c, dr, dc), x),
    ensures
        ahead(r, c, dr, dc, x),
        in_range(r, c),
        is_dir(dr, dc),
    decreases steps_left(r, c, dr, dc),
{
    lemma_member_zero(x);
    if in_range(r, c) && is_dir(dr, dc) && in_range(r + dr, c + dc) {
        let rest = inner(r + dr, c + dc, dr, dc);
        lemma_member_or(single(r * 8 + c), rest, x);
        lemma_member_single(r * 8 + c, x);
        if member(rest, x) {
            lemma_inner_ahead(r + dr, c + dc, dr, dc, x);
        }
    }
}

/// The squares seen along a line from a square on lie at or beyond that square.
proof fn lemma_walk_ahead(r: int, c: int, dr: int, dc: int, occ: u64, x: int)
    requires
        member(walk(r, c, dr, dc, occ), x),
    ensures
        ahead(r, c, dr, dc, x),
        in_range(r, c),
        is_dir(dr, dc),
    decreases steps_left(r, c, dr, dc),
{
    lemma_member_zero(x);
    if in_range(r, c) && is_dir(dr, dc) {
        lemma_member_single(r * 8 + c, x);
        if !member(occ, r * 8 + c) {
            let rest = walk(r + dr, c + dc, dr, dc, occ);
            lemma_member_or(single(r * 8 + c), rest, x);
            if member(rest, x) {
                lemma_walk_ahead(r + dr, c + dc, dr, dc, occ, x);
            }
        }
    }
}

/// Whether two sets of squares agree on every square but `t`.
pub open spec fn agree_but(a: u64, b: u64, t: int) -> bool {
    forall|s: int| s != t ==> #[trigger] member(a, s) == member(b, s)
}

/// What is seen along a line from a square does not depend on whether the
/// square itself is occupied, and the square itself is not seen.
proof fn lemma_ray_self(i: int, dr: int, dc: int, occ: u64, occ2: u64)
    requires
        0 <= i < 64,
        agree_but(occ, occ2, i),
    ensures
        ray_attacks(i, dr, dc, occ) == ray_attacks(i, dr, dc, occ2),
        !member(ray_attacks(i, dr, dc, occ), i),
{
    let r = row_of(i) + dr;
    let c = col_of(i) + dc;
    assert forall|s: int| member(inner(r, c, dr, dc), s) implies member(occ, s) == member(occ2, s) by {
        lemma_inner_ahead(r, c, dr, dc, s);
    }
    lemma_walk_inner(r, c, dr, dc, occ, occ2);
    if member(walk(r, c, dr, dc, occ), i) {
        lemma_walk_ahead(r, c, dr, dc, occ, i);
    }
}

/// What a slider attacks from a square does not depend on whether the square
/// itself is occupied, and the square itself is not attacked.
pub proof fn lemma_slider_self(i: int, occ: u64, occ2: u64)
    requires
        0 <= i < 64,
        agree_but(occ, occ2, i),
    ensures
        rook_attacks(i, occ) == rook_attacks(i, occ2),
        bishop_attacks(i, occ) == bishop_attacks(i, occ2),
        queen_attacks(i, occ) == queen_attacks(i, occ2),
        !member(rook_attacks(i, occ), i),
        !member(bishop_attacks(i, occ), i),
        !member(queen_attacks(i, occ), i),
{
    lemma_ray_self(i, 0, -1, occ, occ2);
    lemma_ray_self(i, 0, 1, occ, occ2);
    lemma_ray_self(i, 1, 0, occ, occ2);
    lemma_ray_self(i, -1, 0, occ, occ2);
    lemma_ray_self(i, 1, 1, occ, occ2);
    lemma_ray_self(i, -1, 1, occ, occ2);
    lemma_ray_self(i, 1, -1, occ, occ2);
    lemma_ray_self(i, -1, -1, occ, occ2);
    let a = ray_attacks(i, 0, -1, occ);
    let b = ray_attacks(i, 0, 1, occ);
    let c = ray_attacks(i, 1, 0, occ);
    let d = ray_attacks(i, -1, 0, occ);
    lemma_member_or(a, b, i);
    lemma_member_or(a | b, c, i);
    lemma_member_or(a | b | c, d, i);
    let e = ray_attacks(i, 1, 1, occ);
    let f = ray_attacks(i, -1, 1, occ);
    let g = ray_attacks(i, 1, -1, occ);
    let h = ray_attacks(i, -1, -1, occ);
    lemma_member_or(e, f, i);
    lemma_member_or(e | f, g, i);
    lemma_member_or(e | f | g, h, i);
    lemma_member_or(bishop_attacks(i, occ), rook_attacks(i, occ), i);
}

/// A one-step target is another square than the one stepped from.
proof fn lemma_step_self(i: int, dr: int, dc: int)
    requires
        0 <= i < 64,
        dr != 0 || dc != 0,
    ensures
        !member(step(i, dr, dc), i),
{
    lemma_member_zero(i);
    if in_range(row_of(i) + dr, col_of(i) + dc) {
        lemma_member_single((row_of(i) + dr) * 8 + col_of(i) + dc, i);
    }
}

/// No pawn, knight or king attacks the square on which it stands.
pub proof fn lemma_leaper_self(i: int)
    requires
        0 <= i < 64,
    ensures
        !member(knight_attacks(i), i),
        !member(king_attacks(i), i),
        !member(pawn_attacks(Side::White, i), i),
        !member(pawn_attacks(Side::Black, i), i),
{
    lemma_member_zero(i);
    lemma_step_self(i, 1, -1);
    lemma_step_self(i, 1, 1);
    lemma_step_self(i, -1, -1);
    lemma_step_self(i, -1, 1);
    lemma_member_or(0, step(i, 1, -1), i);
    lemma_member_or(0 | step(i, 1, -1), step(i, 1, 1), i);
    lemma_member_or(0, step(i, -1, -1), i);
    lemma_member_or(0 | step(i, -1, -1), step(i, -1, 1), i);
    let n1 = 0 | step(i, 2, 1);
    let n2 = n1 | step(i, 2, -1);
    let n3 = n2 | step(i, 1, 2);
    let n4 = n3 | step(i, 1, -2);
    let n5 = n4 | step(i, -1, 2);
    let n6 = n5 | step(i, -1, -2);
    let n7 = n6 | step(i, -2, 1);
    lemma_step_self(i, 2, 1);
    lemma_step_self(i, 2, -1);
    lemma_step_self(i, 1, 2);
    lemma_step_self(i, 1, -2);
    lemma_step_self(i, -1, 2);
    lemma_step_self(i, -1, -2);
    lemma_step_self(i, -2, 1);
    lemma_step_self(i, -2, -1);
    lemma_member_or(0, step(i, 2, 1), i);
    lemma_member_or(n1, step(i, 2, -1), i);
    lemma_member_or(n2, step(i, 1, 2), i);
    lemma_member_or(n3, step(i, 1, -2), i);
    lemma_member_or(n4, step(i, -1, 2), i);
    lemma_member_or(n5, step(i, -1, -2), i);
    lemma_member_or(n6, step(i, -2, 1), i);
    lemma_member_or(n7, step(i, -2, -1), i);
    let k1 = 0 | step(i, 1, 0);
    let k2 = k1 | step(i, -1, 0);
    let k3 = k2 | step(i, 0, -1);
    let k4 = k3 | step(i, 0, 1);
    let k5 = k4 | step(i, 1, -1);
    let k6 = k5 | step(i, 1, 1);
    let k7 = k6 | step(i, -1, -1);
    lemma_step_self(i, 1, 0);
    lemma_step_self(i, -1, 0);
    lemma_step_self(i, 0, -1);
    lemma_step_self(i, 0, 1);
    lemma_member_or(0, step(i, 1, 0), i);
    lemma_member_or(k1, step(i, -1, 0), i);
    lemma_member_or(k2, step(i, 0, -1), i);
    lemma_member_or(k3, step(i, 0, 1), i);
    lemma_member_or(k4, step(i, 1, -1), i);
    lemma_member_or(k5, step(i, 1, 1), i);
    lemma_member_or(k6, step(i, -1, -1), i);
    lemma_member_or(k7, step(i, -1, 1), i);
}

/// Attackers of a square are found among a set of pieces as well as among
/// the set without that square.
proof fn lemma_without_target(a: u64, p: u64, t: int)
    requires
        0 <= t < 64,
        !member(a, t),
    ensures
        a & (p & !single(t)) == a & p,
{
    assert forall|i: int| 0 <= i < 64 implies member(a & (p & !single(t)), i) == member(a & p, i) by {
        lemma_member_and(a, p & !single(t), i);
        lemma_member_and(p, !single(t), i);
        lemma_member_not(single(t), i);
        lemma_member_single(t, i);
        lemma_member_and(a, p, i);
    }
    lemma_ext(a & (p & !single(t)), a & p);
}

/// After a step of the king the enemy attacks the king exactly if, before
/// the step, it attacks the target once the king has left its square.
pub proof fn lemma_king_step_safe(pos: Position, t: int)
    requires
        valid(pos),
        member(king_targets(pos), t),
    ensures
        ({
            let m = make(Square::of(pos.king_idx(pos.side)), Square::of(t), MoveType::Normal);
            let next = apply(pos, m);
            &&& next.board[t] == Some(ChessPiece(pos.side, PieceType::King))
            &&& next.pieces(ChessPiece(pos.side, PieceType::King)) == single(t)
            &&& attacked(next, t, pos.side.flip(), next.occ()) == attacked(
                pos,
                t,
                pos.side.flip(),
                kingless(pos),
            )
        }),
{
    let own = ChessPiece(pos.side, PieceType::King);
    let enemy = pos.side.flip();
    let king_bb = pos.pieces(own);
    lemma_is_single(king_bb);
    let k = pos.king_idx(pos.side);
    lemma_occ_member(pos.board, own, k);
    lemma_member_single(k, k);
    let targets = king_attacks(k) & !pos.side_occ(pos.side);
    lemma_member_and(targets, !pos.pieces(ChessPiece(enemy, PieceType::King)), t);
    lemma_member_and(king_attacks(k), !pos.side_occ(pos.side), t);
    lemma_leaper_self(k);
    assert(0 <= t < 64 && t != k);
    Square::lemma_of(k);
    Square::lemma_of(t);
    let m = make(Square::of(k), Square::of(t), MoveType::Normal);
    lemma_make(Square::of(k), Square::of(t), MoveType::Normal);
    let next = apply(pos, m);
    let b1 = pos.board.update(k, None);
    assert(next.board == b1.update(t, Some(own)));
    crate::chessboard::updatestate::lemma_king_moved(pos.board, k, t, own);
    let occ2 = next.occ();
    let less = kingless(pos);
    assert(agree_but(occ2, less, t)) by {
        assert forall|s: int| s != t implies #[trigger] member(occ2, s) == member(less, s) by {
            next.lemma_occ(s);
            pos.lemma_occ(s);
            lemma_member_xor(pos.occ(), king_bb, s);
            lemma_member_single(k, s);
        }
    }
    lemma_slider_self(t, occ2, less);
    lemma_leaper_self(t);
    assert forall|kind: PieceType| #[trigger]
        next.pieces(ChessPiece(enemy, kind)) == pos.pieces(ChessPiece(enemy, kind)) & !single(t) by {
        let q = ChessPiece(enemy, kind);
        lemma_occ_update(pos.board, k, None, q);
        lemma_occ_update(b1, t, Some(own), q);
    }
    let pw = pos.pieces(ChessPiece(enemy, PieceType::Pawn));
    let pn = pos.pieces(ChessPiece(enemy, PieceType::Knight));
    let pb = pos.pieces(ChessPiece(enemy, PieceType::Bishop));
    let pr = pos.pieces(ChessPiece(enemy, PieceType::Rook));
    let pq = pos.pieces(ChessPiece(enemy, PieceType::Queen));
    let pk = pos.pieces(ChessPiece(enemy, PieceType::King));
    assert(next.pieces(ChessPiece(enemy, PieceType::Pawn)) == pw & !single(t));
    assert(next.pieces(ChessPiece(enemy, PieceType::Knight)) == pn & !single(t));
    assert(next.pieces(ChessPiece(enemy, PieceType::Bishop)) == pb & !single(t));
    assert(next.pieces(ChessPiece(enemy, PieceType::Rook)) == pr & !single(t));
    assert(next.pieces(ChessPiece(enemy, PieceType::Queen)) == pq & !single(t));
    assert(next.pieces(ChessPiece(enemy, PieceType::King)) == pk & !single(t));
    lemma_without_target(pawn_attacks(enemy.flip(), t), pw, t);
    lemma_without_target(knight_attacks(t), pn, t);
    lemma_without_target(bishop_attacks(t, occ2), pb, t);
    lemma_without_target(rook_attacks(t, occ2), pr, t);
    lemma_without_target(queen_attacks(t, occ2), pq, t);
    lemma_without_target(king_attacks(t), pk, t);
}

} // verus!
