//! The pieces that the scan of the king's lines finds giving check are the
//! enemy pawns, knights, bishops, rooks and queens that attack the king.

use vstd::prelude::*;
use crate::attack::init::{
    bishop_attacks, in_range, is_dir, knight_attacks, pawn_attacks, ray_attacks, rook_attacks,
    steps_left, walk,
};
use crate::attack::{between, line_dir};
use crate::bits::{
    drop_lowest, lemma_and_zero, lemma_drop_lowest, lemma_ext, lemma_is_single, lemma_lowest,
    lemma_member_and, lemma_member_or, lemma_member_single, lemma_member_zero, lowest, member,
    single,
};
use crate::chessboard::check::{
    check_state, leaper_checkers, scan_one, scan_sliders, slider_candidates, CheckState,
};
use crate::chessboard::pins::{along, inside, lemma_between, on_line, shift};
use crate::chessboard::position::Position;
use crate::chessboard::valid;
use crate::chesspiece::{ChessPiece, PieceType, Side};
use crate::square::{col_of, row_of};

verus! {

/// The square `j` steps from square `i` in direction `(dr, dc)`.
pub open spec fn sq_at(i: int, dr: int, dc: int, j: int) -> int {
    shift(row_of(i), dr, j) * 8 + shift(col_of(i), dc, j)
}

/// Whether the squares from the `k`-th up to the `n`-th, exclusive, of a line
/// from square `i` are empty.
pub open spec fn clear_to(i: int, dr: int, dc: int, occ: u64, k: int, n: int) -> bool {
    forall|j: int| k <= j < n ==> !member(occ, #[trigger] sq_at(i, dr, dc, j))
}

/// Walking from the `k`-th square of a line, one sees a square exactly when
/// it lies on the line at or behind the `k`-th, with only empty squares before it.
proof fn lemma_walk_clear(i: int, dr: int, dc: int, occ: u64, k: int, x: int)
    requires
        0 <= i < 64,
        is_dir(dr, dc),
        1 <= k,
    ensures
        member(walk(shift(row_of(i), dr, k), shift(col_of(i), dc, k), dr, dc, occ), x) == (0 <= x
            < 64 && on_line(i, x, dr, dc) && along(i, x, dr, dc) >= k && clear_to(
            i,
            dr,
            dc,
            occ,
            k,
            along(i, x, dr, dc),
        )),
    decreases steps_left(shift(row_of(i), dr, k), shift(col_of(i), dc, k), dr, dc),
{
    let r = shift(row_of(i), dr, k);
    let c = shift(col_of(i), dc, k);
    let n = along(i, x, dr, dc);
    lemma_member_zero(x);
    if in_range(r, c) {
        let sq = r * 8 + c;
        assert(sq == sq_at(i, dr, dc, k));
        assert(row_of(sq) == r && col_of(sq) == c);
        lemma_member_single(sq, x);
        if member(occ, sq) {
            if 0 <= x < 64 && on_line(i, x, dr, dc) && n > k {
                assert(!clear_to(i, dr, dc, occ, k, n)) by {
                    assert(member(occ, sq_at(i, dr, dc, k)));
                }
            }
        } else {
            let rest = walk(r + dr, c + dc, dr, dc, occ);
            assert(r + dr == shift(row_of(i), dr, k + 1));
            assert(c + dc == shift(col_of(i), dc, k + 1));
            lemma_walk_clear(i, dr, dc, occ, k + 1, x);
            lemma_member_or(single(sq), rest, x);
            if 0 <= x < 64 && on_line(i, x, dr, dc) && n > k {
                assert(clear_to(i, dr, dc, occ, k, n) == clear_to(i, dr, dc, occ, k + 1, n)) by {
                    if clear_to(i, dr, dc, occ, k + 1, n) {
                        assert forall|j: int| k <= j < n implies !member(
                            occ,
                            #[trigger] sq_at(i, dr, dc, j),
                        ) by {}
                    }
                }
            }
        }
    }
}

/// The squares between two squares on a line are empty exactly when each
/// square of the line before the second is.
proof fn lemma_between_clear(i: int, x: int, dr: int, dc: int, occ: u64)
    requires
        0 <= i < 64,
        0 <= x < 64,
        line_dir(i, x) == Some((dr, dc)),
    ensures
        (between(i, x) & occ == 0) == clear_to(i, dr, dc, occ, 1, along(i, x, dr, dc)),
{
    let n = along(i, x, dr, dc);
    let b = between(i, x);
    if b & occ == 0 {
        assert forall|j: int| 1 <= j < n implies !member(occ, #[trigger] sq_at(i, dr, dc, j)) by {
            let y = sq_at(i, dr, dc, j);
            assert(0 <= y < 64);
            assert(row_of(y) == shift(row_of(i), dr, j) && col_of(y) == shift(col_of(i), dc, j));
            assert(inside(i, x, y));
            lemma_between(i, x, y);
            lemma_member_and(b, occ, y);
            lemma_member_zero(y);
        }
    }
    if clear_to(i, dr, dc, occ, 1, n) {
        assert forall|y: int| 0 <= y < 64 implies member(b & occ, y) == member(0, y) by {
            lemma_member_and(b, occ, y);
            lemma_member_zero(y);
            lemma_between(i, x, y);
            if inside(i, x, y) {
                assert(y == sq_at(i, dr, dc, along(i, y, dr, dc)));
            }
        }
        lemma_ext(b & occ, 0);
    }
}

/// The squares between two squares do not depend on the order of the two.
pub proof fn lemma_between_sym(i: int, x: int)
    requires
        0 <= i < 64,
        0 <= x < 64,
    ensures
        between(i, x) == between(x, i),
{
    assert forall|y: int| 0 <= y < 64 implies member(between(i, x), y) == member(between(x, i), y) by {
        lemma_between(i, x, y);
        lemma_between(x, i, y);
    }
    lemma_ext(between(i, x), between(x, i));
}

/// Whether a line has the direction of a rank or a file.
pub open spec fn straight(d: (int, int)) -> bool {
    d.0 == 0 || d.1 == 0
}

/// One line from a square reaches another square exactly when it has the
/// direction of the other square and the squares between the two are empty.
pub proof fn lemma_ray_reaches(i: int, x: int, dr: int, dc: int, occ: u64)
    requires
        0 <= i < 64,
        0 <= x < 64,
        is_dir(dr, dc),
    ensures
        member(ray_attacks(i, dr, dc, occ), x) == (line_dir(i, x) == Some((dr, dc)) && between(i, x)
            & occ == 0),
{
    assert(row_of(i) + dr == shift(row_of(i), dr, 1));
    assert(col_of(i) + dc == shift(col_of(i), dc, 1));
    lemma_walk_clear(i, dr, dc, occ, 1, x);
    assert((on_line(i, x, dr, dc) && along(i, x, dr, dc) >= 1) == (line_dir(i, x) == Some((dr, dc))));
    if line_dir(i, x) == Some((dr, dc)) {
        lemma_between_clear(i, x, dr, dc, occ);
    }
}

/// A rook attacks a square exactly when both share a rank or a file with only
/// empty squares between them; a bishop, when they share a diagonal so.
pub proof fn lemma_slider_reaches(i: int, x: int, occ: u64)
    requires
        0 <= i < 64,
        0 <= x < 64,
    ensures
        member(rook_attacks(i, occ), x) == (line_dir(i, x) matches Some(d) && straight(d) && between(
            i,
            x,
        ) & occ == 0),
        member(bishop_attacks(i, occ), x) == (line_dir(i, x) matches Some(d) && !straight(d)
            && between(i, x) & occ == 0),
{
    lemma_ray_reaches(i, x, 0, -1, occ);
    lemma_ray_reaches(i, x, 0, 1, occ);
    lemma_ray_reaches(i, x, 1, 0, occ);
    lemma_ray_reaches(i, x, -1, 0, occ);
    lemma_ray_reaches(i, x, 1, 1, occ);
    lemma_ray_reaches(i, x, -1, 1, occ);
    lemma_ray_reaches(i, x, 1, -1, occ);
    lemma_ray_reaches(i, x, -1, -1, occ);
    let a = ray_attacks(i, 0, -1, occ);
    let b = ray_attacks(i, 0, 1, occ);
    let c = ray_attacks(i, 1, 0, occ);
    let d = ray_attacks(i, -1, 0, occ);
    lemma_member_or(a, b, x);
    lemma_member_or(a | b, c, x);
    lemma_member_or(a | b | c, d, x);
    let e = ray_attacks(i, 1, 1, occ);
    let f = ray_attacks(i, -1, 1, occ);
    let g = ray_attacks(i, 1, -1, occ);
    let h = ray_attacks(i, -1, -1, occ);
    lemma_member_or(e, f, x);
    lemma_member_or(e | f, g, x);
    lemma_member_or(e | f | g, h, x);
}

/// The sliders that the scan of a set of candidates finds giving check are
/// those with only empty squares between themselves and the king.
pub proof fn lemma_scan_checkers(cands: u64, king: int, occ: u64, acc: CheckState, x: int)
    ensures
        member(scan_sliders(cands, king, occ, acc).checkers, x) == (member(acc.checkers, x) || (
        member(cands, x) && between(x, king) & occ == 0)),
    decreases cands,
{
    if cands != 0 {
        lemma_lowest(cands);
        lemma_drop_lowest(cands);
        let a = lowest(cands);
        let next = scan_one(a, king, occ, acc);
        lemma_scan_checkers(drop_lowest(cands), king, occ, next, x);
        lemma_member_or(acc.checkers, single(a), x);
        lemma_member_single(a, x);
    } else {
        lemma_member_zero(x);
    }
}

/// The pawns, knights, bishops, rooks and queens of the other side that
/// attack the king of `side`.
pub open spec fn threats(pos: Position, side: Side) -> u64 {
    let king = pos.king_idx(side);
    let enemy = side.flip();
    let queens = pos.pieces(ChessPiece(enemy, PieceType::Queen));
    ((pawn_attacks(side, king) & pos.pieces(ChessPiece(enemy, PieceType::Pawn))) | (knight_attacks(
        king,
    ) & pos.pieces(ChessPiece(enemy, PieceType::Knight)))) | ((bishop_attacks(king, pos.occ()) & (
    queens | pos.pieces(ChessPiece(enemy, PieceType::Bishop)))) | (rook_attacks(king, pos.occ())
        & (queens | pos.pieces(ChessPiece(enemy, PieceType::Rook)))))
}

/// The enemy pawns, knights, bishops, rooks and queens that attack the king
/// of the side to move.
pub open spec fn attackers_of_king(pos: Position) -> u64 {
    threats(pos, pos.side)
}

/// The pieces that the check state records as giving check are the enemy
/// pawns, knights, bishops, rooks and queens that attack the king.
pub proof fn lemma_checkers(pos: Position)
    requires
        valid(pos),
    ensures
        check_state(pos).checkers == attackers_of_king(pos),
{
    let king_bb = pos.pieces(ChessPiece(pos.side, PieceType::King));
    lemma_is_single(king_bb);
    let king = pos.king_idx(pos.side);
    let enemy = pos.side.flip();
    let occ = pos.occ();
    let l = leaper_checkers(pos);
    let start = CheckState { checkers: l, mask: l, pinned: 0, pinners: 0 };
    let cands = slider_candidates(pos);
    let queens = pos.pieces(ChessPiece(enemy, PieceType::Queen));
    let diag = queens | pos.pieces(ChessPiece(enemy, PieceType::Bishop));
    let line = queens | pos.pieces(ChessPiece(enemy, PieceType::Rook));
    let found = check_state(pos).checkers;
    let wanted = attackers_of_king(pos);
    assert forall|x: int| 0 <= x < 64 implies member(found, x) == member(wanted, x) by {
        lemma_scan_checkers(cands, king, occ, start, x);
        lemma_member_or(bishop_attacks(king, 0) & diag, rook_attacks(king, 0) & line, x);
        lemma_member_and(bishop_attacks(king, 0), diag, x);
        lemma_member_and(rook_attacks(king, 0), line, x);
        let b = bishop_attacks(king, occ) & diag;
        let r = rook_attacks(king, occ) & line;
        lemma_member_or(l, b | r, x);
        lemma_member_or(b, r, x);
        lemma_member_and(bishop_attacks(king, occ), diag, x);
        lemma_member_and(rook_attacks(king, occ), line, x);
        lemma_slider_reaches(king, x, occ);
        lemma_slider_reaches(king, x, 0);
        lemma_and_zero(between(king, x));
        lemma_between_sym(king, x);
    }
    lemma_ext(found, wanted);
}

} // verus!
