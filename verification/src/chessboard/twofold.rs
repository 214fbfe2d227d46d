//! At most two pieces give check after a move.

use vstd::prelude::*;
use crate::attack::between;
use crate::attack::init::{bishop_attacks, knight_attacks, pawn_attacks, rook_attacks};
use crate::bits::{
    drop_lowest, lemma_drop_lowest, lemma_ext, lemma_is_single, lemma_lowest, lemma_member_and,
    lemma_member_or, lemma_member_single, lemma_member_zero, lowest, member, popcount, single,
};
use crate::chessboard::check::check_state;
use crate::chessboard::checks::{lemma_between_sym, lemma_checkers, lemma_slider_reaches, threats};
use crate::chessboard::laws::lemma_pawn_attacks;
use crate::chessboard::legality::lemma_attacked_threats;
use crate::chessboard::pins::{lemma_between, lemma_popcount_insert, lemma_same_ray};
use crate::chessboard::position::{lemma_occ_member, Position};
use crate::chessboard::rules::in_check;
use crate::chessboard::updatestate::{applicable, apply, ep_victim, lemma_apply_valid};
use crate::chessboard::{ep_ok, right_ok, rights_ok, rook_home, rook_target, valid};
use crate::chessmove::{ChessMove, MoveType};
use crate::chesspiece::{ChessPiece, PieceType};

verus! {

/// A set whose members are among two squares has at most two members.
pub proof fn lemma_popcount_two(b: u64, p: int, q: int)
    requires
        forall|x: int| member(b, x) ==> x == p || x == q,
    ensures
        popcount(b) <= 2,
{
    if b != 0 {
        lemma_lowest(b);
        lemma_drop_lowest(b);
        let l = lowest(b);
        let b1 = drop_lowest(b);
        assert forall|i: int| 0 <= i < 64 implies member(b1 | single(l), i) == member(b, i) by {
            lemma_member_or(b1, single(l), i);
            lemma_member_single(l, i);
        }
        lemma_ext(b1 | single(l), b);
        lemma_popcount_insert(b1, l);
        if b1 != 0 {
            lemma_lowest(b1);
            lemma_drop_lowest(b1);
            let l1 = lowest(b1);
            let b2 = drop_lowest(b1);
            assert forall|i: int| 0 <= i < 64 implies member(b2 | single(l1), i) == member(b1, i) by {
                lemma_member_or(b2, single(l1), i);
                lemma_member_single(l1, i);
            }
            lemma_ext(b2 | single(l1), b1);
            lemma_popcount_insert(b2, l1);
            assert(member(b, l) && member(b, l1) && l != l1);
            if b2 != 0 {
                lemma_lowest(b2);
                let l2 = lowest(b2);
                assert(member(b1, l2) && l2 != l1);
                assert(member(b, l2) && l2 != l);
            }
            assert(popcount(b2) == 0);
        } else {
            assert(popcount(b1) == 0);
        }
    } else {
        assert(popcount(b) == 0);
    }
}

/// Whether the move empties square `y`: its source, the square of the pawn
/// that an en-passant capture takes, and the rook's home square in a castle.
pub open spec fn leaves(pos: Position, m: ChessMove, y: int) -> bool {
    y == m.source_idx() || match m.kind() {
        MoveType::EnPassant => y == ep_victim(pos.side, m.target_idx()),
        MoveType::Castle(c) => y == rook_home(c),
        _ => false,
    }
}

/// Whether the move puts a piece on square `y`: its target, and the rook's
/// target in a castle.
pub open spec fn lands(m: ChessMove, y: int) -> bool {
    y == m.target_idx() || (m.kind() matches MoveType::Castle(c) && y == rook_target(c))
}

/// Whether the piece on square `x` has a free line to square `king` on which
/// square `y` lies, when the squares of `occ` are occupied.
pub open spec fn opened(occ: u64, king: int, y: int, x: int) -> bool {
    &&& 0 <= x < 64
    &&& member(occ, x)
    &&& between(king, x) & occ == 0
    &&& member(between(king, x), y)
}

/// What stands where after a move: nothing on the squares that it empties,
/// and what stood there before on every square on which nothing lands. The
/// king of the other side stands where it stood.
proof fn lemma_moved(pos: Position, m: ChessMove, i: int)
    requires
        valid(pos),
        applicable(pos, m),
        0 <= i < 64,
    ensures
        apply(pos, m).board.len() == 64,
        leaves(pos, m, i) ==> apply(pos, m).board[i] is None,
        lands(m, i) ==> apply(pos, m).board[i] is Some,
        !leaves(pos, m, i) && !lands(m, i) ==> apply(pos, m).board[i] == pos.board[i],
        m.kind() is Castle && i == m.target_idx() ==> apply(pos, m).board[i] == Some(
            ChessPiece(pos.side, PieceType::King),
        ),
        (apply(pos, m).board[i] == Some(ChessPiece(pos.side.flip(), PieceType::King))) == (
        pos.board[i] == Some(ChessPiece(pos.side.flip(), PieceType::King))),
{
    assert(rights_ok(pos));
    assert(ep_ok(pos));
    let t = m.target_idx();
    match m.kind() {
        MoveType::Castle(c) => {
            assert(right_ok(pos, c));
        },
        MoveType::EnPassant => {
            crate::bits::lemma_single(t);
        },
        _ => {},
    }
}

/// The king of the side that has not moved stands where it stood.
proof fn lemma_king_stays(pos: Position, m: ChessMove)
    requires
        valid(pos),
        applicable(pos, m),
    ensures
        apply(pos, m).king_idx(pos.side.flip()) == pos.king_idx(pos.side.flip()),
        0 <= pos.king_idx(pos.side.flip()) < 64,
{
    let next = apply(pos, m);
    let king = ChessPiece(pos.side.flip(), PieceType::King);
    lemma_is_single(pos.pieces(king));
    assert forall|i: int| 0 <= i < 64 implies member(next.pieces(king), i) == member(
        pos.pieces(king),
        i,
    ) by {
        lemma_moved(pos, m, i);
        lemma_occ_member(next.board, king, i);
        lemma_occ_member(pos.board, king, i);
    }
    lemma_ext(next.pieces(king), pos.pieces(king));
}

/// A piece that attacks the king after a move and has not just landed has a
/// free line to the king that the move has opened, if no piece attacked the
/// king before.
proof fn lemma_fresh(pos: Position, m: ChessMove, x: int)
    requires
        valid(pos),
        applicable(pos, m),
        threats(pos, pos.side.flip()) == 0,
        member(threats(apply(pos, m), pos.side.flip()), x),
        !lands(m, x),
    ensures
        exists|y: int|
            leaves(pos, m, y) && #[trigger] opened(
                apply(pos, m).occ(),
                pos.king_idx(pos.side.flip()),
                y,
                x,
            ),
{
    let next = apply(pos, m);
    let side = pos.side;
    let enemy = side.flip();
    lemma_king_stays(pos, m);
    let king = pos.king_idx(enemy);
    let occ = pos.occ();
    let occ2 = next.occ();
    lemma_member_zero(x);
    let pw = pos.pieces(ChessPiece(side, PieceType::Pawn));
    let pn = pos.pieces(ChessPiece(side, PieceType::Knight));
    let pb = pos.pieces(ChessPiece(side, PieceType::Bishop));
    let pr = pos.pieces(ChessPiece(side, PieceType::Rook));
    let pq = pos.pieces(ChessPiece(side, PieceType::Queen));
    let nw = next.pieces(ChessPiece(side, PieceType::Pawn));
    let nn = next.pieces(ChessPiece(side, PieceType::Knight));
    let nb = next.pieces(ChessPiece(side, PieceType::Bishop));
    let nr = next.pieces(ChessPiece(side, PieceType::Rook));
    let nq = next.pieces(ChessPiece(side, PieceType::Queen));
    lemma_member_or(
        (pawn_attacks(enemy, king) & nw) | (knight_attacks(king) & nn),
        (bishop_attacks(king, occ2) & (nq | nb)) | (rook_attacks(king, occ2) & (nq | nr)),
        x,
    );
    lemma_member_or(pawn_attacks(enemy, king) & nw, knight_attacks(king) & nn, x);
    lemma_member_or(bishop_attacks(king, occ2) & (nq | nb), rook_attacks(king, occ2) & (nq | nr), x);
    lemma_member_and(pawn_attacks(enemy, king), nw, x);
    lemma_member_and(knight_attacks(king), nn, x);
    lemma_member_and(bishop_attacks(king, occ2), nq | nb, x);
    lemma_member_and(rook_attacks(king, occ2), nq | nr, x);
    lemma_member_or(nq, nb, x);
    lemma_member_or(nq, nr, x);
    lemma_member_or(
        (pawn_attacks(enemy, king) & pw) | (knight_attacks(king) & pn),
        (bishop_attacks(king, occ) & (pq | pb)) | (rook_attacks(king, occ) & (pq | pr)),
        x,
    );
    lemma_member_or(pawn_attacks(enemy, king) & pw, knight_attacks(king) & pn, x);
    lemma_member_or(bishop_attacks(king, occ) & (pq | pb), rook_attacks(king, occ) & (pq | pr), x);
    lemma_member_and(pawn_attacks(enemy, king), pw, x);
    lemma_member_and(knight_attacks(king), pn, x);
    lemma_member_and(bishop_attacks(king, occ), pq | pb, x);
    lemma_member_and(rook_attacks(king, occ), pq | pr, x);
    lemma_member_or(pq, pb, x);
    lemma_member_or(pq, pr, x);
    lemma_occ_member(pos.board, ChessPiece(side, PieceType::Pawn), x);
    lemma_occ_member(pos.board, ChessPiece(side, PieceType::Knight), x);
    lemma_occ_member(pos.board, ChessPiece(side, PieceType::Bishop), x);
    lemma_occ_member(pos.board, ChessPiece(side, PieceType::Rook), x);
    lemma_occ_member(pos.board, ChessPiece(side, PieceType::Queen), x);
    lemma_occ_member(next.board, ChessPiece(side, PieceType::Pawn), x);
    lemma_occ_member(next.board, ChessPiece(side, PieceType::Knight), x);
    lemma_occ_member(next.board, ChessPiece(side, PieceType::Bishop), x);
    lemma_occ_member(next.board, ChessPiece(side, PieceType::Rook), x);
    lemma_occ_member(next.board, ChessPiece(side, PieceType::Queen), x);
    lemma_moved(pos, m, x);
    next.lemma_occ(x);
    assert(next.board[x] is Some);
    assert(!leaves(pos, m, x));
    assert(pos.board[x] == next.board[x]);
    lemma_slider_reaches(king, x, occ);
    lemma_slider_reaches(king, x, occ2);
    let ray = between(king, x);
    assert(ray & occ2 == 0);
    assert(ray & occ != 0);
    lemma_lowest(ray & occ);
    let y = lowest(ray & occ);
    lemma_member_and(ray, occ, y);
    lemma_member_and(ray, occ2, y);
    lemma_member_zero(y);
    pos.lemma_occ(y);
    next.lemma_occ(y);
    lemma_moved(pos, m, y);
    assert(leaves(pos, m, y));
    assert(opened(occ2, king, y, x));
}

/// Of the pieces with a free line to the king, at most one has a given
/// square on its line.
proof fn lemma_opened_once(occ: u64, king: int, y: int, x1: int, x2: int)
    requires
        0 <= king < 64,
        opened(occ, king, y, x1),
        opened(occ, king, y, x2),
    ensures
        x1 == x2,
{
    if x1 != x2 {
        lemma_between_sym(king, x1);
        lemma_between_sym(king, x2);
        lemma_between(x1, king, y);
        lemma_between(x2, king, y);
        lemma_same_ray(x1, x2, king, y);
        lemma_between(x1, king, x2);
        lemma_between(x2, king, x1);
        lemma_member_and(between(king, x1), occ, x2);
        lemma_member_and(between(king, x2), occ, x1);
        lemma_member_zero(x1);
        lemma_member_zero(x2);
    }
}

/// No corner of the board lies between two squares.
proof fn lemma_corner(king: int, x: int, y: int)
    requires
        0 <= king < 64,
        0 <= x < 64,
        y == 0 || y == 7 || y == 56 || y == 63,
    ensures
        !member(between(king, x), y),
{
    lemma_between(king, x, y);
}

/// The square two ranks from a king and one file aside lies on no line of the king.
proof fn lemma_off_line(king: int, x: int, t: int, v: int)
    requires
        0 <= king < 64,
        0 <= x < 64,
        0 <= t < 64,
        0 <= v < 64,
        t - king == 7 || t - king == 9 || king - t == 7 || king - t == 9,
        t / 8 != king / 8,
        v - t == t / 8 * 8 - king / 8 * 8,
    ensures
        !member(between(king, x), v),
{
    lemma_between(king, x, v);
}

/// After a move, at most two pieces attack the king of the side that has
/// not moved, if none attacked it before.
pub proof fn lemma_two_attackers(pos: Position, m: ChessMove)
    requires
        valid(pos),
        applicable(pos, m),
        threats(pos, pos.side.flip()) == 0,
    ensures
        popcount(threats(apply(pos, m), pos.side.flip())) <= 2,
{
    let next = apply(pos, m);
    let side = pos.side;
    let enemy = side.flip();
    lemma_king_stays(pos, m);
    let king = pos.king_idx(enemy);
    let occ2 = next.occ();
    let found = threats(next, enemy);
    let s = m.source_idx();
    let t = m.target_idx();
    let by_source = choose|x: int| member(found, x) && opened(occ2, king, s, x);
    match m.kind() {
        MoveType::EnPassant => {
            assert(ep_ok(pos));
            crate::bits::lemma_single(t);
            let v = ep_victim(side, t);
            let by_victim = choose|x: int| member(found, x) && opened(occ2, king, v, x);
            if member(found, t) {
                assert forall|x: int| member(found, x) implies x == t || x == by_source by {
                    if x != t {
                        lemma_fresh(pos, m, x);
                        let y = choose|y: int| leaves(pos, m, y) && opened(occ2, king, y, x);
                        lemma_attacker_is_pawn(pos, m);
                        lemma_off_line(king, x, t, v);
                        lemma_opened_once(occ2, king, s, x, by_source);
                    }
                }
                lemma_popcount_two(found, t, by_source);
            } else {
                assert forall|x: int| member(found, x) implies x == by_victim || x == by_source by {
                    lemma_fresh(pos, m, x);
                    let y = choose|y: int| leaves(pos, m, y) && opened(occ2, king, y, x);
                    if y == s {
                        lemma_opened_once(occ2, king, s, x, by_source);
                    } else {
                        lemma_opened_once(occ2, king, v, x, by_victim);
                    }
                }
                lemma_popcount_two(found, by_victim, by_source);
            }
        },
        MoveType::Castle(c) => {
            let rook = rook_target(c);
            assert forall|x: int| member(found, x) implies x == rook || x == by_source by {
                lemma_not_king(pos, m, x);
                if x != rook {
                    lemma_fresh(pos, m, x);
                    let y = choose|y: int| leaves(pos, m, y) && opened(occ2, king, y, x);
                    lemma_corner(king, x, rook_home(c));
                    lemma_opened_once(occ2, king, s, x, by_source);
                }
            }
            lemma_popcount_two(found, rook, by_source);
        },
        _ => {
            assert forall|x: int| member(found, x) implies x == t || x == by_source by {
                if x != t {
                    lemma_fresh(pos, m, x);
                    let y = choose|y: int| leaves(pos, m, y) && opened(occ2, king, y, x);
                    lemma_opened_once(occ2, king, s, x, by_source);
                }
            }
            lemma_popcount_two(found, t, by_source);
        },
    }
}

/// The piece that has landed on the target of an en-passant capture and
/// attacks the king is a pawn that attacks it.
proof fn lemma_attacker_is_pawn(pos: Position, m: ChessMove)
    requires
        valid(pos),
        applicable(pos, m),
        m.kind() is EnPassant,
        member(threats(apply(pos, m), pos.side.flip()), m.target_idx()),
    ensures
        ({
            let king = pos.king_idx(pos.side.flip());
            let t = m.target_idx();
            &&& t - king == 7 || t - king == 9 || king - t == 7 || king - t == 9
            &&& t / 8 != king / 8
            &&& ep_victim(pos.side, t) - t == t / 8 * 8 - king / 8 * 8
            &&& 0 <= ep_victim(pos.side, t) < 64
        }),
{
    let next = apply(pos, m);
    let side = pos.side;
    let enemy = side.flip();
    lemma_king_stays(pos, m);
    let king = pos.king_idx(enemy);
    let occ2 = next.occ();
    let x = m.target_idx();
    assert(ep_ok(pos));
    crate::bits::lemma_single(x);
    let nw = next.pieces(ChessPiece(side, PieceType::Pawn));
    let nn = next.pieces(ChessPiece(side, PieceType::Knight));
    let nb = next.pieces(ChessPiece(side, PieceType::Bishop));
    let nr = next.pieces(ChessPiece(side, PieceType::Rook));
    let nq = next.pieces(ChessPiece(side, PieceType::Queen));
    lemma_member_or(
        (pawn_attacks(enemy, king) & nw) | (knight_attacks(king) & nn),
        (bishop_attacks(king, occ2) & (nq | nb)) | (rook_attacks(king, occ2) & (nq | nr)),
        x,
    );
    lemma_member_or(pawn_attacks(enemy, king) & nw, knight_attacks(king) & nn, x);
    lemma_member_or(bishop_attacks(king, occ2) & (nq | nb), rook_attacks(king, occ2) & (nq | nr), x);
    lemma_member_and(pawn_attacks(enemy, king), nw, x);
    lemma_member_and(knight_attacks(king), nn, x);
    lemma_member_and(bishop_attacks(king, occ2), nq | nb, x);
    lemma_member_and(rook_attacks(king, occ2), nq | nr, x);
    lemma_member_or(nq, nb, x);
    lemma_member_or(nq, nr, x);
    lemma_occ_member(next.board, ChessPiece(side, PieceType::Pawn), x);
    lemma_occ_member(next.board, ChessPiece(side, PieceType::Knight), x);
    lemma_occ_member(next.board, ChessPiece(side, PieceType::Bishop), x);
    lemma_occ_member(next.board, ChessPiece(side, PieceType::Rook), x);
    lemma_occ_member(next.board, ChessPiece(side, PieceType::Queen), x);
    assert(next.board[x] == pos.board[m.source_idx()]);
    lemma_pawn_attacks(enemy, king, x);
}

/// No king is among the pieces that attack the king after a castle.
proof fn lemma_not_king(pos: Position, m: ChessMove, x: int)
    requires
        valid(pos),
        applicable(pos, m),
        m.kind() is Castle,
        member(threats(apply(pos, m), pos.side.flip()), x),
    ensures
        x != m.target_idx(),
{
    let next = apply(pos, m);
    let side = pos.side;
    let enemy = side.flip();
    lemma_king_stays(pos, m);
    let king = pos.king_idx(enemy);
    let occ2 = next.occ();
    let nw = next.pieces(ChessPiece(side, PieceType::Pawn));
    let nn = next.pieces(ChessPiece(side, PieceType::Knight));
    let nb = next.pieces(ChessPiece(side, PieceType::Bishop));
    let nr = next.pieces(ChessPiece(side, PieceType::Rook));
    let nq = next.pieces(ChessPiece(side, PieceType::Queen));
    lemma_member_zero(x);
    lemma_member_or(
        (pawn_attacks(enemy, king) & nw) | (knight_attacks(king) & nn),
        (bishop_attacks(king, occ2) & (nq | nb)) | (rook_attacks(king, occ2) & (nq | nr)),
        x,
    );
    lemma_member_or(pawn_attacks(enemy, king) & nw, knight_attacks(king) & nn, x);
    lemma_member_or(bishop_attacks(king, occ2) & (nq | nb), rook_attacks(king, occ2) & (nq | nr), x);
    lemma_member_and(pawn_attacks(enemy, king), nw, x);
    lemma_member_and(knight_attacks(king), nn, x);
    lemma_member_and(bishop_attacks(king, occ2), nq | nb, x);
    lemma_member_and(rook_attacks(king, occ2), nq | nr, x);
    lemma_member_or(nq, nb, x);
    lemma_member_or(nq, nr, x);
    lemma_occ_member(next.board, ChessPiece(side, PieceType::Pawn), x);
    lemma_occ_member(next.board, ChessPiece(side, PieceType::Knight), x);
    lemma_occ_member(next.board, ChessPiece(side, PieceType::Bishop), x);
    lemma_occ_member(next.board, ChessPiece(side, PieceType::Rook), x);
    lemma_occ_member(next.board, ChessPiece(side, PieceType::Queen), x);
    lemma_moved(pos, m, x);
}

/// After a move that can be made in a valid position in which the side that
/// has moved before is not in check, at most two pieces give check.
pub proof fn lemma_two_checkers(pos: Position, m: ChessMove)
    requires
        valid(pos),
        applicable(pos, m),
        !in_check(pos, pos.side.flip()),
    ensures
        popcount(check_state(apply(pos, m)).checkers) <= 2,
{
    lemma_attacked_threats(pos, pos.side.flip());
    lemma_two_attackers(pos, m);
    lemma_apply_valid(pos, m);
    lemma_checkers(apply(pos, m));
}

} // verus!
