//! A move of a piece along the line through the king and itself leaves the
//! king unattacked.

use vstd::prelude::*;
use crate::attack::init::{bishop_attacks, pawn_attacks, ray_attacks, rook_attacks};
use crate::attack::{between, forward, line_dir, long_line, pawn_pushes};
use crate::bits::{
    lemma_and_zero, lemma_is_single, lemma_lowest, lemma_member_and, lemma_member_or,
    lemma_member_single, lemma_member_zero, lowest, member, single,
};
use crate::chessboard::check::{check_state, raw_check_state};
use crate::chessboard::checks::{lemma_ray_reaches, lemma_slider_reaches, threats};
use crate::chessboard::laws::{lemma_pawn_attacks, lemma_pawn_pushes};
use crate::chessboard::movegen::{reach, target_mask};
use crate::chessboard::pins::{along, inside, lemma_between, on_line};
use crate::chessboard::position::{lemma_occ_member, Position};
use crate::chessboard::soundness::{lemma_attacker_after, lemma_target};
use crate::chessboard::updatestate::{apply, double_push};
use crate::chessboard::valid;
use crate::chessmove::{make, valid_kind, MoveType};
use crate::chesspiece::{ChessPiece, PieceType};
use crate::square::{col_of, row_of, Square};

verus! {

/// Whether square `x` lies on the line through square `i` in direction `d`.
pub open spec fn on_dir(i: int, x: int, d: (int, int)) -> bool {
    on_line(i, x, d.0, d.1)
}

/// The whole line through two squares holds the squares that lie on it in
/// the direction from the first to the second, or against it.
pub proof fn lemma_long_line(i: int, j: int, y: int)
    requires
        0 <= i < 64,
        0 <= j < 64,
        0 <= y < 64,
        line_dir(i, j) is Some,
    ensures
        member(long_line(i, j), y) == on_dir(i, y, line_dir(i, j)->0),
{
    let d = line_dir(i, j)->0;
    let a = ray_attacks(i, d.0, d.1, 0);
    let b = ray_attacks(i, -d.0, -d.1, 0);
    lemma_member_or(single(i) | a, b, y);
    lemma_member_or(single(i), a, y);
    lemma_member_single(i, y);
    lemma_ray_reaches(i, y, d.0, d.1, 0);
    lemma_ray_reaches(i, y, -d.0, -d.1, 0);
    lemma_and_zero(between(i, y));
}

/// Whether square `t` lies on the line through `king` and `x`, and square
/// `s` between the two.
pub open spec fn in_line(king: int, x: int, s: int, t: int) -> bool {
    &&& 0 <= king < 64 && 0 <= x < 64 && 0 <= s < 64 && 0 <= t < 64
    &&& line_dir(king, x) is Some
    &&& inside(king, x, s)
    &&& on_dir(king, t, line_dir(king, x)->0)
}

/// Whether square `t` lies on the line through `king` and `x` but neither
/// between them nor on one of them, while square `s` lies between them.
pub open spec fn outside(king: int, x: int, s: int, t: int) -> bool {
    &&& in_line(king, x, s, t)
    &&& !inside(king, x, t)
    &&& t != king
    &&& t != x
}

/// A square next to a square between two others, on their line, lies between
/// them or is one of them.
pub proof fn lemma_next_on_line(king: int, x: int, s: int, t: int)
    requires
        in_line(king, x, s, t),
        -1 <= row_of(t) - row_of(s) <= 1,
        -1 <= col_of(t) - col_of(s) <= 1,
    ensures
        !outside(king, x, s, t),
{
}

/// Two ranks from a square between two others, on their line, lies a square
/// outside only if the square one rank away is one of the two.
proof fn lemma_second_on_line(king: int, x: int, s: int, t: int, f: int)
    requires
        outside(king, x, s, t),
        f == 1 || f == -1,
        t == s + 16 * f,
    ensures
        s + 8 * f == king || s + 8 * f == x,
{
}

/// On the way from a square between two others to a square outside, on
/// their line, lies one of the two.
proof fn lemma_crossing(king: int, x: int, s: int, t: int)
    requires
        outside(king, x, s, t),
        line_dir(s, t) is Some,
    ensures
        inside(s, t, king) || inside(s, t, x),
{
}

/// The attacker of the king after a move along the line through the king and
/// the mover stands on that line, with the mover between the two and the
/// target outside.
proof fn lemma_line_attacker(pos: Position, piece: PieceType, s: int, t: int, kind: MoveType, x: int)
    requires
        valid(pos),
        check_state(pos).checkers == 0,
        0 <= s < 64,
        pos.board[s] == Some(ChessPiece(pos.side, piece)),
        piece != PieceType::King,
        member(target_mask(pos, check_state(pos)), t),
        member(long_line(pos.king_idx(pos.side), s), t),
        kind is Normal || kind is Promotion,
        valid_kind(kind),
        member(threats(apply(pos, make(Square::of(s), Square::of(t), kind)), pos.side), x),
    ensures
        outside(pos.king_idx(pos.side), x, s, t),
        pos.board[x] is Some,
        pos.board[pos.king_idx(pos.side)] is Some,
{
    let side = pos.side;
    let own_king = ChessPiece(side, PieceType::King);
    let king_bb = pos.pieces(own_king);
    lemma_is_single(king_bb);
    let king = pos.king_idx(side);
    lemma_occ_member(pos.board, own_king, king);
    lemma_member_single(king, king);
    let occ = pos.occ();
    lemma_target(pos, t);
    lemma_attacker_after(pos, s, t, kind, x);
    lemma_member_zero(x);
    assert(raw_check_state(pos).checkers == 0);
    let ray = between(king, x);
    lemma_member_single(s, s);
    lemma_member_and(ray, occ, s);
    lemma_between(king, x, s);
    lemma_between(king, x, t);
    assert(inside(king, x, s));
    assert(line_dir(king, s) == line_dir(king, x));
    lemma_long_line(king, s, t);
    pos.lemma_occ(x);
}

/// After a normal move or a promotion of a pawn, a bishop, a rook or a queen
/// along the line through the king and itself, to a square of the target
/// mask that the piece reaches, no enemy pawn, knight, bishop, rook or queen
/// attacks the mover's king, provided that no piece gave check before.
#[verifier::rlimit(30)]
pub proof fn lemma_line_move_safe(pos: Position, piece: PieceType, s: int, t: int, kind: MoveType)
    requires
        valid(pos),
        check_state(pos).checkers == 0,
        0 <= s < 64,
        pos.board[s] == Some(ChessPiece(pos.side, piece)),
        piece != PieceType::King,
        piece != PieceType::Knight,
        member(
            reach(pos, piece, s) & (target_mask(pos, check_state(pos)) & long_line(
                pos.king_idx(pos.side),
                s,
            )),
            t,
        ),
        kind is Normal || kind is Promotion,
        valid_kind(kind),
    ensures
        threats(apply(pos, make(Square::of(s), Square::of(t), kind)), pos.side) == 0,
{
    let side = pos.side;
    let cs = check_state(pos);
    let king = pos.king_idx(side);
    let occ = pos.occ();
    let line = long_line(king, s);
    lemma_member_and(reach(pos, piece, s), target_mask(pos, cs) & line, t);
    lemma_member_and(target_mask(pos, cs), line, t);
    let next = apply(pos, make(Square::of(s), Square::of(t), kind));
    let th = threats(next, side);
    if th != 0 {
        lemma_lowest(th);
        let x = lowest(th);
        lemma_line_attacker(pos, piece, s, t, kind, x);
        pos.lemma_occ(king);
        pos.lemma_occ(x);
        if piece == PieceType::Pawn {
            let f = forward(side);
            let pushes = pawn_pushes(side, s, occ);
            let takes = pawn_attacks(side, s) & pos.side_occ(side.flip());
            lemma_member_or(pushes, takes, t);
            if member(takes, t) {
                lemma_member_and(pawn_attacks(side, s), pos.side_occ(side.flip()), t);
                lemma_pawn_attacks(side, s, t);
                lemma_next_on_line(king, x, s, t);
            } else {
                lemma_pawn_pushes(pos, s, t);
                if t == s + 8 * f {
                    lemma_next_on_line(king, x, s, t);
                } else {
                    lemma_second_on_line(king, x, s, t, f);
                    assert(double_push(pos, s, t));
                    assert(pos.board[s + 8 * f] is None);
                    assert(false);
                }
            }
        } else {
            lemma_slider_reaches(s, t, occ);
            lemma_member_or(bishop_attacks(s, occ), rook_attacks(s, occ), t);
            lemma_crossing(king, x, s, t);
            lemma_between(s, t, king);
            lemma_between(s, t, x);
            lemma_member_and(between(s, t), occ, king);
            lemma_member_and(between(s, t), occ, x);
            lemma_member_zero(king);
            lemma_member_zero(x);
            assert(false);
        }
    }
}

} // verus!
