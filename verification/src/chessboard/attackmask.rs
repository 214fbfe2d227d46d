//! The squares that one side attacks, found for all squares at once.

use vstd::prelude::*;
use crate::attack::init::{
    bishop_attacks, in_range, king_attacks, knight_attacks, pawn_attacks, queen_attacks,
    rook_attacks, step,
};
use crate::attack::{
    forward, get_bishop_attack, get_king_attack, get_knight_attack, get_queen_attack,
    get_rook_attack, AttackTables,
};
use crate::bitboard::{Bitboard, NOT_FILE_A, NOT_FILE_H};
use crate::bits::{
    lemma_drop_lowest, lemma_ext, lemma_lowest, lemma_member_and, lemma_member_nonzero,
    lemma_member_or, lemma_member_single, lemma_member_zero, lowest, member, single,
};
use crate::chessboard::checks::{lemma_between_sym, lemma_slider_reaches};
use crate::chessboard::ep_listed::lemma_pawn_attack_back;

use crate::chessboard::{attacked, ChessBoard};
use crate::chesspiece::{ChessPiece, PieceType, Side};
use crate::square::{col_of, row_of};

verus! {

/// The squares that a piece of side `by` and kind `kind` on square `x`
/// attacks when the squares of `occ` are occupied.
pub open spec fn seen(by: Side, kind: PieceType, x: int, occ: u64) -> u64 {
    match kind {
        PieceType::Pawn => pawn_attacks(by, x),
        PieceType::Knight => knight_attacks(x),
        PieceType::Bishop => bishop_attacks(x, occ),
        PieceType::Rook => rook_attacks(x, occ),
        PieceType::Queen => queen_attacks(x, occ),
        PieceType::King => king_attacks(x),
    }
}

/// A one-step target is reached exactly from the square that lies the
/// step's ranks and files back.
proof fn lemma_step_back(s: int, dr: int, dc: int, t: int)
    requires
        0 <= s < 64,
        0 <= t < 64,
    ensures
        member(step(s, dr, dc), t) == (row_of(t) == row_of(s) + dr && col_of(t) == col_of(s) + dc),
        member(step(s, dr, dc), t) == member(step(t, -dr, -dc), s),
{
    lemma_member_zero(t);
    lemma_member_zero(s);
    if in_range(row_of(s) + dr, col_of(s) + dc) {
        lemma_member_single((row_of(s) + dr) * 8 + col_of(s) + dc, t);
    }
    if in_range(row_of(t) - dr, col_of(t) - dc) {
        lemma_member_single((row_of(t) - dr) * 8 + col_of(t) - dc, s);
    }
}

/// A knight attacks a square exactly from the squares that a knight on that
/// square attacks, and so does a king.
pub proof fn lemma_leaper_back(x: int, sq: int)
    requires
        0 <= x < 64,
        0 <= sq < 64,
    ensures
        member(knight_attacks(x), sq) == member(knight_attacks(sq), x),
        member(king_attacks(x), sq) == member(king_attacks(sq), x),
{
    lemma_step_back(x, 2, 1, sq);
    lemma_step_back(x, 2, -1, sq);
    lemma_step_back(x, 1, 2, sq);
    lemma_step_back(x, 1, -2, sq);
    lemma_step_back(x, -1, 2, sq);
    lemma_step_back(x, -1, -2, sq);
    lemma_step_back(x, -2, 1, sq);
    lemma_step_back(x, -2, -1, sq);
    let n1 = 0 | step(x, 2, 1);
    let n2 = n1 | step(x, 2, -1);
    let n3 = n2 | step(x, 1, 2);
    let n4 = n3 | step(x, 1, -2);
    let n5 = n4 | step(x, -1, 2);
    let n6 = n5 | step(x, -1, -2);
    let n7 = n6 | step(x, -2, 1);
    lemma_member_zero(sq);
    lemma_member_zero(x);
    lemma_member_or(0, step(x, 2, 1), sq);
    lemma_member_or(n1, step(x, 2, -1), sq);
    lemma_member_or(n2, step(x, 1, 2), sq);
    lemma_member_or(n3, step(x, 1, -2), sq);
    lemma_member_or(n4, step(x, -1, 2), sq);
    lemma_member_or(n5, step(x, -1, -2), sq);
    lemma_member_or(n6, step(x, -2, 1), sq);
    lemma_member_or(n7, step(x, -2, -1), sq);
    let m1 = 0 | step(sq, 2, 1);
    let m2 = m1 | step(sq, 2, -1);
    let m3 = m2 | step(sq, 1, 2);
    let m4 = m3 | step(sq, 1, -2);
    let m5 = m4 | step(sq, -1, 2);
    let m6 = m5 | step(sq, -1, -2);
    let m7 = m6 | step(sq, -2, 1);
    lemma_member_or(0, step(sq, 2, 1), x);
    lemma_member_or(m1, step(sq, 2, -1), x);
    lemma_member_or(m2, step(sq, 1, 2), x);
    lemma_member_or(m3, step(sq, 1, -2), x);
    lemma_member_or(m4, step(sq, -1, 2), x);
    lemma_member_or(m5, step(sq, -1, -2), x);
    lemma_member_or(m6, step(sq, -2, 1), x);
    lemma_member_or(m7, step(sq, -2, -1), x);
    lemma_step_back(x, 1, 0, sq);
    lemma_step_back(x, -1, 0, sq);
    lemma_step_back(x, 0, -1, sq);
    lemma_step_back(x, 0, 1, sq);
    lemma_step_back(x, 1, -1, sq);
    lemma_step_back(x, 1, 1, sq);
    lemma_step_back(x, -1, -1, sq);
    lemma_step_back(x, -1, 1, sq);
    let k1 = 0 | step(x, 1, 0);
    let k2 = k1 | step(x, -1, 0);
    let k3 = k2 | step(x, 0, -1);
    let k4 = k3 | step(x, 0, 1);
    let k5 = k4 | step(x, 1, -1);
    let k6 = k5 | step(x, 1, 1);
    let k7 = k6 | step(x, -1, -1);
    lemma_member_or(0, step(x, 1, 0), sq);
    lemma_member_or(k1, step(x, -1, 0), sq);
    lemma_member_or(k2, step(x, 0, -1), sq);
    lemma_member_or(k3, step(x, 0, 1), sq);
    lemma_member_or(k4, step(x, 1, -1), sq);
    lemma_member_or(k5, step(x, 1, 1), sq);
    lemma_member_or(k6, step(x, -1, -1), sq);
    lemma_member_or(k7, step(x, -1, 1), sq);
    let j1 = 0 | step(sq, 1, 0);
    let j2 = j1 | step(sq, -1, 0);
    let j3 = j2 | step(sq, 0, -1);
    let j4 = j3 | step(sq, 0, 1);
    let j5 = j4 | step(sq, 1, -1);
    let j6 = j5 | step(sq, 1, 1);
    let j7 = j6 | step(sq, -1, -1);
    lemma_member_or(0, step(sq, 1, 0), x);
    lemma_member_or(j1, step(sq, -1, 0), x);
    lemma_member_or(j2, step(sq, 0, -1), x);
    lemma_member_or(j3, step(sq, 0, 1), x);
    lemma_member_or(j4, step(sq, 1, -1), x);
    lemma_member_or(j5, step(sq, 1, 1), x);
    lemma_member_or(j6, step(sq, -1, -1), x);
    lemma_member_or(j7, step(sq, -1, 1), x);
}

/// A piece on one square attacks another exactly if a piece of the same
/// kind and of the other side on that square would attack the first.
pub proof fn lemma_seen_back(by: Side, kind: PieceType, x: int, sq: int, occ: u64)
    requires
        0 <= x < 64,
        0 <= sq < 64,
    ensures
        member(seen(by, kind, x, occ), sq) == member(seen(by.flip(), kind, sq, occ), x),
{
    lemma_leaper_back(x, sq);
    lemma_slider_reaches(x, sq, occ);
    lemma_slider_reaches(sq, x, occ);
    lemma_between_sym(x, sq);
    lemma_member_or(bishop_attacks(x, occ), rook_attacks(x, occ), sq);
    lemma_member_or(bishop_attacks(sq, occ), rook_attacks(sq, occ), x);
    if member(pawn_attacks(by, x), sq) {
        lemma_pawn_attack_back(by, x, sq);
    }
    if member(pawn_attacks(by.flip(), sq), x) {
        lemma_pawn_attack_back(by.flip(), sq, x);
    }
}

/// Adding a square to a set makes another set meet it exactly if it met it
/// before or holds the square.
proof fn lemma_meets_more(s: u64, d: u64, x: int)
    requires
        0 <= x < 64,
    ensures
        (s & (d | single(x)) != 0) == (s & d != 0 || member(s, x)),
{
    let wide = s & (d | single(x));
    if wide != 0 {
        lemma_lowest(wide);
        let y = lowest(wide);
        lemma_member_and(s, d | single(x), y);
        lemma_member_or(d, single(x), y);
        lemma_member_single(x, y);
        lemma_member_and(s, d, y);
        if member(d, y) {
            lemma_member_nonzero(s & d, y);
        }
    }
    if s & d != 0 {
        lemma_lowest(s & d);
        let y = lowest(s & d);
        lemma_member_and(s, d, y);
        lemma_member_and(s, d | single(x), y);
        lemma_member_or(d, single(x), y);
        lemma_member_nonzero(wide, y);
    }
    if member(s, x) {
        lemma_member_and(s, d | single(x), x);
        lemma_member_or(d, single(x), x);
        lemma_member_single(x, x);
        lemma_member_nonzero(wide, x);
    }
}

/// Members moved nine or seven numbers up or down, without those that
/// would change sides of the board.
proof fn lemma_shifted(b: u64, k: int)
    requires
        0 <= k < 64,
    ensures
        member((b << 9) & NOT_FILE_A, k) == (k % 8 != 0 && member(b, k - 9)),
        member((b << 7) & NOT_FILE_H, k) == (k % 8 != 7 && member(b, k - 7)),
        member((b >> 9) & NOT_FILE_H, k) == (k % 8 != 7 && member(b, k + 9)),
        member((b >> 7) & NOT_FILE_A, k) == (k % 8 != 0 && member(b, k + 7)),
{
    let i = k as u64;
    assert((((b << 9) & 0xfefe_fefe_fefe_fefe) >> i) & 1 == 1 <==> (i % 8 != 0 && i >= 9 && (b >> (
    (i - 9) as u64)) & 1 == 1)) by (bit_vector)
        requires
            i < 64,
    ;
    assert((((b << 7) & 0x7f7f_7f7f_7f7f_7f7f) >> i) & 1 == 1 <==> (i % 8 != 7 && i >= 7 && (b >> (
    (i - 7) as u64)) & 1 == 1)) by (bit_vector)
        requires
            i < 64,
    ;
    assert((((b >> 9) & 0x7f7f_7f7f_7f7f_7f7f) >> i) & 1 == 1 <==> (i % 8 != 7 && i < 55 && (b >> (
    (i + 9) as u64)) & 1 == 1)) by (bit_vector)
        requires
            i < 64,
    ;
    assert((((b >> 7) & 0xfefe_fefe_fefe_fefe) >> i) & 1 == 1 <==> (i % 8 != 0 && i < 57 && (b >> (
    (i + 7) as u64)) & 1 == 1)) by (bit_vector)
        requires
            i < 64,
    ;
}

/// A set meets the squares from which a pawn attacks a square exactly if it
/// holds the square one rank back and one file to the left or to the right.
proof fn lemma_pawn_sources(side: Side, pawns: u64, sq: int)
    requires
        0 <= sq < 64,
    ensures
        (pawn_attacks(side.flip(), sq) & pawns != 0) == ((sq % 8 != 0 && member(
            pawns,
            sq - 8 * forward(side) - 1,
        )) || (sq % 8 != 7 && member(pawns, sq - 8 * forward(side) + 1))),
{
    let f = forward(side);
    let from = pawn_attacks(side.flip(), sq);
    let a = step(sq, -f, -1);
    let b = step(sq, -f, 1);
    let left = sq - 8 * f - 1;
    let right = sq - 8 * f + 1;
    assert forall|y: int| 0 <= y < 64 implies member(from, y) == ((sq % 8 != 0 && y == left) || (sq
        % 8 != 7 && y == right)) by {
        lemma_member_or(0 | a, b, y);
        lemma_member_or(0, a, y);
        lemma_member_zero(y);
        lemma_step_back(sq, -f, -1, y);
        lemma_step_back(sq, -f, 1, y);
    }
    if from & pawns != 0 {
        lemma_lowest(from & pawns);
        lemma_member_and(from, pawns, lowest(from & pawns));
    }
    if sq % 8 != 0 && member(pawns, left) {
        lemma_member_and(from, pawns, left);
        lemma_member_nonzero(from & pawns, left);
    }
    if sq % 8 != 7 && member(pawns, right) {
        lemma_member_and(from, pawns, right);
        lemma_member_nonzero(from & pawns, right);
    }
}

impl ChessBoard {
    /// The squares that the pawns of `side` attack.
    pub fn calculate_pawn_attack_mask(&self, side: Side) -> (r: Bitboard)
        requires
            self.wf(),
        ensures
            forall|sq: int|
                0 <= sq < 64 ==> #[trigger] member(r.0, sq) == (pawn_attacks(side.flip(), sq)
                    & self@.pieces(ChessPiece(side, PieceType::Pawn)) != 0),
    {
        let pawns = self.bitboards.piece_bitboard(ChessPiece(side, PieceType::Pawn)).0;
        let r = match side {
            Side::White => ((pawns << 9) & NOT_FILE_A) | ((pawns << 7) & NOT_FILE_H),
            Side::Black => ((pawns >> 9) & NOT_FILE_H) | ((pawns >> 7) & NOT_FILE_A),
        };
        proof {
            self.lemma_wf();
            assert forall|sq: int| 0 <= sq < 64 implies #[trigger] member(r, sq) == (pawn_attacks(
                side.flip(),
                sq,
            ) & pawns != 0) by {
                lemma_shifted(pawns, sq);
                lemma_pawn_sources(side, pawns, sq);
                lemma_member_or((pawns << 9) & NOT_FILE_A, (pawns << 7) & NOT_FILE_H, sq);
                lemma_member_or((pawns >> 9) & NOT_FILE_H, (pawns >> 7) & NOT_FILE_A, sq);
            }
        }
        Bitboard(r)
    }

    /// The pawns of the side to move that attack an enemy piece or the
    /// en-passant target.
    pub fn calculate_attacking_pawns(&self) -> (r: Bitboard)
        requires
            self.wf(),
        ensures
            forall|p: int|
                0 <= p < 64 ==> #[trigger] member(r.0, p) == (member(
                    self@.pieces(ChessPiece(self@.side, PieceType::Pawn)),
                    p,
                ) && pawn_attacks(self@.side, p) & (self@.side_occ(self@.side.flip()) | self@.ep)
                    != 0),
    {
        let side = self.data.side_to_move;
        let targets = self.bitboards.colour_blockers(side.update()).0 | self.data.enpassant_bb.0;
        let pawns = self.bitboards.piece_bitboard(ChessPiece(side, PieceType::Pawn)).0;
        let from = match side {
            Side::White => ((targets >> 9) & NOT_FILE_H) | ((targets >> 7) & NOT_FILE_A),
            Side::Black => ((targets << 9) & NOT_FILE_A) | ((targets << 7) & NOT_FILE_H),
        };
        proof {
            self.lemma_wf();
            assert forall|p: int| 0 <= p < 64 implies #[trigger] member(from & pawns, p) == (member(
                pawns,
                p,
            ) && pawn_attacks(side, p) & targets != 0) by {
                lemma_shifted(targets, p);
                lemma_pawn_sources(side.flip(), targets, p);
                lemma_member_or((targets << 9) & NOT_FILE_A, (targets << 7) & NOT_FILE_H, p);
                lemma_member_or((targets >> 9) & NOT_FILE_H, (targets >> 7) & NOT_FILE_A, p);
                lemma_member_and(from, pawns, p);
            }
        }
        Bitboard(from & pawns)
    }

    /// Adds to `mask` the squares that the pieces of kind `kind` on the
    /// squares of `attackers` attack when the squares of `blockers` are occupied.
    fn spread(
        t: &AttackTables,
        kind: PieceType,
        attackers: Bitboard,
        blockers: Bitboard,
        mask: Bitboard,
    ) -> (r: Bitboard)
        requires
            t.wf(),
            kind != PieceType::Pawn,
        ensures
            forall|sq: int|
                0 <= sq < 64 ==> #[trigger] member(r.0, sq) == (member(mask.0, sq) || seen(
                    Side::White,
                    kind,
                    sq,
                    blockers.0,
                ) & attackers.0 != 0),
    {
        let mut rest = attackers;
        let mut m = mask.0;
        let ghost mut done: u64 = 0;
        proof {
            assert forall|x: int| member(done, x) == (member(attackers.0, x) && !member(rest.0, x)) by {
                lemma_member_zero(x);
            }
            assert forall|sq: int| 0 <= sq < 64 implies seen(Side::White, kind, sq, blockers.0)
                & 0 == 0 by {
                crate::bits::lemma_and_zero(seen(Side::White, kind, sq, blockers.0));
            }
        }
        while rest.0 != 0
            invariant
                t.wf(),
                kind != PieceType::Pawn,
                forall|x: int| member(done, x) == (member(attackers.0, x) && !member(rest.0, x)),
                forall|x: int| member(rest.0, x) ==> member(attackers.0, x),
                forall|sq: int|
                    0 <= sq < 64 ==> #[trigger] member(m, sq) == (member(mask.0, sq) || seen(
                        Side::White,
                        kind,
                        sq,
                        blockers.0,
                    ) & done != 0),
            decreases rest.0,
        {
            proof {
                lemma_lowest(rest.0);
                lemma_drop_lowest(rest.0);
            }
            let from = match rest.lsb_square() {
                Some(x) => x,
                None => vstd::pervasive::unreached(),
            };
            let a = match kind {
                PieceType::Knight => get_knight_attack(t, from),
                PieceType::Bishop => get_bishop_attack(t, from, blockers),
                PieceType::Rook => get_rook_attack(t, from, blockers),
                PieceType::Queen => get_queen_attack(t, from, blockers),
                _ => get_king_attack(t, from),
            };
            let ghost x = from.idx();
            let ghost before = m;
            let ghost seen_before = done;
            let ghost left = rest.0;
            m = m | a.0;
            rest.pop_lsb();
            proof {
                done = done | single(x);
                assert forall|y: int| member(done, y) == (member(attackers.0, y) && !member(
                    rest.0,
                    y,
                )) by {
                    lemma_member_or(seen_before, single(x), y);
                    lemma_member_single(x, y);
                    assert(member(rest.0, y) == (member(left, y) && y != x));
                }
                assert forall|sq: int| 0 <= sq < 64 implies #[trigger] member(m, sq) == (member(
                    mask.0,
                    sq,
                ) || seen(Side::White, kind, sq, blockers.0) & done != 0) by {
                    lemma_member_or(before, a.0, sq);
                    lemma_seen_back(Side::White, kind, x, sq, blockers.0);
                    lemma_meets_more(seen(Side::White, kind, sq, blockers.0), seen_before, x);
                }
            }
        }
        proof {
            assert forall|y: int| 0 <= y < 64 implies member(done, y) == member(attackers.0, y) by {
                lemma_member_zero(y);
            }
            lemma_ext(done, attackers.0);
        }
        Bitboard(m)
    }

    /// The squares that the enemy of the side to move attacks when the
    /// squares of `blockers` are occupied.
    pub fn calculate_attacked_mask(&self, t: &AttackTables, blockers: Bitboard) -> (r: Bitboard)
        requires
            self.wf(),
            t.wf(),
        ensures
            forall|sq: int|
                0 <= sq < 64 ==> #[trigger] member(r.0, sq) == attacked(
                    self@,
                    sq,
                    self@.side.flip(),
                    blockers.0,
                ),
    {
        let enemy = self.data.side_to_move.update();
        proof {
            self.lemma_wf();
        }
        let m0 = self.calculate_pawn_attack_mask(enemy);
        let m1 = Self::spread(
            t,
            PieceType::Knight,
            self.bitboards.piece_bitboard(ChessPiece(enemy, PieceType::Knight)),
            blockers,
            m0,
        );
        let m2 = Self::spread(
            t,
            PieceType::Bishop,
            self.bitboards.piece_bitboard(ChessPiece(enemy, PieceType::Bishop)),
            blockers,
            m1,
        );
        let m3 = Self::spread(
            t,
            PieceType::Rook,
            self.bitboards.piece_bitboard(ChessPiece(enemy, PieceType::Rook)),
            blockers,
            m2,
        );
        let m4 = Self::spread(
            t,
            PieceType::Queen,
            self.bitboards.piece_bitboard(ChessPiece(enemy, PieceType::Queen)),
            blockers,
            m3,
        );
        let m5 = Self::spread(
            t,
            PieceType::King,
            self.bitboards.piece_bitboard(ChessPiece(enemy, PieceType::King)),
            blockers,
            m4,
        );
        assert forall|sq: int| 0 <= sq < 64 implies #[trigger] member(m5.0, sq) == attacked(
            self@,
            sq,
            self@.side.flip(),
            blockers.0,
        ) by {
            assert(member(m0.0, sq) == (pawn_attacks(enemy.flip(), sq) & self@.pieces(
                ChessPiece(enemy, PieceType::Pawn),
            ) != 0));
            assert(member(m1.0, sq) == (member(m0.0, sq) || seen(
                Side::White,
                PieceType::Knight,
                sq,
                blockers.0,
            ) & self@.pieces(ChessPiece(enemy, PieceType::Knight)) != 0));
            assert(member(m2.0, sq) == (member(m1.0, sq) || seen(
                Side::White,
                PieceType::Bishop,
                sq,
                blockers.0,
            ) & self@.pieces(ChessPiece(enemy, PieceType::Bishop)) != 0));
            assert(member(m3.0, sq) == (member(m2.0, sq) || seen(
                Side::White,
                PieceType::Rook,
                sq,
                blockers.0,
            ) & self@.pieces(ChessPiece(enemy, PieceType::Rook)) != 0));
            assert(member(m4.0, sq) == (member(m3.0, sq) || seen(
                Side::White,
                PieceType::Queen,
                sq,
                blockers.0,
            ) & self@.pieces(ChessPiece(enemy, PieceType::Queen)) != 0));
        }
        m5
    }
}

} // verus!
