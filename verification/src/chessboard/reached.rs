//! What holds of the positions that play reaches.

use vstd::prelude::*;
use crate::attack::init::{
    bishop_attacks, king_attacks, knight_attacks, pawn_attacks, queen_attacks, rook_attacks,
};
use crate::attack::{between, forward, get_king_attack, line_dir, rays, AttackTables};
use crate::bits::{
    lemma_drop_lowest, lemma_ext, lemma_is_single, lemma_lowest, lemma_member_and,
    lemma_member_nonzero, lemma_member_or, lemma_member_single, lemma_member_zero, lemma_single,
    lowest, member, popcount,
};
use crate::chessboard::attackmask::lemma_leaper_back;
use crate::chessboard::check::{check_state, leaper_checkers};
use crate::chessboard::checks::{lemma_checkers, lemma_slider_reaches};
use crate::chessboard::complete::{lemma_listed_legal, regular};
use crate::chessboard::ep_listed::ep_plain;
use crate::chessboard::exposed::lemma_checker;
use crate::chessboard::laws::{
    lemma_king_attacks, lemma_knight_attacks, lemma_legal_good, lemma_pawn_attacks,
};
use crate::chessboard::ep_safe::ep_shielded;
use crate::chessboard::legality::lemma_attacked_threats;
use crate::chessboard::movegen::legal_moves;
use crate::chessboard::pins::{along, inside, lemma_between, on_line};
use crate::chessboard::position::{lemma_occ_member, Position};
use crate::chessboard::rules::{in_check, kings_apart};
use crate::chessboard::soundness::lemma_after_move;
use crate::chessboard::start::{lemma_start_valid, start_position};
use crate::chessboard::twofold::lemma_two_checkers;
use crate::chessboard::updatestate::{
    applicable, apply, ep_takable, ep_victim, lemma_apply_valid, marked,
};
use crate::chessboard::{ep_ok, king_home, valid, ChessBoard};
use crate::chessmove::{make, ChessMove, MoveType};
use crate::chesspiece::{ChessPiece, PieceType, Side};
use crate::square::{col_of, row_of, Square};

verus! {

/// Whether the position is valid, the kings do not stand next to each
/// other, the side that has moved is not in check, at most two pieces give
/// check, and the en-passant target, if there is one, lies between the king
/// and no piece that gives check, behind a pawn that is not the king's only
/// shield on a diagonal.
pub open spec fn orderly(pos: Position) -> bool {
    &&& valid(pos)
    &&& kings_apart(pos)
    &&& !in_check(pos, pos.side.flip())
    &&& popcount(check_state(pos).checkers) <= 2
    &&& ep_plain(pos)
    &&& ep_shielded(pos)
}

/// After a move the pawn that can be taken en passant, if there is one, is
/// not the king's only shield on a diagonal: the target is set only where
/// a pawn can take without leaving its king attacked.
pub proof fn lemma_ep_shielded_next(pos: Position, m: ChessMove)
    ensures
        ep_shielded(apply(pos, m)),
{
    let next = apply(pos, m);
    if next.ep != 0 {
        assert(ep_takable(marked(pos, m)));
        assert(next == marked(pos, m));
    }
}

/// After a move that does not leave the mover's king attacked, the kings do
/// not stand next to each other.
proof fn lemma_kings_apart_next(pos: Position, m: ChessMove)
    requires
        valid(apply(pos, m)),
        !in_check(apply(pos, m), pos.side),
    ensures
        kings_apart(apply(pos, m)),
{
    let next = apply(pos, m);
    let side = pos.side;
    let enemy = side.flip();
    let own = next.pieces(ChessPiece(side, PieceType::King));
    let other = next.pieces(ChessPiece(enemy, PieceType::King));
    lemma_is_single(own);
    lemma_is_single(other);
    let k = next.king_idx(side);
    let e = next.king_idx(enemy);
    let near = king_attacks(e) & own;
    if near != 0 {
        lemma_lowest(near);
        let y = lowest(near);
        lemma_member_and(king_attacks(e), own, y);
        lemma_member_single(k, y);
        lemma_leaper_back(e, k);
        lemma_member_single(e, e);
        lemma_member_and(king_attacks(k), other, e);
        lemma_member_nonzero(king_attacks(k) & other, e);
    }
}

/// The square that a pawn has passed in an advance of two ranks along a
/// line of squares lies next to the square on which the pawn has landed: if
/// the squares between two squares hold the passed square and the pawn's
/// source but not its target, the target is one of the two.
#[verifier::rlimit(40)]
proof fn lemma_passed(king: int, c: int, s: int, f: int)
    requires
        0 <= king < 64,
        0 <= c < 64,
        f == 1 || f == -1,
        0 <= s < 64,
        0 <= s + 16 * f < 64,
        inside(king, c, s),
        inside(king, c, s + 8 * f),
        !inside(king, c, s + 16 * f),
    ensures
        s + 16 * f == king || s + 16 * f == c,
{
    let d = line_dir(king, c)->0;
    let e = s + 8 * f;
    let t = s + 16 * f;
    let n = along(king, c, d.0, d.1);
    let a = along(king, e, d.0, d.1);
    assert(col_of(e) == col_of(s) && col_of(t) == col_of(s));
    assert(row_of(e) == row_of(s) + f && row_of(t) == row_of(s) + 2 * f);
    assert(d.1 == 0);
    assert(col_of(s) == col_of(king) && col_of(c) == col_of(king));
    let b = along(king, t, d.0, d.1);
    assert(b == a + 1 || b == a - 1);
    assert(on_line(king, t, d.0, d.1));
    if b == 0 {
        assert(row_of(t) == row_of(king));
        assert(t == king);
    } else if b == n {
        assert(row_of(t) == row_of(c));
        assert(t == c);
    } else {
        assert(inside(king, c, t));
    }
}

/// After a pawn's advance of two ranks, the square that it has passed lies
/// between the other king and no piece that gives check, if that king was
/// not in check before.
proof fn lemma_ep_line_closed(pos: Position, m: ChessMove, c: int)
    requires
        valid(pos),
        applicable(pos, m),
        m == make(Square::of(m.source_idx()), Square::of(m.target_idx()), m.kind()),
        !in_check(pos, pos.side.flip()),
        valid(apply(pos, m)),
        apply(pos, m).ep != 0,
        member(check_state(apply(pos, m)).checkers, c),
    ensures
        !member(
            between(apply(pos, m).king_idx(pos.side.flip()), c),
            ep_victim(pos.side, m.target_idx()),
        ),
{
    let next = apply(pos, m);
    let side = pos.side;
    let enemy = side.flip();
    let s = m.source_idx();
    let t = m.target_idx();
    let f = forward(side);
    let e = ep_victim(side, t);
    let king_bb = next.pieces(ChessPiece(enemy, PieceType::King));
    lemma_is_single(king_bb);
    let king = next.king_idx(enemy);
    lemma_checker(next, c);
    lemma_between(king, c, e);
    lemma_between(king, c, s);
    lemma_between(king, c, t);
    lemma_after_move(pos, s, t, MoveType::Normal);
    assert(next.board == pos.board.update(s, None).update(t, pos.board[s]));
    let before = pos.pieces(ChessPiece(enemy, PieceType::King));
    lemma_is_single(before);
    lemma_occ_member(pos.board, ChessPiece(enemy, PieceType::King), king);
    lemma_occ_member(next.board, ChessPiece(enemy, PieceType::King), king);
    lemma_member_single(king, king);
    assert(pos.board[king] == Some(ChessPiece(enemy, PieceType::King)));
    lemma_member_single(lowest(before), king);
    assert(pos.king_idx(enemy) == king);
    let pw = next.pieces(ChessPiece(side, PieceType::Pawn));
    let pn = next.pieces(ChessPiece(side, PieceType::Knight));
    let pb = next.pieces(ChessPiece(side, PieceType::Bishop));
    let pr = next.pieces(ChessPiece(side, PieceType::Rook));
    let pq = next.pieces(ChessPiece(side, PieceType::Queen));
    if member(between(king, c), e) {
        if member(leaper_checkers(next), c) {
            lemma_member_or(pawn_attacks(enemy, king) & pw, knight_attacks(king) & pn, c);
            lemma_member_and(pawn_attacks(enemy, king), pw, c);
            lemma_member_and(knight_attacks(king), pn, c);
            if member(pawn_attacks(enemy, king), c) {
                lemma_pawn_attacks(enemy, king, c);
            }
            if member(knight_attacks(king), c) {
                lemma_knight_attacks(king, c);
            }
            assert(false);
        } else {
            let occ = pos.occ();
            let occ2 = next.occ();
            let ray = between(king, c);
            lemma_member_or(bishop_attacks(king, 0) & (pq | pb), rook_attacks(king, 0) & (pq | pr), c);
            lemma_member_and(bishop_attacks(king, 0), pq | pb, c);
            lemma_member_and(rook_attacks(king, 0), pq | pr, c);
            lemma_member_or(pq, pb, c);
            lemma_member_or(pq, pr, c);
            lemma_occ_member(next.board, ChessPiece(side, PieceType::Bishop), c);
            lemma_occ_member(next.board, ChessPiece(side, PieceType::Rook), c);
            lemma_occ_member(next.board, ChessPiece(side, PieceType::Queen), c);
            lemma_occ_member(pos.board, ChessPiece(side, PieceType::Bishop), c);
            lemma_occ_member(pos.board, ChessPiece(side, PieceType::Rook), c);
            lemma_occ_member(pos.board, ChessPiece(side, PieceType::Queen), c);
            assert(c != s && c != t);
            assert(pos.board[c] == next.board[c]);
            lemma_member_and(ray, occ2, t);
            lemma_member_zero(t);
            assert(member(occ2, t));
            assert(!inside(king, c, t));
            if member(ray, s) {
                lemma_passed(king, c, s, f);
                assert(false);
            } else {
                assert forall|y: int| 0 <= y < 64 implies member(ray & occ, y) == member(0, y) by {
                    lemma_member_and(ray, occ, y);
                    lemma_member_and(ray, occ2, y);
                    lemma_member_zero(y);
                }
                lemma_ext(ray & occ, 0);
                lemma_slider_reaches(king, c, occ);
                lemma_slider_reaches(king, c, 0);
                crate::bits::lemma_and_zero(ray);
                let qb = pos.pieces(ChessPiece(side, PieceType::Bishop));
                let qr = pos.pieces(ChessPiece(side, PieceType::Rook));
                let qq = pos.pieces(ChessPiece(side, PieceType::Queen));
                lemma_member_or(bishop_attacks(king, occ), rook_attacks(king, occ), c);
                lemma_member_and(bishop_attacks(king, occ), qb, c);
                lemma_member_and(rook_attacks(king, occ), qr, c);
                lemma_member_and(queen_attacks(king, occ), qq, c);
                if member(qb, c) {
                    lemma_member_nonzero(bishop_attacks(king, occ) & qb, c);
                }
                if member(qr, c) {
                    lemma_member_nonzero(rook_attacks(king, occ) & qr, c);
                }
                if member(qq, c) {
                    lemma_member_nonzero(queen_attacks(king, occ) & qq, c);
                }
                assert(false);
            }
        }
    }
}

/// After a move that can be made, the en-passant target, if there is one,
/// lies between the king and no piece that gives check, provided that the
/// king of the side that had moved before was not in check.
proof fn lemma_ep_plain_next(pos: Position, m: ChessMove)
    requires
        valid(pos),
        applicable(pos, m),
        m == make(Square::of(m.source_idx()), Square::of(m.target_idx()), m.kind()),
        !in_check(pos, pos.side.flip()),
        valid(apply(pos, m)),
    ensures
        ep_plain(apply(pos, m)),
{
    let next = apply(pos, m);
    if next.ep != 0 {
        let e = ep_victim(pos.side, m.target_idx());
        lemma_single(e);
        assert forall|c: int| #[trigger] member(check_state(next).checkers, c) implies !member(
            between(next.king_idx(next.side), c),
            lowest(next.ep),
        ) by {
            lemma_ep_line_closed(pos, m, c);
        }
    }
}

/// A legal move leads from an orderly position to an orderly position, and
/// every orderly position is regular.
pub proof fn lemma_orderly_kept(pos: Position, m: ChessMove)
    requires
        orderly(pos),
        legal_moves(pos).contains(m),
    ensures
        orderly(apply(pos, m)),
        regular(pos),
        regular(apply(pos, m)),
{
    lemma_ep_shielded_next(pos, m);
    let ms = legal_moves(pos);
    let i = choose|i: int| 0 <= i < ms.len() && ms[i] == m;
    lemma_legal_good(pos);
    assert(applicable(pos, ms[i]));
    lemma_apply_valid(pos, m);
    lemma_listed_legal(pos, m);
    lemma_kings_apart_next(pos, m);
    lemma_ep_plain_next(pos, m);
    lemma_two_checkers(pos, m);
}

/// At the start neither king is in check.
proof fn lemma_start_quiet(side: Side)
    ensures
        start_position().king_idx(side) == king_home(side),
        !in_check(start_position(), side),
{
    let pos = start_position();
    let enemy = side.flip();
    lemma_start_valid();
    let own = pos.pieces(ChessPiece(side, PieceType::King));
    lemma_is_single(own);
    lemma_occ_member(pos.board, ChessPiece(side, PieceType::King), lowest(own));
    lemma_member_single(lowest(own), lowest(own));
    let king = pos.king_idx(side);
    assert(king == king_home(side));
    let occ = pos.occ();
    let pw = pos.pieces(ChessPiece(enemy, PieceType::Pawn));
    let pn = pos.pieces(ChessPiece(enemy, PieceType::Knight));
    let pb = pos.pieces(ChessPiece(enemy, PieceType::Bishop));
    let pr = pos.pieces(ChessPiece(enemy, PieceType::Rook));
    let pq = pos.pieces(ChessPiece(enemy, PieceType::Queen));
    let pk = pos.pieces(ChessPiece(enemy, PieceType::King));
    if pawn_attacks(side, king) & pw != 0 {
        let x = lowest(pawn_attacks(side, king) & pw);
        lemma_lowest(pawn_attacks(side, king) & pw);
        lemma_member_and(pawn_attacks(side, king), pw, x);
        lemma_pawn_attacks(side, king, x);
        lemma_occ_member(pos.board, ChessPiece(enemy, PieceType::Pawn), x);
    }
    if knight_attacks(king) & pn != 0 {
        let x = lowest(knight_attacks(king) & pn);
        lemma_lowest(knight_attacks(king) & pn);
        lemma_member_and(knight_attacks(king), pn, x);
        lemma_knight_attacks(king, x);
        lemma_occ_member(pos.board, ChessPiece(enemy, PieceType::Knight), x);
    }
    if bishop_attacks(king, occ) & pb != 0 {
        let x = lowest(bishop_attacks(king, occ) & pb);
        lemma_lowest(bishop_attacks(king, occ) & pb);
        lemma_member_and(bishop_attacks(king, occ), pb, x);
        lemma_slider_reaches(king, x, occ);
        lemma_occ_member(pos.board, ChessPiece(enemy, PieceType::Bishop), x);
    }
    if rook_attacks(king, occ) & pr != 0 {
        let x = lowest(rook_attacks(king, occ) & pr);
        lemma_lowest(rook_attacks(king, occ) & pr);
        lemma_member_and(rook_attacks(king, occ), pr, x);
        lemma_slider_reaches(king, x, occ);
        lemma_occ_member(pos.board, ChessPiece(enemy, PieceType::Rook), x);
    }
    if queen_attacks(king, occ) & pq != 0 {
        let x = lowest(queen_attacks(king, occ) & pq);
        lemma_lowest(queen_attacks(king, occ) & pq);
        lemma_member_and(queen_attacks(king, occ), pq, x);
        lemma_member_or(bishop_attacks(king, occ), rook_attacks(king, occ), x);
        lemma_slider_reaches(king, x, occ);
        lemma_occ_member(pos.board, ChessPiece(enemy, PieceType::Queen), x);
    }
    if king_attacks(king) & pk != 0 {
        let x = lowest(king_attacks(king) & pk);
        lemma_lowest(king_attacks(king) & pk);
        lemma_member_and(king_attacks(king), pk, x);
        lemma_king_attacks(king, x);
        lemma_occ_member(pos.board, ChessPiece(enemy, PieceType::King), x);
    }
}

/// The starting position is orderly and regular, and no piece gives check in it.
pub proof fn lemma_start_orderly()
    ensures
        orderly(start_position()),
        regular(start_position()),
        check_state(start_position()).checkers == 0,
{
    let pos = start_position();
    lemma_start_valid();
    lemma_start_quiet(Side::White);
    lemma_start_quiet(Side::Black);
    lemma_attacked_threats(pos, Side::White);
    lemma_checkers(pos);
    assert(popcount(0) == 0);
}

impl ChessBoard {
    /// Whether the pawn that can be taken en passant, if there is one, is
    /// not the king's only shield on a diagonal.
    pub fn enpassant_shielded(&self) -> (r: bool)
        requires
            self.wf(),
        ensures
            r == ep_shielded(self@),
    {
        let enpassant_square = match self.data.enpassant_bb.lsb_square() {
            Some(x) => x,
            None => {
                return true;
            },
        };
        proof {
            self.lemma_wf();
            lemma_is_single(self@.ep);
            assert(ep_ok(self@));
            enpassant_square.lemma_idx();
        }
        let side = self.side();
        let king = self.king_square(side);
        let taken = match side {
            Side::White => enpassant_square.down(),
            Side::Black => enpassant_square.up(),
        };
        proof {
            lemma_occ_member(self@.board, ChessPiece(side, PieceType::King), king.idx());
            lemma_member_single(king.idx(), king.idx());
            assert(king.idx() != taken.idx());
        }
        !self.data.pinned_bb.nth_is_not_zero(taken) || Square::is_same_row(king, taken)
            || Square::is_same_col(king, taken)
    }

    /// Whether the en-passant target, if there is one, lies between the king
    /// and no piece that gives check.
    pub fn enpassant_plain(&self, t: &AttackTables) -> (r: bool)
        requires
            self.wf(),
            t.wf(),
        ensures
            r == ep_plain(self@),
    {
        let target = match self.data.enpassant_bb.lsb_square() {
            Some(x) => x,
            None => {
                return true;
            },
        };
        let king = self.king_square(self.side());
        let mut rest = self.data.check_bb;
        while rest.0 != 0
            invariant
                self.wf(),
                t.wf(),
                self@.ep != 0,
                target.idx() == lowest(self@.ep),
                king.idx() == self@.king_idx(self@.side),
                forall|x: int| member(rest.0, x) ==> member(self.data.check_bb.0, x),
                forall|c: int|
                    member(self.data.check_bb.0, c) && !member(rest.0, c) ==> !member(
                        #[trigger] between(king.idx(), c),
                        target.idx(),
                    ),
            decreases rest.0,
        {
            proof {
                lemma_lowest(rest.0);
                lemma_drop_lowest(rest.0);
            }
            let c = match rest.lsb_square() {
                Some(x) => x,
                None => vstd::pervasive::unreached(),
            };
            if rays(t, king, c).nth_is_not_zero(target) {
                proof {
                    assert(member(rest.0, c.idx()));
                    assert(member(check_state(self@).checkers, c.idx()));
                    assert(member(between(king.idx(), c.idx()), target.idx()));
                }
                return false;
            }
            let ghost before = rest.0;
            rest.pop_lsb();
            proof {
                assert forall|x: int| member(rest.0, x) implies member(
                    self.data.check_bb.0,
                    x,
                ) by {
                    assert(member(before, x));
                }
                assert forall|x: int|
                    member(self.data.check_bb.0, x) && !member(rest.0, x) implies !member(
                    #[trigger] between(king.idx(), x),
                    target.idx(),
                ) by {
                    if member(before, x) {
                        assert(x == c.idx());
                    }
                }
            }
        }
        proof {
            assert forall|c: int| #[trigger]
                member(check_state(self@).checkers, c) implies !member(
                between(king.idx(), c),
                target.idx(),
            ) by {
                lemma_member_zero(c);
            }
        }
        true
    }

    /// Whether the position is orderly.
    pub fn is_orderly(&self, t: &AttackTables) -> (r: bool)
        requires
            self.wf(),
            t.wf(),
        ensures
            r == orderly(self@),
    {
        proof {
            self.lemma_wf();
        }
        let side = self.side();
        let enemy = side.update();
        let king = self.king_square(side);
        let enemy_king = self.bitboards.piece_bitboard(ChessPiece(enemy, PieceType::King));
        if get_king_attack(t, king).0 & enemy_king.0 != 0 {
            return false;
        }
        if self.is_king_in_check(t, enemy) {
            return false;
        }
        if self.data.check_bb.count_ones() > 2 {
            return false;
        }
        self.enpassant_plain(t) && self.enpassant_shielded()
    }
}

} // verus!
