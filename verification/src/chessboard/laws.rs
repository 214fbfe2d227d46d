//! What holds of every generated move.

use vstd::prelude::*;
use crate::attack::init::{in_range, king_attacks, knight_attacks, pawn_attacks, step};
use crate::attack::{forward, pawn_pushes, starting_row_of};
use crate::bitboard::PROMOTION_SQUARES;
use crate::bits::{
    drop_lowest, is_single, lemma_drop_lowest, lemma_is_single, lemma_lowest, lemma_member_and,
    lemma_member_not, lemma_member_or, lemma_member_single, lemma_member_zero, lowest, member,
    single,
};
use crate::chessboard::check::{check_state, CheckState};
use crate::chessboard::movegen::{
    allowed, ep_moves_over, king_moves, king_steps, king_targets, legal_moves, moves_from,
    moves_over, normal_moves, pawn_moves, pawn_moves_to, piece_moves, promotions_to, reach,
    target_mask,
};
use crate::chessboard::position::{lemma_occ_member, Position};
use crate::chessboard::updatestate::{applicable, double_push};
use crate::chessboard::{
    castle_legal, ep_ok, king_crossing, king_home, king_target, right_ok, rights_ok, valid,
};
use crate::chessmove::{castle_move, lemma_make, make, Castling, ChessMove, MoveType};
use crate::chesspiece::{ChessPiece, PieceType, Side};
use crate::square::{col_of, row_of, Square};

verus! {

/// Whether every square of `a` is a square of `b`.
pub open spec fn within(a: u64, b: u64) -> bool {
    forall|x: int| #[trigger] member(a, x) ==> member(b, x)
}

/// A set without its lowest square lies within every set that it lies within.
pub proof fn lemma_within_drop(a: u64, b: u64)
    requires
        a != 0,
        within(a, b),
    ensures
        within(drop_lowest(a), b),
        member(b, lowest(a)),
{
    lemma_lowest(a);
    lemma_drop_lowest(a);
    assert forall|x: int| #[trigger] member(drop_lowest(a), x) implies member(b, x) by {
        assert(member(a, x));
    }
}

/// The squares that two sets share lie within each of them.
pub proof fn lemma_within_and(a: u64, b: u64)
    ensures
        within(a & b, a),
        within(a & b, b),
{
    assert forall|x: int| #[trigger] member(a & b, x) implies member(a, x) && member(b, x) by {
        lemma_member_and(a, b, x);
    }
}

/// Whether a move is a normal move or a promotion from square `s` to a square of `targets`.
pub open spec fn goes(m: ChessMove, s: int, targets: u64) -> bool {
    &&& m.source_idx() == s
    &&& member(targets, m.target_idx())
    &&& (m.kind() is Normal || m.kind() is Promotion)
}

/// Every move of `normal_moves` is a normal move from `s` to a square of the targets.
pub proof fn lemma_normal_moves(s: int, targets: u64, i: int)
    requires
        0 <= s < 64,
        0 <= i < normal_moves(s, targets).len(),
    ensures
        goes(normal_moves(s, targets)[i], s, targets),
        normal_moves(s, targets)[i].kind() is Normal,
    decreases targets,
{
    if targets != 0 {
        lemma_lowest(targets);
        lemma_drop_lowest(targets);
        Square::lemma_of(s);
        Square::lemma_of(lowest(targets));
        lemma_make(Square::of(s), Square::of(lowest(targets)), MoveType::Normal);
        if i > 0 {
            lemma_normal_moves(s, drop_lowest(targets), i - 1);
        }
    }
}

/// Every move of `promotions_to` is a promotion from `s` to a square of the targets.
pub proof fn lemma_promotions_to(s: int, targets: u64, i: int)
    requires
        0 <= s < 64,
        0 <= i < promotions_to(s, targets).len(),
    ensures
        goes(promotions_to(s, targets)[i], s, targets),
        promotions_to(s, targets)[i].kind() is Promotion,
    decreases targets,
{
    if targets != 0 {
        lemma_lowest(targets);
        lemma_drop_lowest(targets);
        Square::lemma_of(s);
        Square::lemma_of(lowest(targets));
        let a = Square::of(s);
        let b = Square::of(lowest(targets));
        lemma_make(a, b, MoveType::Promotion(PieceType::Queen));
        lemma_make(a, b, MoveType::Promotion(PieceType::Knight));
        lemma_make(a, b, MoveType::Promotion(PieceType::Bishop));
        lemma_make(a, b, MoveType::Promotion(PieceType::Rook));
        if i >= 4 {
            lemma_promotions_to(s, drop_lowest(targets), i - 4);
        }
    }
}

/// Every move of a pawn goes from its square to one of its targets, and is
/// normal exactly when the target is not on the first or last rank.
pub proof fn lemma_pawn_moves_to(s: int, targets: u64, i: int)
    requires
        0 <= s < 64,
        0 <= i < pawn_moves_to(s, targets).len(),
    ensures
        goes(pawn_moves_to(s, targets)[i], s, targets),
{
    let a = normal_moves(s, targets & !PROMOTION_SQUARES);
    if i < a.len() {
        lemma_normal_moves(s, targets & !PROMOTION_SQUARES, i);
        lemma_member_and(targets, !PROMOTION_SQUARES, a[i].target_idx());
    } else {
        lemma_promotions_to(s, targets & PROMOTION_SQUARES, i - a.len());
        lemma_member_and(
            targets,
            PROMOTION_SQUARES,
            promotions_to(s, targets & PROMOTION_SQUARES)[i - a.len()].target_idx(),
        );
    }
}

/// A square that a pawn reaches by advancing is free; if it is two ranks
/// ahead, the pawn stands on its starting rank and the square between is free too.
pub proof fn lemma_pawn_pushes(pos: Position, s: int, t: int)
    requires
        pos.shaped(),
        0 <= s < 64,
        member(pawn_pushes(pos.side, s, pos.occ()), t),
    ensures
        pos.board[t] is None,
        t == s + 8 * forward(pos.side) || (t == s + 16 * forward(pos.side) && double_push(pos, s, t)),
{
    let occ = pos.occ();
    let f = forward(pos.side);
    let one = step(s, f, 0) & !occ;
    let two = step(s, 2 * f, 0) & !occ;
    lemma_member_and(step(s, f, 0), !occ, t);
    lemma_member_and(step(s, 2 * f, 0), !occ, t);
    lemma_member_and(one | two, !occ, t);
    lemma_member_or(one, two, t);
    lemma_member_zero(t);
    pos.lemma_occ(t);
    if 0 <= t < 64 {
        lemma_member_not(occ, t);
    }
    if in_range(row_of(s) + f, col_of(s)) {
        lemma_member_single(s + 8 * f, t);
        lemma_member_single(s + 8 * f, s + 8 * f);
        lemma_member_and(step(s, f, 0), !occ, s + 8 * f);
        lemma_member_not(occ, s + 8 * f);
        pos.lemma_occ(s + 8 * f);
    }
    if in_range(row_of(s) + 2 * f, col_of(s)) {
        lemma_member_single(s + 16 * f, t);
    }
    if one != 0 && row_of(s) == starting_row_of(pos.side) {
        if t != s + 8 * f {
            assert(member(two, t));
            assert(t == s + 16 * f);
            assert(one == single(s + 8 * f) & !occ);
            if member(occ, s + 8 * f) {
                assert forall|k: int| 0 <= k < 64 implies !member(one, k) by {
                    lemma_member_and(single(s + 8 * f), !occ, k);
                    lemma_member_single(s + 8 * f, k);
                    lemma_member_not(occ, k);
                }
                assert forall|k: int| 0 <= k < 64 implies member(one, k) == member(0, k) by {
                    lemma_member_zero(k);
                }
                crate::bits::lemma_ext(one, 0);
            }
        }
    }
}

/// A square that a pawn attacks is one rank ahead and one file aside.
pub proof fn lemma_pawn_attacks(side: Side, s: int, t: int)
    requires
        0 <= s < 64,
        member(pawn_attacks(side, s), t),
    ensures
        t == s + 8 * forward(side) - 1 || t == s + 8 * forward(side) + 1,
        0 <= t < 64,
        row_of(t) == row_of(s) + forward(side),
        col_of(t) == col_of(s) - 1 || col_of(t) == col_of(s) + 1,
{
    let f = forward(side);
    let a = step(s, f, -1);
    let b = step(s, f, 1);
    lemma_member_or(0 | a, b, t);
    lemma_member_or(0, a, t);
    lemma_member_zero(t);
    if in_range(row_of(s) + f, col_of(s) - 1) {
        lemma_member_single(s + 8 * f - 1, t);
    }
    if in_range(row_of(s) + f, col_of(s) + 1) {
        lemma_member_single(s + 8 * f + 1, t);
    }
}

/// A one-step target lies the step's ranks and files away.
pub proof fn lemma_step(s: int, dr: int, dc: int, t: int)
    requires
        0 <= s < 64,
        member(step(s, dr, dc), t),
    ensures
        0 <= t < 64,
        row_of(t) == row_of(s) + dr,
        col_of(t) == col_of(s) + dc,
{
    lemma_member_zero(t);
    if in_range(row_of(s) + dr, col_of(s) + dc) {
        lemma_member_single((row_of(s) + dr) * 8 + col_of(s) + dc, t);
    }
}

/// A square that a knight attacks lies one rank and two files away, or two
/// ranks and one file.
pub proof fn lemma_knight_attacks(s: int, t: int)
    requires
        0 <= s < 64,
        member(knight_attacks(s), t),
    ensures
        0 <= t < 64,
        ({
            let dr = row_of(t) - row_of(s);
            let dc = col_of(t) - col_of(s);
            ((dr == 1 || dr == -1) && (dc == 2 || dc == -2)) || ((dr == 2 || dr == -2) && (dc == 1
                || dc == -1))
        }),
{
    let n1 = 0 | step(s, 2, 1);
    let n2 = n1 | step(s, 2, -1);
    let n3 = n2 | step(s, 1, 2);
    let n4 = n3 | step(s, 1, -2);
    let n5 = n4 | step(s, -1, 2);
    let n6 = n5 | step(s, -1, -2);
    let n7 = n6 | step(s, -2, 1);
    lemma_member_zero(t);
    lemma_member_or(0, step(s, 2, 1), t);
    lemma_member_or(n1, step(s, 2, -1), t);
    lemma_member_or(n2, step(s, 1, 2), t);
    lemma_member_or(n3, step(s, 1, -2), t);
    lemma_member_or(n4, step(s, -1, 2), t);
    lemma_member_or(n5, step(s, -1, -2), t);
    lemma_member_or(n6, step(s, -2, 1), t);
    lemma_member_or(n7, step(s, -2, -1), t);
    if member(step(s, 2, 1), t) {
        lemma_step(s, 2, 1, t);
    } else if member(step(s, 2, -1), t) {
        lemma_step(s, 2, -1, t);
    } else if member(step(s, 1, 2), t) {
        lemma_step(s, 1, 2, t);
    } else if member(step(s, 1, -2), t) {
        lemma_step(s, 1, -2, t);
    } else if member(step(s, -1, 2), t) {
        lemma_step(s, -1, 2, t);
    } else if member(step(s, -1, -2), t) {
        lemma_step(s, -1, -2, t);
    } else if member(step(s, -2, 1), t) {
        lemma_step(s, -2, 1, t);
    } else {
        lemma_step(s, -2, -1, t);
    }
}

/// A square that a king attacks lies at most one rank and one file away and
/// is another square.
pub proof fn lemma_king_attacks(s: int, t: int)
    requires
        0 <= s < 64,
        member(king_attacks(s), t),
    ensures
        0 <= t < 64,
        t != s,
        -1 <= row_of(t) - row_of(s) <= 1,
        -1 <= col_of(t) - col_of(s) <= 1,
{
    let k1 = 0 | step(s, 1, 0);
    let k2 = k1 | step(s, -1, 0);
    let k3 = k2 | step(s, 0, -1);
    let k4 = k3 | step(s, 0, 1);
    let k5 = k4 | step(s, 1, -1);
    let k6 = k5 | step(s, 1, 1);
    let k7 = k6 | step(s, -1, -1);
    lemma_member_zero(t);
    lemma_member_or(0, step(s, 1, 0), t);
    lemma_member_or(k1, step(s, -1, 0), t);
    lemma_member_or(k2, step(s, 0, -1), t);
    lemma_member_or(k3, step(s, 0, 1), t);
    lemma_member_or(k4, step(s, 1, -1), t);
    lemma_member_or(k5, step(s, 1, 1), t);
    lemma_member_or(k6, step(s, -1, -1), t);
    lemma_member_or(k7, step(s, -1, 1), t);
    if member(step(s, 1, 0), t) {
        lemma_step(s, 1, 0, t);
    } else if member(step(s, -1, 0), t) {
        lemma_step(s, -1, 0, t);
    } else if member(step(s, 0, -1), t) {
        lemma_step(s, 0, -1, t);
    } else if member(step(s, 0, 1), t) {
        lemma_step(s, 0, 1, t);
    } else if member(step(s, 1, -1), t) {
        lemma_step(s, 1, -1, t);
    } else if member(step(s, 1, 1), t) {
        lemma_step(s, 1, 1, t);
    } else if member(step(s, -1, -1), t) {
        lemma_step(s, -1, -1, t);
    } else {
        lemma_step(s, -1, 1, t);
    }
}

/// A square of the target mask holds no piece of the side to move and no king.
pub proof fn lemma_target_free(pos: Position, mask: u64, t: int)
    requires
        pos.shaped(),
        0 <= t < 64,
        member(
            mask & !pos.side_occ(pos.side) & !pos.pieces(
                ChessPiece(pos.side.flip(), PieceType::King),
            ),
            t,
        ),
    ensures
        member(mask, t),
        pos.board[t] matches Some(q) ==> q.0 != pos.side && q.1 != PieceType::King,
{
    let own = pos.side_occ(pos.side);
    let king = pos.pieces(ChessPiece(pos.side.flip(), PieceType::King));
    lemma_member_and(mask & !own, !king, t);
    lemma_member_and(mask, !own, t);
    lemma_member_not(own, t);
    lemma_member_not(king, t);
    pos.lemma_side_occ(pos.side, t);
    lemma_occ_member(pos.board, ChessPiece(pos.side.flip(), PieceType::King), t);
}

/// Every move of a piece other than the king can be made, starts on the
/// piece's square and ends on a square that answers the check.
pub proof fn lemma_moves_from(
    pos: Position,
    cs: CheckState,
    kind: PieceType,
    s: int,
    pinned: bool,
    i: int,
)
    requires
        valid(pos),
        kind != PieceType::King,
        member(pos.pieces(ChessPiece(pos.side, kind)), s),
        0 <= i < moves_from(pos, cs, kind, s, pinned).len(),
    ensures
        applicable(pos, moves_from(pos, cs, kind, s, pinned)[i]),
        moves_from(pos, cs, kind, s, pinned)[i].source_idx() == s,
        member(cs.mask, moves_from(pos, cs, kind, s, pinned)[i].target_idx()),
        !(moves_from(pos, cs, kind, s, pinned)[i].kind() is EnPassant),
{
    let m = moves_from(pos, cs, kind, s, pinned)[i];
    let targets = reach(pos, kind, s) & allowed(pos, cs, s, pinned);
    lemma_occ_member(pos.board, ChessPiece(pos.side, kind), s);
    if kind == PieceType::Pawn {
        lemma_pawn_moves_to(s, targets, i);
    } else {
        lemma_normal_moves(s, targets, i);
    }
    let t = m.target_idx();
    lemma_member_and(reach(pos, kind, s), allowed(pos, cs, s, pinned), t);
    if pinned {
        lemma_member_and(
            target_mask(pos, cs),
            crate::attack::long_line(pos.king_idx(pos.side), s),
            t,
        );
    }
    lemma_target_free(pos, cs.mask, t);
    if kind == PieceType::Pawn && m.kind() is Normal && (t - s == 16 || s - t == 16) {
        let pushes = pawn_pushes(pos.side, s, pos.occ());
        let takes = pawn_attacks(pos.side, s) & pos.side_occ(pos.side.flip());
        lemma_member_or(pushes, takes, t);
        if member(takes, t) {
            lemma_member_and(pawn_attacks(pos.side, s), pos.side_occ(pos.side.flip()), t);
            lemma_pawn_attacks(pos.side, s, t);
        } else {
            lemma_pawn_pushes(pos, s, t);
        }
    }
}

/// Every move of the pieces of one kind on a set of squares can be made and
/// ends on a square that answers the check.
pub proof fn lemma_moves_over(
    pos: Position,
    cs: CheckState,
    kind: PieceType,
    sources: u64,
    pinned: bool,
    i: int,
)
    requires
        valid(pos),
        kind != PieceType::King,
        within(sources, pos.pieces(ChessPiece(pos.side, kind))),
        0 <= i < moves_over(pos, cs, kind, sources, pinned).len(),
    ensures
        applicable(pos, moves_over(pos, cs, kind, sources, pinned)[i]),
        member(cs.mask, moves_over(pos, cs, kind, sources, pinned)[i].target_idx()),
        !(moves_over(pos, cs, kind, sources, pinned)[i].kind() is EnPassant),
        pos.board[moves_over(pos, cs, kind, sources, pinned)[i].source_idx()] == Some(
            ChessPiece(pos.side, kind),
        ),
    decreases sources,
{
    if sources != 0 {
        lemma_lowest(sources);
        lemma_drop_lowest(sources);
        lemma_within_drop(sources, pos.pieces(ChessPiece(pos.side, kind)));
        let s = lowest(sources);
        let here = moves_from(pos, cs, kind, s, pinned);
        if i < here.len() {
            lemma_moves_from(pos, cs, kind, s, pinned, i);
            lemma_occ_member(pos.board, ChessPiece(pos.side, kind), s);
        } else {
            lemma_moves_over(pos, cs, kind, drop_lowest(sources), pinned, i - here.len());
        }
    }
}

/// Every move of the pieces of one kind can be made and ends on a square that
/// answers the check.
pub proof fn lemma_piece_moves(pos: Position, cs: CheckState, kind: PieceType, i: int)
    requires
        valid(pos),
        kind != PieceType::King,
        0 <= i < piece_moves(pos, cs, kind).len(),
    ensures
        applicable(pos, piece_moves(pos, cs, kind)[i]),
        member(cs.mask, piece_moves(pos, cs, kind)[i].target_idx()),
        !(piece_moves(pos, cs, kind)[i].kind() is EnPassant),
        pos.board[piece_moves(pos, cs, kind)[i].source_idx()] == Some(ChessPiece(pos.side, kind)),
{
    let own = pos.pieces(ChessPiece(pos.side, kind));
    let a = moves_over(pos, cs, kind, own & !cs.pinned, false);
    lemma_within_and(own, !cs.pinned);
    lemma_within_and(own, cs.pinned);
    if i < a.len() {
        lemma_moves_over(pos, cs, kind, own & !cs.pinned, false, i);
    } else {
        lemma_moves_over(pos, cs, kind, own & cs.pinned, true, i - a.len());
    }
}

/// Every en-passant capture can be made.
pub proof fn lemma_ep_moves_over(pos: Position, cs: CheckState, sources: u64, i: int)
    requires
        valid(pos),
        pos.ep != 0,
        within(sources, pos.pieces(ChessPiece(pos.side, PieceType::Pawn))),
        0 <= i < ep_moves_over(pos, cs, sources).len(),
    ensures
        applicable(pos, ep_moves_over(pos, cs, sources)[i]),
        ep_moves_over(pos, cs, sources)[i].kind() is EnPassant,
        pos.board[ep_moves_over(pos, cs, sources)[i].source_idx()] == Some(
            ChessPiece(pos.side, PieceType::Pawn),
        ),
    decreases sources,
{
    if sources != 0 {
        lemma_lowest(sources);
        lemma_drop_lowest(sources);
        lemma_is_single(pos.ep);
        lemma_within_drop(sources, pos.pieces(ChessPiece(pos.side, PieceType::Pawn)));
        let s = lowest(sources);
        let e = lowest(pos.ep);
        assert(ep_ok(pos));
        lemma_occ_member(pos.board, ChessPiece(pos.side, PieceType::Pawn), s);
        Square::lemma_of(s);
        Square::lemma_of(e);
        lemma_make(Square::of(s), Square::of(e), MoveType::EnPassant);
        let here: Seq<ChessMove> = if crate::chessboard::movegen::ep_allowed(pos, cs, s) {
            seq![make(Square::of(s), Square::of(e), MoveType::EnPassant)]
        } else {
            Seq::empty()
        };
        if i >= here.len() {
            lemma_ep_moves_over(pos, cs, drop_lowest(sources), i - here.len());
        }
    }
}

/// Every move of the pawns can be made; all but the en-passant captures end
/// on a square that answers the check.
pub proof fn lemma_pawn_moves(pos: Position, cs: CheckState, i: int)
    requires
        valid(pos),
        0 <= i < pawn_moves(pos, cs).len(),
    ensures
        applicable(pos, pawn_moves(pos, cs)[i]),
        pawn_moves(pos, cs)[i].kind() is EnPassant || member(
            cs.mask,
            pawn_moves(pos, cs)[i].target_idx(),
        ),
        pos.board[pawn_moves(pos, cs)[i].source_idx()] == Some(
            ChessPiece(pos.side, PieceType::Pawn),
        ),
{
    let a = piece_moves(pos, cs, PieceType::Pawn);
    if i < a.len() {
        lemma_piece_moves(pos, cs, PieceType::Pawn, i);
    } else {
        let own = pos.pieces(ChessPiece(pos.side, PieceType::Pawn));
        let from = pawn_attacks(pos.side.flip(), lowest(pos.ep));
        lemma_within_and(from, own);
        lemma_ep_moves_over(pos, cs, from & own, i - a.len());
    }
}

/// Every step of the king can be made and starts on the king's square.
pub proof fn lemma_king_steps(pos: Position, targets: u64, i: int)
    requires
        valid(pos),
        within(targets, king_targets(pos)),
        0 <= i < king_steps(pos, targets).len(),
    ensures
        applicable(pos, king_steps(pos, targets)[i]),
        king_steps(pos, targets)[i].source_idx() == pos.king_idx(pos.side),
        king_steps(pos, targets)[i].kind() is Normal,
    decreases targets,
{
    if targets != 0 {
        lemma_lowest(targets);
        lemma_drop_lowest(targets);
        lemma_within_drop(targets, king_targets(pos));
        let king_bb = pos.pieces(ChessPiece(pos.side, PieceType::King));
        lemma_is_single(king_bb);
        lemma_lowest(king_bb);
        let k = pos.king_idx(pos.side);
        let t = lowest(targets);
        lemma_occ_member(pos.board, ChessPiece(pos.side, PieceType::King), k);
        Square::lemma_of(k);
        Square::lemma_of(t);
        lemma_make(Square::of(k), Square::of(t), MoveType::Normal);
        lemma_target_free(pos, crate::attack::init::king_attacks(k), t);
        let here: Seq<ChessMove> = if !crate::chessboard::attacked(
            pos,
            t,
            pos.side.flip(),
            crate::chessboard::movegen::kingless(pos),
        ) {
            seq![make(Square::of(k), Square::of(t), MoveType::Normal)]
        } else {
            Seq::empty()
        };
        if i >= here.len() {
            lemma_king_steps(pos, drop_lowest(targets), i - here.len());
        }
    }
}

/// A castle that is legal can be made.
pub proof fn lemma_castle(pos: Position, c: Castling)
    requires
        valid(pos),
        c.side() == pos.side,
        castle_legal(pos, c),
    ensures
        applicable(pos, castle_move(c)),
        castle_move(c).source_idx() == pos.king_idx(pos.side),
        castle_move(c).kind() is Castle,
{
    lemma_make(Square::E1, Square::G1, MoveType::Castle(c));
    lemma_make(Square::E1, Square::C1, MoveType::Castle(c));
    lemma_make(Square::E8, Square::G8, MoveType::Castle(c));
    lemma_make(Square::E8, Square::C8, MoveType::Castle(c));
    assert(rights_ok(pos));
    assert(right_ok(pos, c));
    let a = single(king_crossing(c));
    let b = single(king_target(c));
    lemma_member_single(king_crossing(c), king_crossing(c));
    lemma_member_single(king_target(c), king_target(c));
    lemma_member_or(a, b, king_crossing(c));
    lemma_member_or(a, b, king_target(c));
    lemma_member_and(a | b, pos.occ(), king_crossing(c));
    lemma_member_and(a | b, pos.occ(), king_target(c));
    lemma_member_zero(king_crossing(c));
    lemma_member_zero(king_target(c));
    pos.lemma_occ(king_crossing(c));
    pos.lemma_occ(king_target(c));
    let king_bb = pos.pieces(ChessPiece(pos.side, PieceType::King));
    lemma_is_single(king_bb);
    lemma_occ_member(pos.board, ChessPiece(pos.side, PieceType::King), king_home(pos.side));
    lemma_member_single(lowest(king_bb), king_home(pos.side));
}

/// Every move of the king can be made and starts on the king's square.
pub proof fn lemma_king_moves(pos: Position, cs: CheckState, i: int)
    requires
        valid(pos),
        0 <= i < king_moves(pos, cs).len(),
    ensures
        applicable(pos, king_moves(pos, cs)[i]),
        king_moves(pos, cs)[i].source_idx() == pos.king_idx(pos.side),
        cs.checkers != 0 ==> king_moves(pos, cs)[i].kind() is Normal,
{
    let a = king_steps(pos, king_targets(pos));
    if i < a.len() {
        assert(within(king_targets(pos), king_targets(pos)));
        lemma_king_steps(pos, king_targets(pos), i);
    } else {
        let k = Castling::Kingside(pos.side);
        let q = Castling::Queenside(pos.side);
        if castle_legal(pos, k) {
            lemma_castle(pos, k);
        }
        if castle_legal(pos, q) {
            lemma_castle(pos, q);
        }
    }
}

/// What holds of a generated move: it can be made; unless it is a move of
/// the king or an en-passant capture, it ends on a square that answers the
/// check; and a move of the king starts on the king's square and is a normal
/// move when the king is in check.
pub open spec fn good(pos: Position, cs: CheckState, m: ChessMove) -> bool {
    let king = Some(ChessPiece(pos.side, PieceType::King));
    &&& applicable(pos, m)
    &&& (pos.board[m.source_idx()] != king && !(m.kind() is EnPassant) ==> member(
        cs.mask,
        m.target_idx(),
    ))
    &&& (pos.board[m.source_idx()] == king ==> m.source_idx() == pos.king_idx(pos.side) && (
    cs.checkers != 0 ==> m.kind() is Normal))
}

/// Whether `good` holds of every move of a list.
pub open spec fn all_good(pos: Position, cs: CheckState, ms: Seq<ChessMove>) -> bool {
    forall|i: int| 0 <= i < ms.len() ==> good(pos, cs, #[trigger] ms[i])
}

/// What holds of every move of two lists holds of every move of their concatenation.
pub proof fn lemma_all_good_add(pos: Position, cs: CheckState, a: Seq<ChessMove>, b: Seq<ChessMove>)
    requires
        all_good(pos, cs, a),
        all_good(pos, cs, b),
    ensures
        all_good(pos, cs, a + b),
{
    assert forall|i: int| 0 <= i < (a + b).len() implies good(pos, cs, #[trigger] (a + b)[i]) by {
        if i < a.len() {
            assert((a + b)[i] == a[i]);
        } else {
            assert((a + b)[i] == b[i - a.len()]);
        }
    }
}

/// `good` holds of every move of the pieces of one kind.
pub proof fn lemma_piece_moves_good(pos: Position, cs: CheckState, kind: PieceType)
    requires
        valid(pos),
        kind != PieceType::King,
    ensures
        all_good(pos, cs, piece_moves(pos, cs, kind)),
{
    let ms = piece_moves(pos, cs, kind);
    assert forall|i: int| 0 <= i < ms.len() implies good(pos, cs, #[trigger] ms[i]) by {
        lemma_piece_moves(pos, cs, kind, i);
    }
}

/// `good` holds of every move of the pawns.
pub proof fn lemma_pawn_moves_good(pos: Position, cs: CheckState)
    requires
        valid(pos),
    ensures
        all_good(pos, cs, pawn_moves(pos, cs)),
{
    let ms = pawn_moves(pos, cs);
    assert forall|i: int| 0 <= i < ms.len() implies good(pos, cs, #[trigger] ms[i]) by {
        lemma_pawn_moves(pos, cs, i);
    }
}

/// `good` holds of every move of the king.
pub proof fn lemma_king_moves_good(pos: Position, cs: CheckState)
    requires
        valid(pos),
    ensures
        all_good(pos, cs, king_moves(pos, cs)),
        forall|i: int|
            0 <= i < king_moves(pos, cs).len() ==> pos.board[(#[trigger] king_moves(
                pos,
                cs,
            )[i]).source_idx()] == Some(ChessPiece(pos.side, PieceType::King)),
{
    let ms = king_moves(pos, cs);
    let king_bb = pos.pieces(ChessPiece(pos.side, PieceType::King));
    lemma_is_single(king_bb);
    lemma_lowest(king_bb);
    lemma_occ_member(pos.board, ChessPiece(pos.side, PieceType::King), pos.king_idx(pos.side));
    assert forall|i: int| 0 <= i < ms.len() implies good(pos, cs, #[trigger] ms[i])
        && pos.board[ms[i].source_idx()] == Some(ChessPiece(pos.side, PieceType::King)) by {
        lemma_king_moves(pos, cs, i);
    }
}

/// `good` holds of every legal move of a valid position.
pub proof fn lemma_legal_good(pos: Position)
    requires
        valid(pos),
    ensures
        all_good(pos, check_state(pos), legal_moves(pos)),
{
    let cs = check_state(pos);
    lemma_king_moves_good(pos, cs);
    if cs.checkers == 0 || is_single(cs.checkers) {
        let a = pawn_moves(pos, cs);
        let b = piece_moves(pos, cs, PieceType::Knight);
        let c = piece_moves(pos, cs, PieceType::Bishop);
        let d = piece_moves(pos, cs, PieceType::Rook);
        let e = piece_moves(pos, cs, PieceType::Queen);
        let f = king_moves(pos, cs);
        lemma_pawn_moves_good(pos, cs);
        lemma_piece_moves_good(pos, cs, PieceType::Knight);
        lemma_piece_moves_good(pos, cs, PieceType::Bishop);
        lemma_piece_moves_good(pos, cs, PieceType::Rook);
        lemma_piece_moves_good(pos, cs, PieceType::Queen);
        lemma_all_good_add(pos, cs, a, b);
        lemma_all_good_add(pos, cs, a + b, c);
        lemma_all_good_add(pos, cs, a + b + c, d);
        lemma_all_good_add(pos, cs, a + b + c + d, e);
        lemma_all_good_add(pos, cs, a + b + c + d + e, f);
    }
}

/// Every legal move of a valid position can be made in it.
pub proof fn lemma_legal_applicable(pos: Position, i: int)
    requires
        valid(pos),
        0 <= i < legal_moves(pos).len(),
    ensures
        applicable(pos, legal_moves(pos)[i]),
{
    lemma_legal_good(pos);
}

/// With two or more checkers every legal move is a normal move of the king.
pub proof fn lemma_double_check(pos: Position, i: int)
    requires
        valid(pos),
        check_state(pos).checkers != 0,
        !is_single(check_state(pos).checkers),
        0 <= i < legal_moves(pos).len(),
    ensures
        legal_moves(pos)[i].source_idx() == pos.king_idx(pos.side),
        pos.board[legal_moves(pos)[i].source_idx()] == Some(ChessPiece(pos.side, PieceType::King)),
        legal_moves(pos)[i].kind() is Normal,
{
    lemma_legal_good(pos);
    lemma_king_moves_good(pos, check_state(pos));
}

/// With exactly one checker every legal move that is neither a move of the
/// king nor an en-passant capture ends on a square that answers the check.
pub proof fn lemma_single_check(pos: Position, i: int)
    requires
        valid(pos),
        is_single(check_state(pos).checkers),
        0 <= i < legal_moves(pos).len(),
        pos.board[legal_moves(pos)[i].source_idx()] != Some(ChessPiece(pos.side, PieceType::King)),
        !(legal_moves(pos)[i].kind() is EnPassant),
    ensures
        member(check_state(pos).mask, legal_moves(pos)[i].target_idx()),
{
    lemma_legal_good(pos);
}

} // verus!
