//! Moves that stand in the lists of the legal moves.

use vstd::prelude::*;
use crate::bitboard::PROMOTION_SQUARES;
use crate::bits::{
    drop_lowest, is_single, lemma_drop_lowest, lemma_lowest, lemma_member_and, lemma_member_not,
    lemma_member_zero, lowest, member,
};
use crate::chessboard::attacked;
use crate::chessboard::check::{check_state, CheckState};
use crate::chessboard::movegen::{
    ep_allowed, ep_moves_over, king_moves, king_steps, kingless, legal_moves, moves_from,
    moves_over, normal_moves, pawn_moves, pawn_moves_to, piece_moves, pinned_moves, promotions_to,
};
use crate::chessboard::position::Position;
use crate::chessmove::{make, promotion_moves, valid_kind, ChessMove, MoveType};
use crate::chesspiece::{ChessPiece, PieceType};
use crate::square::Square;

verus! {

/// A move of the first of two lists stands in their concatenation.
pub proof fn lemma_has_left(a: Seq<ChessMove>, b: Seq<ChessMove>, m: ChessMove)
    requires
        a.contains(m),
    ensures
        (a + b).contains(m),
{
    let i = choose|i: int| 0 <= i < a.len() && a[i] == m;
    assert((a + b)[i] == m);
}

/// A move of the second of two lists stands in their concatenation.
pub proof fn lemma_has_right(a: Seq<ChessMove>, b: Seq<ChessMove>, m: ChessMove)
    requires
        b.contains(m),
    ensures
        (a + b).contains(m),
{
    let i = choose|i: int| 0 <= i < b.len() && b[i] == m;
    assert((a + b)[a.len() + i] == m);
}

/// The normal moves to a set of squares hold the move to each of them.
pub proof fn lemma_normal_has(s: int, targets: u64, t: int)
    requires
        member(targets, t),
    ensures
        normal_moves(s, targets).contains(make(Square::of(s), Square::of(t), MoveType::Normal)),
    decreases targets,
{
    lemma_member_zero(t);
    lemma_lowest(targets);
    lemma_drop_lowest(targets);
    let first = seq![make(Square::of(s), Square::of(lowest(targets)), MoveType::Normal)];
    let rest = normal_moves(s, drop_lowest(targets));
    if t == lowest(targets) {
        assert(first[0] == make(Square::of(s), Square::of(t), MoveType::Normal));
        lemma_has_left(first, rest, make(Square::of(s), Square::of(t), MoveType::Normal));
    } else {
        lemma_normal_has(s, drop_lowest(targets), t);
        lemma_has_right(first, rest, make(Square::of(s), Square::of(t), MoveType::Normal));
    }
}

/// The promotions to a set of squares hold the promotion on each of them to
/// a knight, a bishop, a rook and a queen.
pub proof fn lemma_promotions_have(s: int, targets: u64, t: int, kind: MoveType)
    requires
        member(targets, t),
        kind is Promotion,
        valid_kind(kind),
    ensures
        promotions_to(s, targets).contains(make(Square::of(s), Square::of(t), kind)),
    decreases targets,
{
    lemma_member_zero(t);
    lemma_lowest(targets);
    lemma_drop_lowest(targets);
    let first = promotion_moves(Square::of(s), Square::of(lowest(targets)));
    let rest = promotions_to(s, drop_lowest(targets));
    let m = make(Square::of(s), Square::of(t), kind);
    if t == lowest(targets) {
        assert(first[0] == make(
            Square::of(s),
            Square::of(t),
            MoveType::Promotion(PieceType::Queen),
        ));
        assert(first[1] == make(
            Square::of(s),
            Square::of(t),
            MoveType::Promotion(PieceType::Knight),
        ));
        assert(first[2] == make(
            Square::of(s),
            Square::of(t),
            MoveType::Promotion(PieceType::Bishop),
        ));
        assert(first[3] == make(
            Square::of(s),
            Square::of(t),
            MoveType::Promotion(PieceType::Rook),
        ));
        assert(first.contains(m));
        lemma_has_left(first, rest, m);
    } else {
        lemma_promotions_have(s, drop_lowest(targets), t, kind);
        lemma_has_right(first, rest, m);
    }
}

/// The moves of a pawn to a set of squares hold the normal move to each of
/// them that is not on the first or last rank, and the four promotions on
/// each that is.
pub proof fn lemma_pawn_moves_have(s: int, targets: u64, t: int, kind: MoveType)
    requires
        0 <= t < 64,
        member(targets, t),
        valid_kind(kind),
        if member(PROMOTION_SQUARES, t) {
            kind is Promotion
        } else {
            kind is Normal
        },
    ensures
        pawn_moves_to(s, targets).contains(make(Square::of(s), Square::of(t), kind)),
{
    let a = normal_moves(s, targets & !PROMOTION_SQUARES);
    let b = promotions_to(s, targets & PROMOTION_SQUARES);
    let m = make(Square::of(s), Square::of(t), kind);
    lemma_member_and(targets, !PROMOTION_SQUARES, t);
    lemma_member_and(targets, PROMOTION_SQUARES, t);
    lemma_member_not(PROMOTION_SQUARES, t);
    if member(PROMOTION_SQUARES, t) {
        lemma_promotions_have(s, targets & PROMOTION_SQUARES, t, kind);
        lemma_has_right(a, b, m);
    } else {
        lemma_normal_has(s, targets & !PROMOTION_SQUARES, t);
        lemma_has_left(a, b, m);
    }
}

/// The moves of the pieces on a set of squares hold the moves of the piece
/// on each of them.
pub proof fn lemma_moves_over_have(
    pos: Position,
    cs: CheckState,
    kind: PieceType,
    sources: u64,
    pinned: bool,
    s: int,
    m: ChessMove,
)
    requires
        member(sources, s),
        moves_from(pos, cs, kind, s, pinned).contains(m),
    ensures
        moves_over(pos, cs, kind, sources, pinned).contains(m),
    decreases sources,
{
    lemma_member_zero(s);
    lemma_lowest(sources);
    lemma_drop_lowest(sources);
    let first = moves_from(pos, cs, kind, lowest(sources), pinned);
    let rest = moves_over(pos, cs, kind, drop_lowest(sources), pinned);
    if s == lowest(sources) {
        lemma_has_left(first, rest, m);
    } else {
        lemma_moves_over_have(pos, cs, kind, drop_lowest(sources), pinned, s, m);
        lemma_has_right(first, rest, m);
    }
}

/// The en-passant captures by the pawns on a set of squares hold the capture
/// by each pawn that may make it.
pub proof fn lemma_ep_moves_have(pos: Position, cs: CheckState, sources: u64, s: int)
    requires
        member(sources, s),
        ep_allowed(pos, cs, s),
    ensures
        ep_moves_over(pos, cs, sources).contains(
            make(Square::of(s), Square::of(lowest(pos.ep)), MoveType::EnPassant),
        ),
    decreases sources,
{
    lemma_member_zero(s);
    lemma_lowest(sources);
    lemma_drop_lowest(sources);
    let m = make(Square::of(s), Square::of(lowest(pos.ep)), MoveType::EnPassant);
    let l = lowest(sources);
    let first = if ep_allowed(pos, cs, l) {
        seq![make(Square::of(l), Square::of(lowest(pos.ep)), MoveType::EnPassant)]
    } else {
        Seq::empty()
    };
    let rest = ep_moves_over(pos, cs, drop_lowest(sources));
    if s == l {
        assert(first[0] == m);
        lemma_has_left(first, rest, m);
    } else {
        lemma_ep_moves_have(pos, cs, drop_lowest(sources), s);
        lemma_has_right(first, rest, m);
    }
}

/// The king's steps to a set of squares hold the step to each of them that
/// the enemy does not attack once the king has left its square.
pub proof fn lemma_king_steps_have(pos: Position, targets: u64, t: int)
    requires
        member(targets, t),
        !attacked(pos, t, pos.side.flip(), kingless(pos)),
    ensures
        king_steps(pos, targets).contains(
            make(Square::of(pos.king_idx(pos.side)), Square::of(t), MoveType::Normal),
        ),
    decreases targets,
{
    lemma_member_zero(t);
    lemma_lowest(targets);
    lemma_drop_lowest(targets);
    let k = pos.king_idx(pos.side);
    let m = make(Square::of(k), Square::of(t), MoveType::Normal);
    let l = lowest(targets);
    let first = if !attacked(pos, l, pos.side.flip(), kingless(pos)) {
        seq![make(Square::of(k), Square::of(l), MoveType::Normal)]
    } else {
        Seq::empty()
    };
    let rest = king_steps(pos, drop_lowest(targets));
    if t == l {
        assert(first[0] == m);
        lemma_has_left(first, rest, m);
    } else {
        lemma_king_steps_have(pos, drop_lowest(targets), t);
        lemma_has_right(first, rest, m);
    }
}

/// The moves of the pieces of one kind hold the moves of each of them: of
/// one that is not pinned, and, while no piece gives check, of a pinned one
/// that is no knight.
pub proof fn lemma_piece_moves_have(
    pos: Position,
    cs: CheckState,
    kind: PieceType,
    s: int,
    m: ChessMove,
)
    requires
        0 <= s < 64,
        member(pos.pieces(ChessPiece(pos.side, kind)), s),
        moves_from(pos, cs, kind, s, member(cs.pinned, s)).contains(m),
        member(cs.pinned, s) ==> cs.checkers == 0 && kind != PieceType::Knight,
    ensures
        piece_moves(pos, cs, kind).contains(m),
{
    let own = pos.pieces(ChessPiece(pos.side, kind));
    let a = moves_over(pos, cs, kind, own & !cs.pinned, false);
    let b = pinned_moves(pos, cs, kind);
    lemma_member_and(own, !cs.pinned, s);
    lemma_member_and(own, cs.pinned, s);
    lemma_member_not(cs.pinned, s);
    if member(cs.pinned, s) {
        lemma_moves_over_have(pos, cs, kind, own & cs.pinned, true, s, m);
        lemma_has_right(a, b, m);
    } else {
        lemma_moves_over_have(pos, cs, kind, own & !cs.pinned, false, s, m);
        lemma_has_left(a, b, m);
    }
}

/// With at most one checker, the legal moves hold the moves of the pawns,
/// knights, bishops, rooks and queens.
pub proof fn lemma_legal_has_piece(pos: Position, kind: PieceType, m: ChessMove)
    requires
        check_state(pos).checkers == 0 || is_single(check_state(pos).checkers),
        kind != PieceType::King,
        piece_moves(pos, check_state(pos), kind).contains(m),
    ensures
        legal_moves(pos).contains(m),
{
    let cs = check_state(pos);
    let a = pawn_moves(pos, cs);
    let b = piece_moves(pos, cs, PieceType::Knight);
    let c = piece_moves(pos, cs, PieceType::Bishop);
    let d = piece_moves(pos, cs, PieceType::Rook);
    let e = piece_moves(pos, cs, PieceType::Queen);
    let f = king_moves(pos, cs);
    match kind {
        PieceType::Pawn => {
            lemma_has_left(
                piece_moves(pos, cs, PieceType::Pawn),
                crate::chessboard::movegen::ep_moves(pos, cs),
                m,
            );
            lemma_has_left(a, b, m);
            lemma_has_left(a + b, c, m);
            lemma_has_left(a + b + c, d, m);
            lemma_has_left(a + b + c + d, e, m);
        },
        PieceType::Knight => {
            lemma_has_right(a, b, m);
            lemma_has_left(a + b, c, m);
            lemma_has_left(a + b + c, d, m);
            lemma_has_left(a + b + c + d, e, m);
        },
        PieceType::Bishop => {
            lemma_has_right(a + b, c, m);
            lemma_has_left(a + b + c, d, m);
            lemma_has_left(a + b + c + d, e, m);
        },
        PieceType::Rook => {
            lemma_has_right(a + b + c, d, m);
            lemma_has_left(a + b + c + d, e, m);
        },
        _ => {
            lemma_has_right(a + b + c + d, e, m);
        },
    }
    lemma_has_left(a + b + c + d + e, f, m);
}

/// With at most one checker, the legal moves hold the en-passant captures.
pub proof fn lemma_legal_has_ep(pos: Position, m: ChessMove)
    requires
        check_state(pos).checkers == 0 || is_single(check_state(pos).checkers),
        crate::chessboard::movegen::ep_moves(pos, check_state(pos)).contains(m),
    ensures
        legal_moves(pos).contains(m),
{
    let cs = check_state(pos);
    let a = pawn_moves(pos, cs);
    let b = piece_moves(pos, cs, PieceType::Knight);
    let c = piece_moves(pos, cs, PieceType::Bishop);
    let d = piece_moves(pos, cs, PieceType::Rook);
    let e = piece_moves(pos, cs, PieceType::Queen);
    let f = king_moves(pos, cs);
    lemma_has_right(
        piece_moves(pos, cs, PieceType::Pawn),
        crate::chessboard::movegen::ep_moves(pos, cs),
        m,
    );
    lemma_has_left(a, b, m);
    lemma_has_left(a + b, c, m);
    lemma_has_left(a + b + c, d, m);
    lemma_has_left(a + b + c + d, e, m);
    lemma_has_left(a + b + c + d + e, f, m);
}

/// The legal moves hold the moves of the king.
pub proof fn lemma_legal_has_king(pos: Position, m: ChessMove)
    requires
        king_moves(pos, check_state(pos)).contains(m),
    ensures
        legal_moves(pos).contains(m),
{
    let cs = check_state(pos);
    if cs.checkers == 0 || is_single(cs.checkers) {
        let a = pawn_moves(pos, cs);
        let b = piece_moves(pos, cs, PieceType::Knight);
        let c = piece_moves(pos, cs, PieceType::Bishop);
        let d = piece_moves(pos, cs, PieceType::Rook);
        let e = piece_moves(pos, cs, PieceType::Queen);
        let f = king_moves(pos, cs);
        lemma_has_right(a + b + c + d + e, f, m);
    }
}

} // verus!
