//! No move stands twice in the list of the legal moves.

use vstd::prelude::*;
use crate::bitboard::PROMOTION_SQUARES;
use crate::bits::{
    drop_lowest, is_single, lemma_drop_lowest, lemma_is_single, lemma_lowest, lemma_member_and,
    lemma_member_not, lemma_member_single, lowest, member,
};
use crate::chessboard::check::{check_state, CheckState};
use crate::chessboard::movegen::{
    allowed, castle_if_legal, castles, ep_allowed, ep_moves, ep_moves_over, king_moves, king_steps,
    king_targets, kingless, legal_moves, moves_from, moves_over, normal_moves, pawn_moves,
    piece_moves, pinned_moves, promotions_to, reach,
};
use crate::chessboard::position::{lemma_occ_member, Position};
use crate::chessboard::{attacked, valid};
use crate::chessmove::{
    castle_move, lemma_make, make, promotion_moves, Castling, ChessMove, MoveType,
};
use crate::chesspiece::{ChessPiece, PieceType};
use crate::square::Square;

verus! {

/// How often a move stands in a list.
pub open spec fn times(ms: Seq<ChessMove>, m: ChessMove) -> nat
    decreases ms.len(),
{
    if ms.len() == 0 {
        0
    } else {
        times(ms.drop_last(), m) + if ms.last() == m {
            1nat
        } else {
            0nat
        }
    }
}

/// A move stands in the concatenation of two lists as often as in both together.
pub proof fn lemma_times_add(a: Seq<ChessMove>, b: Seq<ChessMove>, m: ChessMove)
    ensures
        times(a + b, m) == times(a, m) + times(b, m),
    decreases b.len(),
{
    if b.len() == 0 {
        assert(a + b =~= a);
    } else {
        assert((a + b).drop_last() =~= a + b.drop_last());
        assert((a + b).last() == b.last());
        lemma_times_add(a, b.drop_last(), m);
    }
}

/// A move stands once in the list that holds it alone, and no other move
/// stands in that list.
pub proof fn lemma_times_one(x: ChessMove, m: ChessMove)
    ensures
        times(seq![x], m) == if x == m {
            1nat
        } else {
            0nat
        },
        times(Seq::<ChessMove>::empty(), m) == 0,
{
    assert(seq![x].drop_last() =~= Seq::<ChessMove>::empty());
    assert(seq![x].last() == x);
    assert(times(seq![x].drop_last(), m) == 0);
}

/// A list in which no move stands more than once holds no move at two places.
pub proof fn lemma_times_apart(ms: Seq<ChessMove>, i: int, j: int)
    requires
        0 <= i < j < ms.len(),
        times(ms, ms[i]) <= 1,
    ensures
        ms[i] != ms[j],
    decreases ms.len(),
{
    let m = ms[i];
    let front = ms.drop_last();
    if j == ms.len() - 1 {
        lemma_times_has(front, i);
    } else {
        assert(front[i] == ms[i]);
        assert(front[j] == ms[j]);
        lemma_times_apart(front, i, j);
    }
}

/// A move that stands in a list stands in it at least once.
pub proof fn lemma_times_has(ms: Seq<ChessMove>, i: int)
    requires
        0 <= i < ms.len(),
    ensures
        times(ms, ms[i]) >= 1,
    decreases ms.len(),
{
    if i < ms.len() - 1 {
        assert(ms.drop_last()[i] == ms[i]);
        lemma_times_has(ms.drop_last(), i);
    }
}

/// A normal move stands at most once among the normal moves from a square,
/// and only if it goes from that square to one of the targets.
proof fn lemma_normal_once(s: int, targets: u64, m: ChessMove)
    requires
        0 <= s < 64,
    ensures
        times(normal_moves(s, targets), m) <= 1,
        times(normal_moves(s, targets), m) > 0 ==> m.kind() is Normal && m.source_idx() == s
            && member(targets, m.target_idx()),
    decreases targets,
{
    if targets == 0 {
        lemma_times_one(m, m);
    } else {
        lemma_lowest(targets);
        lemma_drop_lowest(targets);
        let l = lowest(targets);
        Square::lemma_of(s);
        Square::lemma_of(l);
        lemma_make(Square::of(s), Square::of(l), MoveType::Normal);
        let first = make(Square::of(s), Square::of(l), MoveType::Normal);
        let rest = normal_moves(s, drop_lowest(targets));
        lemma_times_add(seq![first], rest, m);
        lemma_times_one(first, m);
        lemma_normal_once(s, drop_lowest(targets), m);
    }
}

/// A promotion stands at most once among the promotions from a square, and
/// only if it goes from that square to one of the targets.
#[verifier::rlimit(30)]
proof fn lemma_promotion_once(s: int, targets: u64, m: ChessMove)
    requires
        0 <= s < 64,
    ensures
        times(promotions_to(s, targets), m) <= 1,
        times(promotions_to(s, targets), m) > 0 ==> m.kind() is Promotion && m.source_idx() == s
            && member(targets, m.target_idx()),
    decreases targets,
{
    if targets == 0 {
        lemma_times_one(m, m);
    } else {
        lemma_lowest(targets);
        lemma_drop_lowest(targets);
        let l = lowest(targets);
        Square::lemma_of(s);
        Square::lemma_of(l);
        let a = Square::of(s);
        let b = Square::of(l);
        lemma_make(a, b, MoveType::Promotion(PieceType::Queen));
        lemma_make(a, b, MoveType::Promotion(PieceType::Knight));
        lemma_make(a, b, MoveType::Promotion(PieceType::Bishop));
        lemma_make(a, b, MoveType::Promotion(PieceType::Rook));
        let q = make(a, b, MoveType::Promotion(PieceType::Queen));
        let n = make(a, b, MoveType::Promotion(PieceType::Knight));
        let bi = make(a, b, MoveType::Promotion(PieceType::Bishop));
        let r = make(a, b, MoveType::Promotion(PieceType::Rook));
        let first = promotion_moves(a, b);
        assert(first =~= seq![q] + seq![n] + seq![bi] + seq![r]);
        lemma_times_add(seq![q] + seq![n] + seq![bi], seq![r], m);
        lemma_times_add(seq![q] + seq![n], seq![bi], m);
        lemma_times_add(seq![q], seq![n], m);
        lemma_times_one(q, m);
        lemma_times_one(n, m);
        lemma_times_one(bi, m);
        lemma_times_one(r, m);
        let rest = promotions_to(s, drop_lowest(targets));
        lemma_times_add(first, rest, m);
        lemma_promotion_once(s, drop_lowest(targets), m);
    }
}

/// A move stands at most once among the moves of a piece, and only if it is
/// a normal move or a promotion from the piece's square.
proof fn lemma_from_once(
    pos: Position,
    cs: CheckState,
    kind: PieceType,
    s: int,
    pinned: bool,
    m: ChessMove,
)
    requires
        0 <= s < 64,
    ensures
        times(moves_from(pos, cs, kind, s, pinned), m) <= 1,
        times(moves_from(pos, cs, kind, s, pinned), m) > 0 ==> (m.kind() is Normal
            || m.kind() is Promotion) && m.source_idx() == s,
{
    let targets = reach(pos, kind, s) & allowed(pos, cs, s, pinned);
    if kind == PieceType::Pawn {
        let a = normal_moves(s, targets & !PROMOTION_SQUARES);
        let b = promotions_to(s, targets & PROMOTION_SQUARES);
        lemma_times_add(a, b, m);
        lemma_normal_once(s, targets & !PROMOTION_SQUARES, m);
        lemma_promotion_once(s, targets & PROMOTION_SQUARES, m);
    } else {
        lemma_normal_once(s, targets, m);
    }
}

/// A move stands at most once among the moves of the pieces on a set of
/// squares, and only if it is a normal move or a promotion from one of them.
proof fn lemma_over_once(
    pos: Position,
    cs: CheckState,
    kind: PieceType,
    sources: u64,
    pinned: bool,
    m: ChessMove,
)
    ensures
        times(moves_over(pos, cs, kind, sources, pinned), m) <= 1,
        times(moves_over(pos, cs, kind, sources, pinned), m) > 0 ==> (m.kind() is Normal
            || m.kind() is Promotion) && member(sources, m.source_idx()),
    decreases sources,
{
    if sources == 0 {
        lemma_times_one(m, m);
    } else {
        lemma_lowest(sources);
        lemma_drop_lowest(sources);
        let s = lowest(sources);
        let first = moves_from(pos, cs, kind, s, pinned);
        let rest = moves_over(pos, cs, kind, drop_lowest(sources), pinned);
        lemma_times_add(first, rest, m);
        lemma_from_once(pos, cs, kind, s, pinned, m);
        lemma_over_once(pos, cs, kind, drop_lowest(sources), pinned, m);
    }
}

/// A move stands at most once among the moves of the pieces of one kind,
/// and only if it is a normal move or a promotion of such a piece.
proof fn lemma_piece_once(pos: Position, cs: CheckState, kind: PieceType, m: ChessMove)
    ensures
        times(piece_moves(pos, cs, kind), m) <= 1,
        times(piece_moves(pos, cs, kind), m) > 0 ==> (m.kind() is Normal || m.kind() is Promotion)
            && pos.board[m.source_idx()] == Some(ChessPiece(pos.side, kind)),
{
    let own = pos.pieces(ChessPiece(pos.side, kind));
    let a = moves_over(pos, cs, kind, own & !cs.pinned, false);
    let b = pinned_moves(pos, cs, kind);
    lemma_times_add(a, b, m);
    lemma_over_once(pos, cs, kind, own & !cs.pinned, false, m);
    lemma_over_once(pos, cs, kind, own & cs.pinned, true, m);
    lemma_times_one(m, m);
    let s = m.source_idx();
    lemma_member_and(own, !cs.pinned, s);
    lemma_member_and(own, cs.pinned, s);
    lemma_member_not(cs.pinned, s);
    lemma_occ_member(pos.board, ChessPiece(pos.side, kind), s);
}

/// A move stands at most once among the en-passant captures, and only if it
/// is an en-passant capture.
proof fn lemma_ep_once(pos: Position, cs: CheckState, sources: u64, m: ChessMove)
    requires
        valid(pos),
        pos.ep != 0,
    ensures
        times(ep_moves_over(pos, cs, sources), m) <= 1,
        times(ep_moves_over(pos, cs, sources), m) > 0 ==> m.kind() is EnPassant && member(
            sources,
            m.source_idx(),
        ),
    decreases sources,
{
    if sources == 0 {
        lemma_times_one(m, m);
    } else {
        lemma_lowest(sources);
        lemma_drop_lowest(sources);
        lemma_is_single(pos.ep);
        let s = lowest(sources);
        let e = lowest(pos.ep);
        Square::lemma_of(s);
        Square::lemma_of(e);
        lemma_make(Square::of(s), Square::of(e), MoveType::EnPassant);
        let x = make(Square::of(s), Square::of(e), MoveType::EnPassant);
        let first: Seq<ChessMove> = if ep_allowed(pos, cs, s) {
            seq![x]
        } else {
            Seq::empty()
        };
        let rest = ep_moves_over(pos, cs, drop_lowest(sources));
        lemma_times_add(first, rest, m);
        lemma_times_one(x, m);
        lemma_ep_once(pos, cs, drop_lowest(sources), m);
    }
}

/// A move stands at most once among the king's steps, and only if it is a
/// normal move from the king's square.
proof fn lemma_steps_once(pos: Position, targets: u64, m: ChessMove)
    requires
        valid(pos),
    ensures
        times(king_steps(pos, targets), m) <= 1,
        times(king_steps(pos, targets), m) > 0 ==> m.kind() is Normal && m.source_idx()
            == pos.king_idx(pos.side) && member(targets, m.target_idx()),
    decreases targets,
{
    if targets == 0 {
        lemma_times_one(m, m);
    } else {
        lemma_lowest(targets);
        lemma_drop_lowest(targets);
        lemma_is_single(pos.pieces(ChessPiece(pos.side, PieceType::King)));
        let k = pos.king_idx(pos.side);
        let l = lowest(targets);
        Square::lemma_of(k);
        Square::lemma_of(l);
        lemma_make(Square::of(k), Square::of(l), MoveType::Normal);
        let x = make(Square::of(k), Square::of(l), MoveType::Normal);
        let first: Seq<ChessMove> = if !attacked(pos, l, pos.side.flip(), kingless(pos)) {
            seq![x]
        } else {
            Seq::empty()
        };
        let rest = king_steps(pos, drop_lowest(targets));
        lemma_times_add(first, rest, m);
        lemma_times_one(x, m);
        lemma_steps_once(pos, drop_lowest(targets), m);
    }
}

/// A move stands at most once among the castles, and only if it is a castle.
proof fn lemma_castles_once(pos: Position, cs: CheckState, m: ChessMove)
    ensures
        times(castles(pos, cs), m) <= 1,
        times(castles(pos, cs), m) > 0 ==> m.kind() is Castle,
{
    let ks = Castling::Kingside(pos.side);
    let qs = Castling::Queenside(pos.side);
    lemma_make(Square::E1, Square::G1, MoveType::Castle(ks));
    lemma_make(Square::E1, Square::C1, MoveType::Castle(qs));
    lemma_make(Square::E8, Square::G8, MoveType::Castle(ks));
    lemma_make(Square::E8, Square::C8, MoveType::Castle(qs));
    lemma_times_one(castle_move(ks), m);
    lemma_times_one(castle_move(qs), m);
    lemma_times_add(castle_if_legal(pos, ks), castle_if_legal(pos, qs), m);
}

/// No move stands twice in the list of the legal moves of a valid position.
pub proof fn lemma_listed_once(pos: Position, m: ChessMove)
    requires
        valid(pos),
    ensures
        times(legal_moves(pos), m) <= 1,
{
    let cs = check_state(pos);
    let side = pos.side;
    lemma_is_single(pos.pieces(ChessPiece(side, PieceType::King)));
    let k = pos.king_idx(side);
    lemma_occ_member(pos.board, ChessPiece(side, PieceType::King), k);
    lemma_member_single(k, k);
    let steps = king_steps(pos, king_targets(pos));
    lemma_steps_once(pos, king_targets(pos), m);
    lemma_castles_once(pos, cs, m);
    lemma_times_add(steps, castles(pos, cs), m);
    if cs.checkers == 0 || is_single(cs.checkers) {
        let a0 = piece_moves(pos, cs, PieceType::Pawn);
        let a1 = ep_moves(pos, cs);
        let a = pawn_moves(pos, cs);
        let b = piece_moves(pos, cs, PieceType::Knight);
        let c = piece_moves(pos, cs, PieceType::Bishop);
        let d = piece_moves(pos, cs, PieceType::Rook);
        let e = piece_moves(pos, cs, PieceType::Queen);
        let f = king_moves(pos, cs);
        lemma_piece_once(pos, cs, PieceType::Pawn, m);
        if pos.ep != 0 {
            lemma_ep_once(
                pos,
                cs,
                crate::attack::init::pawn_attacks(side.flip(), lowest(pos.ep)) & pos.pieces(
                    ChessPiece(side, PieceType::Pawn),
                ),
                m,
            );
        } else {
            lemma_times_one(m, m);
        }
        lemma_times_add(a0, a1, m);
        lemma_piece_once(pos, cs, PieceType::Knight, m);
        lemma_piece_once(pos, cs, PieceType::Bishop, m);
        lemma_piece_once(pos, cs, PieceType::Rook, m);
        lemma_piece_once(pos, cs, PieceType::Queen, m);
        lemma_times_add(a, b, m);
        lemma_times_add(a + b, c, m);
        lemma_times_add(a + b + c, d, m);
        lemma_times_add(a + b + c + d, e, m);
        lemma_times_add(a + b + c + d + e, f, m);
    }
}

/// The list of the legal moves of a valid position holds no move at two places.
pub proof fn lemma_no_duplicates(pos: Position)
    requires
        valid(pos),
    ensures
        legal_moves(pos).no_duplicates(),
{
    let ms = legal_moves(pos);
    assert forall|i: int, j: int| 0 <= i < ms.len() && 0 <= j < ms.len() && i != j implies ms[i]
        != ms[j] by {
        if i < j {
            lemma_listed_once(pos, ms[i]);
            lemma_times_apart(ms, i, j);
        } else {
            lemma_listed_once(pos, ms[j]);
            lemma_times_apart(ms, j, i);
        }
    }
}

} // verus!
