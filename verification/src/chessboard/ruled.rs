//! Every generated move follows the rules.

use vstd::prelude::*;
use crate::attack::init::{
    bishop_attacks, king_attacks, knight_attacks, pawn_attacks, queen_attacks, rook_attacks,
};
use crate::attack::long_line;
use crate::bitboard::PROMOTION_SQUARES;
use crate::bits::{
    drop_lowest, is_single, lemma_drop_lowest, lemma_is_single, lemma_lowest, lemma_member_and,
    lemma_member_not, lemma_member_or, lemma_member_single, lemma_member_zero, lowest, member,
};
use crate::chessboard::check::{check_state, CheckState};
use crate::chessboard::checks::{lemma_checkers, threats};
use crate::chessboard::ep_listed::lemma_pawn_attack_back;
use crate::chessboard::laws::{
    lemma_castle, lemma_target_free, lemma_within_and, lemma_within_drop, within,
};
use crate::chessboard::legality::{lemma_normal_form, lemma_promotion_form};
use crate::chessboard::movegen::{
    allowed, castle_if_legal, castles, ep_allowed, ep_moves, ep_moves_over, king_moves, king_steps,
    king_targets, kingless, legal_moves, moves_from, moves_over, normal_moves, pawn_moves,
    piece_moves, pinned_moves, reach, target_mask,
};
use crate::chessboard::position::{lemma_occ_member, Position};
use crate::chessboard::rules::{follows_rules, in_check, kings_apart};
use crate::chessboard::{attacked, castle_legal, ep_ok, valid};
use crate::chessmove::{castle_move, lemma_make, make, Castling, ChessMove, MoveType};
use crate::chesspiece::{ChessPiece, PieceType, Side};
use crate::square::Square;

verus! {

/// What holds of a generated move: it follows the rules, and a step of the
/// king ends on a square that the enemy does not attack once the king has
/// left its square.
pub open spec fn ruled(pos: Position, m: ChessMove) -> bool {
    &&& follows_rules(pos, m)
    &&& (pos.piece_at(m.source_idx()).1 == PieceType::King && m.kind() is Normal ==> !attacked(
        pos,
        m.target_idx(),
        pos.side.flip(),
        kingless(pos),
    ))
}

/// Whether `ruled` holds of every move of a list.
pub open spec fn all_ruled(pos: Position, ms: Seq<ChessMove>) -> bool {
    forall|i: int| 0 <= i < ms.len() ==> ruled(pos, #[trigger] ms[i])
}

/// What holds of every move of two lists holds of every move of their concatenation.
proof fn lemma_all_ruled_add(pos: Position, a: Seq<ChessMove>, b: Seq<ChessMove>)
    requires
        all_ruled(pos, a),
        all_ruled(pos, b),
    ensures
        all_ruled(pos, a + b),
{
    assert forall|i: int| 0 <= i < (a + b).len() implies ruled(pos, #[trigger] (a + b)[i]) by {
        if i < a.len() {
            assert((a + b)[i] == a[i]);
        } else {
            assert((a + b)[i] == b[i - a.len()]);
        }
    }
}

/// A king that no enemy pawn, knight, bishop, rook or queen attacks, and
/// that the enemy king does not stand next to, is not in check.
pub proof fn lemma_threats_attacked(p: Position, side: Side)
    requires
        threats(p, side) == 0,
        king_attacks(p.king_idx(side)) & p.pieces(ChessPiece(side.flip(), PieceType::King)) == 0,
    ensures
        !in_check(p, side),
{
    let king = p.king_idx(side);
    let enemy = side.flip();
    let occ = p.occ();
    let pw = p.pieces(ChessPiece(enemy, PieceType::Pawn));
    let pn = p.pieces(ChessPiece(enemy, PieceType::Knight));
    let pb = p.pieces(ChessPiece(enemy, PieceType::Bishop));
    let pr = p.pieces(ChessPiece(enemy, PieceType::Rook));
    let pq = p.pieces(ChessPiece(enemy, PieceType::Queen));
    let b = bishop_attacks(king, occ);
    let r = rook_attacks(king, occ);
    let hit = if pawn_attacks(side, king) & pw != 0 {
        pawn_attacks(side, king) & pw
    } else if knight_attacks(king) & pn != 0 {
        knight_attacks(king) & pn
    } else if b & pb != 0 {
        b & pb
    } else if r & pr != 0 {
        r & pr
    } else {
        queen_attacks(king, occ) & pq
    };
    if hit != 0 {
        lemma_lowest(hit);
        let x = lowest(hit);
        lemma_member_zero(x);
        lemma_member_or(
            (pawn_attacks(side, king) & pw) | (knight_attacks(king) & pn),
            (b & (pq | pb)) | (r & (pq | pr)),
            x,
        );
        lemma_member_or(pawn_attacks(side, king) & pw, knight_attacks(king) & pn, x);
        lemma_member_or(b & (pq | pb), r & (pq | pr), x);
        lemma_member_and(pawn_attacks(side, king), pw, x);
        lemma_member_and(knight_attacks(king), pn, x);
        lemma_member_and(b, pq | pb, x);
        lemma_member_and(r, pq | pr, x);
        lemma_member_or(pq, pb, x);
        lemma_member_or(pq, pr, x);
        lemma_member_and(b, pb, x);
        lemma_member_and(r, pr, x);
        lemma_member_and(queen_attacks(king, occ), pq, x);
        lemma_member_or(b, r, x);
    }
}

/// Every move of a piece other than the king follows the rules.
proof fn lemma_moves_from_ruled(
    pos: Position,
    cs: CheckState,
    kind: PieceType,
    s: int,
    pinned: bool,
    i: int,
)
    requires
        valid(pos),
        0 <= s < 64,
        pos.board[s] == Some(ChessPiece(pos.side, kind)),
        kind != PieceType::King,
        0 <= i < moves_from(pos, cs, kind, s, pinned).len(),
    ensures
        ruled(pos, moves_from(pos, cs, kind, s, pinned)[i]),
{
    let m = moves_from(pos, cs, kind, s, pinned)[i];
    let targets = reach(pos, kind, s) & allowed(pos, cs, s, pinned);
    if kind == PieceType::Pawn {
        let a = normal_moves(s, targets & !PROMOTION_SQUARES);
        if i < a.len() {
            lemma_normal_form(s, targets & !PROMOTION_SQUARES, i);
            lemma_member_and(targets, !PROMOTION_SQUARES, m.target_idx());
            lemma_member_not(PROMOTION_SQUARES, m.target_idx());
        } else {
            lemma_promotion_form(s, targets & PROMOTION_SQUARES, i - a.len());
            lemma_member_and(targets, PROMOTION_SQUARES, m.target_idx());
        }
    } else {
        lemma_normal_form(s, targets, i);
    }
    let t = m.target_idx();
    assert(member(targets, t));
    Square::lemma_of(s);
    Square::lemma_of(t);
    lemma_make(Square::of(s), Square::of(t), m.kind());
    lemma_member_and(reach(pos, kind, s), allowed(pos, cs, s, pinned), t);
    lemma_member_and(target_mask(pos, cs), long_line(pos.king_idx(pos.side), s), t);
    lemma_target_free(pos, cs.mask, t);
}

/// Every move of the pieces of one kind on a set of squares follows the rules.
proof fn lemma_moves_over_ruled(
    pos: Position,
    cs: CheckState,
    kind: PieceType,
    sources: u64,
    pinned: bool,
    i: int,
)
    requires
        valid(pos),
        kind != PieceType::King,
        within(sources, pos.pieces(ChessPiece(pos.side, kind))),
        0 <= i < moves_over(pos, cs, kind, sources, pinned).len(),
    ensures
        ruled(pos, moves_over(pos, cs, kind, sources, pinned)[i]),
    decreases sources,
{
    if sources != 0 {
        lemma_lowest(sources);
        lemma_drop_lowest(sources);
        lemma_within_drop(sources, pos.pieces(ChessPiece(pos.side, kind)));
        let s = lowest(sources);
        lemma_occ_member(pos.board, ChessPiece(pos.side, kind), s);
        let here = moves_from(pos, cs, kind, s, pinned);
        if i < here.len() {
            lemma_moves_from_ruled(pos, cs, kind, s, pinned, i);
        } else {
            lemma_moves_over_ruled(pos, cs, kind, drop_lowest(sources), pinned, i - here.len());
        }
    }
}

/// Every move of the pieces of one kind follows the rules.
proof fn lemma_piece_moves_ruled(pos: Position, cs: CheckState, kind: PieceType)
    requires
        valid(pos),
        kind != PieceType::King,
    ensures
        all_ruled(pos, piece_moves(pos, cs, kind)),
{
    let own = pos.pieces(ChessPiece(pos.side, kind));
    let a = moves_over(pos, cs, kind, own & !cs.pinned, false);
    let b = pinned_moves(pos, cs, kind);
    lemma_within_and(own, !cs.pinned);
    lemma_within_and(own, cs.pinned);
    assert(all_ruled(pos, a)) by {
        assert forall|i: int| 0 <= i < a.len() implies ruled(pos, #[trigger] a[i]) by {
            lemma_moves_over_ruled(pos, cs, kind, own & !cs.pinned, false, i);
        }
    }
    assert(all_ruled(pos, b)) by {
        assert forall|i: int| 0 <= i < b.len() implies ruled(pos, #[trigger] b[i]) by {
            lemma_moves_over_ruled(pos, cs, kind, own & cs.pinned, true, i);
        }
    }
    lemma_all_ruled_add(pos, a, b);
}

/// Every en-passant capture follows the rules.
proof fn lemma_ep_moves_over_ruled(pos: Position, cs: CheckState, sources: u64, i: int)
    requires
        valid(pos),
        pos.ep != 0,
        within(sources, pos.pieces(ChessPiece(pos.side, PieceType::Pawn))),
        within(sources, pawn_attacks(pos.side.flip(), lowest(pos.ep))),
        0 <= i < ep_moves_over(pos, cs, sources).len(),
    ensures
        ruled(pos, ep_moves_over(pos, cs, sources)[i]),
    decreases sources,
{
    if sources != 0 {
        lemma_lowest(sources);
        lemma_drop_lowest(sources);
        lemma_within_drop(sources, pos.pieces(ChessPiece(pos.side, PieceType::Pawn)));
        lemma_within_drop(sources, pawn_attacks(pos.side.flip(), lowest(pos.ep)));
        let s = lowest(sources);
        let e = lowest(pos.ep);
        lemma_occ_member(pos.board, ChessPiece(pos.side, PieceType::Pawn), s);
        let here: Seq<ChessMove> = if ep_allowed(pos, cs, s) {
            seq![make(Square::of(s), Square::of(e), MoveType::EnPassant)]
        } else {
            Seq::empty()
        };
        if i < here.len() {
            lemma_lowest(pos.ep);
            assert(ep_ok(pos));
            Square::lemma_of(s);
            Square::lemma_of(e);
            lemma_make(Square::of(s), Square::of(e), MoveType::EnPassant);
            lemma_pawn_attack_back(pos.side.flip(), e, s);
        } else {
            lemma_ep_moves_over_ruled(pos, cs, drop_lowest(sources), i - here.len());
        }
    }
}

/// Every step of the king follows the rules and ends on a square that the
/// enemy does not attack once the king has left its square.
proof fn lemma_king_steps_ruled(pos: Position, targets: u64, i: int)
    requires
        valid(pos),
        within(targets, king_targets(pos)),
        0 <= i < king_steps(pos, targets).len(),
    ensures
        ruled(pos, king_steps(pos, targets)[i]),
    decreases targets,
{
    if targets != 0 {
        lemma_lowest(targets);
        lemma_drop_lowest(targets);
        lemma_within_drop(targets, king_targets(pos));
        let t = lowest(targets);
        let king_bb = pos.pieces(ChessPiece(pos.side, PieceType::King));
        lemma_is_single(king_bb);
        let k = pos.king_idx(pos.side);
        lemma_occ_member(pos.board, ChessPiece(pos.side, PieceType::King), k);
        lemma_member_single(k, k);
        let here: Seq<ChessMove> = if !attacked(pos, t, pos.side.flip(), kingless(pos)) {
            seq![make(Square::of(k), Square::of(t), MoveType::Normal)]
        } else {
            Seq::empty()
        };
        if i < here.len() {
            Square::lemma_of(k);
            Square::lemma_of(t);
            lemma_make(Square::of(k), Square::of(t), MoveType::Normal);
            lemma_target_free(pos, king_attacks(k), t);
        } else {
            lemma_king_steps_ruled(pos, drop_lowest(targets), i - here.len());
        }
    }
}

/// A castle that the generator makes follows the rules.
proof fn lemma_castle_ruled(pos: Position, c: Castling)
    requires
        valid(pos),
        kings_apart(pos),
        check_state(pos).checkers == 0,
        c.side() == pos.side,
    ensures
        all_ruled(pos, castle_if_legal(pos, c)),
{
    if castle_legal(pos, c) {
        lemma_castle(pos, c);
        lemma_checkers(pos);
        lemma_threats_attacked(pos, pos.side);
        lemma_make(Square::E1, Square::G1, MoveType::Castle(c));
        lemma_make(Square::E1, Square::C1, MoveType::Castle(c));
        lemma_make(Square::E8, Square::G8, MoveType::Castle(c));
        lemma_make(Square::E8, Square::C8, MoveType::Castle(c));
        let king_bb = pos.pieces(ChessPiece(pos.side, PieceType::King));
        lemma_is_single(king_bb);
        lemma_occ_member(pos.board, ChessPiece(pos.side, PieceType::King), pos.king_idx(pos.side));
        lemma_member_single(pos.king_idx(pos.side), pos.king_idx(pos.side));
        assert(ruled(pos, castle_move(c)));
    }
}

/// Every legal move follows the rules, and a step of the king ends on a
/// square that the enemy does not attack once the king has left its square.
pub proof fn lemma_legal_ruled(pos: Position)
    requires
        valid(pos),
        kings_apart(pos),
    ensures
        all_ruled(pos, legal_moves(pos)),
{
    let cs = check_state(pos);
    let side = pos.side;
    let steps = king_steps(pos, king_targets(pos));
    assert(all_ruled(pos, steps)) by {
        assert forall|i: int| 0 <= i < steps.len() implies ruled(pos, #[trigger] steps[i]) by {
            lemma_king_steps_ruled(pos, king_targets(pos), i);
        }
    }
    assert(all_ruled(pos, castles(pos, cs))) by {
        if cs.checkers == 0 {
            lemma_castle_ruled(pos, Castling::Kingside(side));
            lemma_castle_ruled(pos, Castling::Queenside(side));
            lemma_all_ruled_add(
                pos,
                castle_if_legal(pos, Castling::Kingside(side)),
                castle_if_legal(pos, Castling::Queenside(side)),
            );
        }
    }
    lemma_all_ruled_add(pos, steps, castles(pos, cs));
    if cs.checkers == 0 || is_single(cs.checkers) {
        let a0 = piece_moves(pos, cs, PieceType::Pawn);
        let a1 = ep_moves(pos, cs);
        let a = pawn_moves(pos, cs);
        let b = piece_moves(pos, cs, PieceType::Knight);
        let c = piece_moves(pos, cs, PieceType::Bishop);
        let d = piece_moves(pos, cs, PieceType::Rook);
        let e = piece_moves(pos, cs, PieceType::Queen);
        let f = king_moves(pos, cs);
        lemma_piece_moves_ruled(pos, cs, PieceType::Pawn);
        assert(all_ruled(pos, a1)) by {
            if pos.ep != 0 {
                let pawns = pos.pieces(ChessPiece(side, PieceType::Pawn));
                let from = pawn_attacks(side.flip(), lowest(pos.ep));
                lemma_within_and(from, pawns);
                assert forall|i: int| 0 <= i < a1.len() implies ruled(pos, #[trigger] a1[i]) by {
                    lemma_ep_moves_over_ruled(pos, cs, from & pawns, i);
                }
            }
        }
        lemma_all_ruled_add(pos, a0, a1);
        lemma_piece_moves_ruled(pos, cs, PieceType::Knight);
        lemma_piece_moves_ruled(pos, cs, PieceType::Bishop);
        lemma_piece_moves_ruled(pos, cs, PieceType::Rook);
        lemma_piece_moves_ruled(pos, cs, PieceType::Queen);
        lemma_all_ruled_add(pos, a, b);
        lemma_all_ruled_add(pos, a + b, c);
        lemma_all_ruled_add(pos, a + b + c, d);
        lemma_all_ruled_add(pos, a + b + c + d, e);
        lemma_all_ruled_add(pos, a + b + c + d + e, f);
    }
}

} // verus!
