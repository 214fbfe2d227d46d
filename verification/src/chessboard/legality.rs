//! No generated move leaves the mover's king attacked.

use vstd::prelude::*;
use crate::attack::init::{
    bishop_attacks, knight_attacks, pawn_attacks, queen_attacks, rook_attacks,
};

use crate::bitboard::PROMOTION_SQUARES;
use crate::bits::{
    drop_lowest, is_single, lemma_drop_lowest, lemma_lowest, lemma_member_and, lemma_member_not,
    lemma_member_or, lemma_member_single, lemma_member_zero, lemma_single, lowest, member, single,
};
use crate::chessboard::castle_safe::lemma_castle_safe;
use crate::chessboard::check::{check_state, CheckState};
use crate::chessboard::checks::threats;
use crate::chessboard::ep_safe::{ep_shielded, ep_source, lemma_ep_safe};
use crate::chessboard::laws::{lemma_within_and, lemma_within_drop, within};
use crate::chessboard::movegen::{
    allowed, castle_if_legal, castles, ep_allowed, ep_moves, ep_moves_over, king_moves, king_steps,
    king_targets, kingless, legal_moves, moves_from, moves_over, normal_moves, pawn_moves,
    piece_moves, pinned_moves, promotions_to, reach, target_mask,
};
use crate::chessboard::pinned::lemma_line_move_safe;
use crate::chessboard::position::{lemma_occ_member, Position};
use crate::chessboard::safety::lemma_king_step_safe;
use crate::chessboard::soundness::lemma_unpinned_move_safe;
use crate::chessboard::updatestate::apply;
use crate::chessboard::{attacked, castle_legal, king_target, valid};
use crate::chessmove::{castle_move, lemma_make, make, valid_kind, Castling, ChessMove, MoveType};
use crate::chesspiece::{ChessPiece, PieceType, Side};
use crate::square::Square;

verus! {

/// Whether no pawn, knight, bishop, rook or queen of the enemy attacks the
/// mover's king after the move.
pub open spec fn safe_after(pos: Position, m: ChessMove) -> bool {
    threats(apply(pos, m), pos.side) == 0
}

/// Whether `safe_after` holds of every move of a list.
pub open spec fn all_safe(pos: Position, ms: Seq<ChessMove>) -> bool {
    forall|i: int| 0 <= i < ms.len() ==> safe_after(pos, #[trigger] ms[i])
}

/// What holds of every move of two lists holds of every move of their concatenation.
proof fn lemma_all_safe_add(pos: Position, a: Seq<ChessMove>, b: Seq<ChessMove>)
    requires
        all_safe(pos, a),
        all_safe(pos, b),
    ensures
        all_safe(pos, a + b),
{
    assert forall|i: int| 0 <= i < (a + b).len() implies safe_after(pos, #[trigger] (a + b)[i]) by {
        if i < a.len() {
            assert((a + b)[i] == a[i]);
        } else {
            assert((a + b)[i] == b[i - a.len()]);
        }
    }
}

/// A king that the enemy does not attack is attacked by no enemy pawn,
/// knight, bishop, rook or queen.
pub proof fn lemma_attacked_threats(p: Position, side: Side)
    requires
        !attacked(p, p.king_idx(side), side.flip(), p.occ()),
    ensures
        threats(p, side) == 0,
{
    let king = p.king_idx(side);
    let enemy = side.flip();
    let occ = p.occ();
    let pw = p.pieces(ChessPiece(enemy, PieceType::Pawn));
    let pn = p.pieces(ChessPiece(enemy, PieceType::Knight));
    let pb = p.pieces(ChessPiece(enemy, PieceType::Bishop));
    let pr = p.pieces(ChessPiece(enemy, PieceType::Rook));
    let pq = p.pieces(ChessPiece(enemy, PieceType::Queen));
    let b = bishop_attacks(king, occ);
    let r = rook_attacks(king, occ);
    let th = threats(p, side);
    if th != 0 {
        lemma_lowest(th);
        let x = lowest(th);
        lemma_member_zero(x);
        lemma_member_or(
            (pawn_attacks(side, king) & pw) | (knight_attacks(king) & pn),
            (b & (pq | pb)) | (r & (pq | pr)),
            x,
        );
        lemma_member_or(pawn_attacks(side, king) & pw, knight_attacks(king) & pn, x);
        lemma_member_or(b & (pq | pb), r & (pq | pr), x);
        lemma_member_and(b, pq | pb, x);
        lemma_member_and(r, pq | pr, x);
        lemma_member_or(pq, pb, x);
        lemma_member_or(pq, pr, x);
        lemma_member_and(b, pb, x);
        lemma_member_and(r, pr, x);
        lemma_member_and(queen_attacks(king, occ), pq, x);
        lemma_member_or(b, r, x);
    }
}

/// Every move of `normal_moves` is the normal move from the source to one of the targets.
pub proof fn lemma_normal_form(s: int, targets: u64, i: int)
    requires
        0 <= s < 64,
        0 <= i < normal_moves(s, targets).len(),
    ensures
        ({
            let m = normal_moves(s, targets)[i];
            &&& member(targets, m.target_idx())
            &&& m == make(Square::of(s), Square::of(m.target_idx()), MoveType::Normal)
        }),
    decreases targets,
{
    if targets != 0 {
        lemma_lowest(targets);
        lemma_drop_lowest(targets);
        Square::lemma_of(s);
        Square::lemma_of(lowest(targets));
        lemma_make(Square::of(s), Square::of(lowest(targets)), MoveType::Normal);
        if i > 0 {
            lemma_normal_form(s, drop_lowest(targets), i - 1);
        }
    }
}

/// Every move of `promotions_to` is a promotion from the source to one of the targets.
pub proof fn lemma_promotion_form(s: int, targets: u64, i: int)
    requires
        0 <= s < 64,
        0 <= i < promotions_to(s, targets).len(),
    ensures
        ({
            let m = promotions_to(s, targets)[i];
            &&& member(targets, m.target_idx())
            &&& m.kind() is Promotion
            &&& valid_kind(m.kind())
            &&& m == make(Square::of(s), Square::of(m.target_idx()), m.kind())
        }),
    decreases targets,
{
    if targets != 0 {
        lemma_lowest(targets);
        lemma_drop_lowest(targets);
        Square::lemma_of(s);
        Square::lemma_of(lowest(targets));
        let a = Square::of(s);
        let b = Square::of(lowest(targets));
        lemma_make(a, b, MoveType::Promotion(PieceType::Queen));
        lemma_make(a, b, MoveType::Promotion(PieceType::Knight));
        lemma_make(a, b, MoveType::Promotion(PieceType::Bishop));
        lemma_make(a, b, MoveType::Promotion(PieceType::Rook));
        if i >= 4 {
            lemma_promotion_form(s, drop_lowest(targets), i - 4);
        }
    }
}

/// Whether the pieces of kind `kind` on the squares of `sources` are moved
/// as the generator moves them: those that are not pinned while at most one
/// piece gives check, those that are pinned while none does, and knights
/// only if they are not pinned.
pub open spec fn moved_rightly(
    pos: Position,
    cs: CheckState,
    kind: PieceType,
    sources: u64,
    pinned: bool,
) -> bool {
    &&& cs == check_state(pos)
    &&& kind != PieceType::King
    &&& within(sources, pos.pieces(ChessPiece(pos.side, kind)))
    &&& if pinned {
        cs.checkers == 0 && kind != PieceType::Knight
    } else {
        (cs.checkers == 0 || is_single(cs.checkers)) && within(sources, !cs.pinned)
    }
}

/// No move of a piece other than the king leaves the king attacked.
proof fn lemma_moves_from_safe(
    pos: Position,
    cs: CheckState,
    kind: PieceType,
    s: int,
    pinned: bool,
    i: int,
)
    requires
        valid(pos),
        moved_rightly(pos, cs, kind, single(s), pinned),
        0 <= s < 64,
        0 <= i < moves_from(pos, cs, kind, s, pinned).len(),
    ensures
        safe_after(pos, moves_from(pos, cs, kind, s, pinned)[i]),
{
    let m = moves_from(pos, cs, kind, s, pinned)[i];
    let targets = reach(pos, kind, s) & allowed(pos, cs, s, pinned);
    lemma_member_single(s, s);
    lemma_occ_member(pos.board, ChessPiece(pos.side, kind), s);
    lemma_member_not(cs.pinned, s);
    if kind == PieceType::Pawn {
        let a = normal_moves(s, targets & !PROMOTION_SQUARES);
        if i < a.len() {
            lemma_normal_form(s, targets & !PROMOTION_SQUARES, i);
            lemma_member_and(targets, !PROMOTION_SQUARES, m.target_idx());
        } else {
            lemma_promotion_form(s, targets & PROMOTION_SQUARES, i - a.len());
            lemma_member_and(targets, PROMOTION_SQUARES, m.target_idx());
        }
    } else {
        lemma_normal_form(s, targets, i);
    }
    let t = m.target_idx();
    assert(member(targets, t));
    assert(m == make(Square::of(s), Square::of(t), m.kind()));
    if pinned {
        lemma_line_move_safe(pos, kind, s, t, m.kind());
    } else {
        lemma_member_and(reach(pos, kind, s), target_mask(pos, cs), t);
        lemma_unpinned_move_safe(pos, s, t, m.kind());
    }
}

/// No move of the pieces of one kind on a set of squares leaves the king attacked.
proof fn lemma_moves_over_safe(
    pos: Position,
    cs: CheckState,
    kind: PieceType,
    sources: u64,
    pinned: bool,
    i: int,
)
    requires
        valid(pos),
        moved_rightly(pos, cs, kind, sources, pinned),
        0 <= i < moves_over(pos, cs, kind, sources, pinned).len(),
    ensures
        safe_after(pos, moves_over(pos, cs, kind, sources, pinned)[i]),
    decreases sources,
{
    if sources != 0 {
        lemma_lowest(sources);
        lemma_drop_lowest(sources);
        let own = pos.pieces(ChessPiece(pos.side, kind));
        lemma_within_drop(sources, own);
        if !pinned {
            lemma_within_drop(sources, !cs.pinned);
        }
        let s = lowest(sources);
        let here = moves_from(pos, cs, kind, s, pinned);
        if i < here.len() {
            assert(moved_rightly(pos, cs, kind, single(s), pinned)) by {
                assert forall|x: int| #[trigger] member(single(s), x) implies member(own, x)
                    && member(!cs.pinned, x) == member(!cs.pinned, s) by {
                    lemma_member_single(s, x);
                }
            }
            lemma_moves_from_safe(pos, cs, kind, s, pinned, i);
        } else {
            lemma_moves_over_safe(pos, cs, kind, drop_lowest(sources), pinned, i - here.len());
        }
    }
}

/// No move of the pieces of one kind leaves the king attacked.
proof fn lemma_piece_moves_safe(pos: Position, kind: PieceType)
    requires
        valid(pos),
        kind != PieceType::King,
        check_state(pos).checkers == 0 || is_single(check_state(pos).checkers),
    ensures
        all_safe(pos, piece_moves(pos, check_state(pos), kind)),
{
    let cs = check_state(pos);
    let own = pos.pieces(ChessPiece(pos.side, kind));
    let a = moves_over(pos, cs, kind, own & !cs.pinned, false);
    let b = pinned_moves(pos, cs, kind);
    lemma_within_and(own, !cs.pinned);
    lemma_within_and(own, cs.pinned);
    assert(all_safe(pos, a)) by {
        assert forall|i: int| 0 <= i < a.len() implies safe_after(pos, #[trigger] a[i]) by {
            lemma_moves_over_safe(pos, cs, kind, own & !cs.pinned, false, i);
        }
    }
    assert(all_safe(pos, b)) by {
        assert forall|i: int| 0 <= i < b.len() implies safe_after(pos, #[trigger] b[i]) by {
            lemma_moves_over_safe(pos, cs, kind, own & cs.pinned, true, i);
        }
    }
    lemma_all_safe_add(pos, a, b);
}

/// No en-passant capture leaves the king attacked, if the pawn to be taken
/// is not the king's only shield on a diagonal.
proof fn lemma_ep_moves_over_safe(pos: Position, sources: u64, i: int)
    requires
        valid(pos),
        pos.ep != 0,
        check_state(pos).checkers == 0 || is_single(check_state(pos).checkers),
        ep_shielded(pos),
        within(sources, pos.pieces(ChessPiece(pos.side, PieceType::Pawn))),
        within(sources, pawn_attacks(pos.side.flip(), lowest(pos.ep))),
        0 <= i < ep_moves_over(pos, check_state(pos), sources).len(),
    ensures
        safe_after(pos, ep_moves_over(pos, check_state(pos), sources)[i]),
    decreases sources,
{
    if sources != 0 {
        let cs = check_state(pos);
        lemma_lowest(sources);
        lemma_drop_lowest(sources);
        lemma_within_drop(sources, pos.pieces(ChessPiece(pos.side, PieceType::Pawn)));
        lemma_within_drop(sources, pawn_attacks(pos.side.flip(), lowest(pos.ep)));
        let s = lowest(sources);
        lemma_occ_member(pos.board, ChessPiece(pos.side, PieceType::Pawn), s);
        let here: Seq<ChessMove> = if ep_allowed(pos, cs, s) {
            seq![make(Square::of(s), Square::of(lowest(pos.ep)), MoveType::EnPassant)]
        } else {
            Seq::empty()
        };
        if i < here.len() {
            assert(ep_source(pos, s));
            lemma_ep_safe(pos, s);
        } else {
            lemma_ep_moves_over_safe(pos, drop_lowest(sources), i - here.len());
        }
    }
}

/// No step of the king leaves it attacked.
proof fn lemma_king_steps_safe(pos: Position, targets: u64, i: int)
    requires
        valid(pos),
        within(targets, king_targets(pos)),
        0 <= i < king_steps(pos, targets).len(),
    ensures
        safe_after(pos, king_steps(pos, targets)[i]),
    decreases targets,
{
    if targets != 0 {
        lemma_lowest(targets);
        lemma_drop_lowest(targets);
        lemma_within_drop(targets, king_targets(pos));
        let t = lowest(targets);
        let free = !attacked(pos, t, pos.side.flip(), kingless(pos));
        let here: Seq<ChessMove> = if free {
            seq![make(Square::of(pos.king_idx(pos.side)), Square::of(t), MoveType::Normal)]
        } else {
            Seq::empty()
        };
        if i < here.len() {
            lemma_king_step_safe(pos, t);
            let next = apply(pos, here[0]);
            lemma_single(t);
            lemma_attacked_threats(next, pos.side);
        } else {
            lemma_king_steps_safe(pos, drop_lowest(targets), i - here.len());
        }
    }
}

/// No castle leaves the king attacked.
proof fn lemma_castle_moves_safe(pos: Position, c: Castling)
    requires
        valid(pos),
        c.side() == pos.side,
    ensures
        all_safe(pos, castle_if_legal(pos, c)),
{
    if castle_legal(pos, c) {
        lemma_castle_safe(pos, c);
        let next = apply(pos, castle_move(c));
        lemma_single(king_target(c));
        lemma_attacked_threats(next, pos.side);
    }
}

/// No move of the king leaves it attacked.
proof fn lemma_king_moves_safe(pos: Position)
    requires
        valid(pos),
    ensures
        all_safe(pos, king_moves(pos, check_state(pos))),
{
    let cs = check_state(pos);
    let a = king_steps(pos, king_targets(pos));
    let b = castles(pos, cs);
    assert(within(king_targets(pos), king_targets(pos)));
    assert(all_safe(pos, a)) by {
        assert forall|i: int| 0 <= i < a.len() implies safe_after(pos, #[trigger] a[i]) by {
            lemma_king_steps_safe(pos, king_targets(pos), i);
        }
    }
    lemma_castle_moves_safe(pos, Castling::Kingside(pos.side));
    lemma_castle_moves_safe(pos, Castling::Queenside(pos.side));
    lemma_all_safe_add(
        pos,
        castle_if_legal(pos, Castling::Kingside(pos.side)),
        castle_if_legal(pos, Castling::Queenside(pos.side)),
    );
    lemma_all_safe_add(pos, a, b);
}

/// No legal move leaves the mover's king attacked by an enemy pawn, knight,
/// bishop, rook or queen, in a valid position in which the pawn that can be
/// taken en passant, if there is one, is not the only shield of the king
/// against an enemy slider on a diagonal.
pub proof fn lemma_legal_moves_safe(pos: Position)
    requires
        valid(pos),
        ep_shielded(pos),
    ensures
        all_safe(pos, legal_moves(pos)),
{
    let cs = check_state(pos);
    lemma_king_moves_safe(pos);
    if cs.checkers == 0 || is_single(cs.checkers) {
        let a0 = piece_moves(pos, cs, PieceType::Pawn);
        let a1 = ep_moves(pos, cs);
        let a = pawn_moves(pos, cs);
        let b = piece_moves(pos, cs, PieceType::Knight);
        let c = piece_moves(pos, cs, PieceType::Bishop);
        let d = piece_moves(pos, cs, PieceType::Rook);
        let e = piece_moves(pos, cs, PieceType::Queen);
        let f = king_moves(pos, cs);
        lemma_piece_moves_safe(pos, PieceType::Pawn);
        assert(all_safe(pos, a1)) by {
            if pos.ep != 0 {
                let own = pos.pieces(ChessPiece(pos.side, PieceType::Pawn));
                let from = pawn_attacks(pos.side.flip(), lowest(pos.ep));
                lemma_within_and(from, own);
                assert forall|i: int| 0 <= i < a1.len() implies safe_after(pos, #[trigger] a1[i]) by {
                    lemma_ep_moves_over_safe(pos, from & own, i);
                }
            }
        }
        lemma_all_safe_add(pos, a0, a1);
        lemma_piece_moves_safe(pos, PieceType::Knight);
        lemma_piece_moves_safe(pos, PieceType::Bishop);
        lemma_piece_moves_safe(pos, PieceType::Rook);
        lemma_piece_moves_safe(pos, PieceType::Queen);
        lemma_all_safe_add(pos, a, b);
        lemma_all_safe_add(pos, a + b, c);
        lemma_all_safe_add(pos, a + b + c, d);
        lemma_all_safe_add(pos, a + b + c + d, e);
        lemma_all_safe_add(pos, a + b + c + d + e, f);
    }
}

} // verus!
