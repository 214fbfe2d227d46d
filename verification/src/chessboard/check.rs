//! Who gives check and who is pinned, computed from the position alone.

use vstd::prelude::*;
use crate::attack::init::{bishop_attacks, knight_attacks, pawn_attacks, rook_attacks};
use crate::attack::{
    between, get_bishop_ray, get_knight_attack, get_pawn_attack, get_rook_ray, rays, AttackTables,
};

use crate::bits::{drop_lowest, lemma_drop_lowest, lemma_lowest, lowest, single, ALL};
use crate::chessboard::pieceboard::PieceBoard;
use crate::chessboard::position::{occ_of, Position};
use crate::chesspiece::{ChessPiece, PieceType, Side};
use crate::square::Square;

verus! {

/// The pieces that give check, the squares on which a move answers the check,
/// the pieces that are alone between the king and an attacking slider, and
/// those sliders.
#[derive(Debug, Copy, Clone, PartialEq, Eq, Structural)]
pub struct CheckState {
    pub checkers: u64,
    pub mask: u64,
    pub pinned: u64,
    pub pinners: u64,
}

/// What one slider on the king's lines adds: a check, if nothing stands
/// between it and the king; a pin, if exactly one piece does; nothing otherwise.
pub open spec fn scan_one(a: int, king: int, occ: u64, acc: CheckState) -> CheckState {
    let ray = between(a, king);
    let blk = ray & occ;
    if blk == 0 {
        CheckState {
            checkers: acc.checkers | single(a),
            mask: acc.mask | (single(a) | ray),
            pinned: acc.pinned,
            pinners: acc.pinners,
        }
    } else if drop_lowest(blk) == 0 {
        CheckState {
            checkers: acc.checkers,
            mask: acc.mask,
            pinned: acc.pinned | blk,
            pinners: acc.pinners | single(a),
        }
    } else {
        acc
    }
}

/// What the sliders of `cands` add, taken from the lowest square up.
pub open spec fn scan_sliders(cands: u64, king: int, occ: u64, acc: CheckState) -> CheckState
    decreases cands,
{
    if cands == 0 {
        acc
    } else {
        proof {
            lemma_drop_lowest(cands);
        }
        scan_sliders(drop_lowest(cands), king, occ, scan_one(lowest(cands), king, occ, acc))
    }
}

/// The enemy pawns and knights that attack the king of the side to move.
pub open spec fn leaper_checkers(pos: Position) -> u64 {
    let king = pos.king_idx(pos.side);
    let enemy = pos.side.flip();
    (pawn_attacks(pos.side, king) & pos.pieces(ChessPiece(enemy, PieceType::Pawn))) | (
    knight_attacks(king) & pos.pieces(ChessPiece(enemy, PieceType::Knight)))
}

/// The enemy sliders that stand on a line of the king of the side to move
/// along which they move.
pub open spec fn slider_candidates(pos: Position) -> u64 {
    let king = pos.king_idx(pos.side);
    let enemy = pos.side.flip();
    let queens = pos.pieces(ChessPiece(enemy, PieceType::Queen));
    (bishop_attacks(king, 0) & (queens | pos.pieces(ChessPiece(enemy, PieceType::Bishop)))) | (
    rook_attacks(king, 0) & (queens | pos.pieces(ChessPiece(enemy, PieceType::Rook))))
}

/// Checkers and pins before the answer squares are settled.
pub open spec fn raw_check_state(pos: Position) -> CheckState {
    let l = leaper_checkers(pos);
    scan_sliders(
        slider_candidates(pos),
        pos.king_idx(pos.side),
        pos.occ(),
        CheckState { checkers: l, mask: l, pinned: 0, pinners: 0 },
    )
}

/// The check and pin state of a position. The answer squares are all squares
/// without a check, the checker and the squares between it and the king with
/// one check, and none with two or more.
pub open spec fn check_state(pos: Position) -> CheckState {
    let raw = raw_check_state(pos);
    CheckState {
        checkers: raw.checkers,
        mask: if raw.checkers == 0 {
            ALL
        } else if drop_lowest(raw.checkers) == 0 {
            raw.mask
        } else {
            0
        },
        pinned: raw.pinned,
        pinners: raw.pinners,
    }
}

/// Whether the sets of squares are those of the pieces on `board`.
pub open spec fn agrees(bitboards: PieceBoard, board: Seq<Option<ChessPiece>>) -> bool {
    forall|i: int| 0 <= i < 12 ==> (#[trigger] bitboards.0@[i]).0 == occ_of(board, ChessPiece::of(i))
}

/// Computes the check and pin state of the side `side` from the squares of the pieces.
pub fn compute_check_state(t: &AttackTables, bitboards: &PieceBoard, side: Side) -> (r: CheckState)
    requires
        t.wf(),
        bitboards.bb(ChessPiece(side, PieceType::King)) != 0,
    ensures
        forall|pos: Position|
            pos.side == side && #[trigger] agrees(*bitboards, pos.board) ==> r == check_state(pos),
{
    let enemy = side.update();
    let king_bb = bitboards.piece_bitboard(ChessPiece(side, PieceType::King));
    let king_square: Square = match king_bb.lsb_square() {
        Some(s) => s,
        None => vstd::pervasive::unreached(),
    };
    let pawns = bitboards.piece_bitboard(ChessPiece(enemy, PieceType::Pawn));
    let knights = bitboards.piece_bitboard(ChessPiece(enemy, PieceType::Knight));
    let bishops = bitboards.piece_bitboard(ChessPiece(enemy, PieceType::Bishop));
    let rooks = bitboards.piece_bitboard(ChessPiece(enemy, PieceType::Rook));
    let queens = bitboards.piece_bitboard(ChessPiece(enemy, PieceType::Queen));
    let leapers: u64 = (get_pawn_attack(t, side, king_square).0 & pawns.0) | (get_knight_attack(
        t,
        king_square,
    ).0 & knights.0);
    let cands: u64 = (get_bishop_ray(t, king_square).0 & (queens.0 | bishops.0)) | (get_rook_ray(
        t,
        king_square,
    ).0 & (queens.0 | rooks.0));
    let blockers = bitboards.blockers();
    let mut acc = CheckState { checkers: leapers, mask: leapers, pinned: 0, pinners: 0 };
    let mut attackers: u64 = cands;
    let ghost king = king_square.idx();
    let ghost occ = blockers.0;
    let ghost start = acc;
    while attackers != 0
        invariant
            t.wf(),
            king == king_square.idx(),
            occ == blockers.0,
            scan_sliders(attackers, king, occ, acc) == scan_sliders(cands, king, occ, start),
        decreases attackers,
    {
        proof {
            lemma_lowest(attackers);
            lemma_drop_lowest(attackers);
        }
        let attacker_square = Square::nth(attackers.trailing_zeros() as usize);
        let attacker_bb: u64 = 1u64 << (attackers.trailing_zeros() as u64);
        let ray = rays(t, attacker_square, king_square);
        let pinned_pieces: u64 = ray.0 & blockers.0;
        if pinned_pieces == 0 {
            acc =
            CheckState {
                checkers: acc.checkers | attacker_bb,
                mask: acc.mask | (attacker_bb | ray.0),
                pinned: acc.pinned,
                pinners: acc.pinners,
            };
        } else if pinned_pieces & (pinned_pieces - 1) == 0 {
            acc =
            CheckState {
                checkers: acc.checkers,
                mask: acc.mask,
                pinned: acc.pinned | pinned_pieces,
                pinners: acc.pinners | attacker_bb,
            };
        }
        attackers = attackers & (attackers - 1);
    }
    let mask: u64 = if acc.checkers == 0 {
        ALL
    } else if acc.checkers & (acc.checkers - 1) == 0 {
        acc.mask
    } else {
        0
    };
    let r = CheckState { checkers: acc.checkers, mask, pinned: acc.pinned, pinners: acc.pinners };
    proof {
        assert forall|pos: Position|
            pos.side == side && #[trigger] agrees(*bitboards, pos.board) implies r == check_state(
            pos,
        ) by {
            lemma_agree(*bitboards, pos);
        }
    }
    r
}

/// Sets of squares that are equal piece by piece are equal side by side.
pub proof fn lemma_agree(bitboards: PieceBoard, pos: Position)
    requires
        agrees(bitboards, pos.board),
    ensures
        forall|p: ChessPiece| #[trigger] bitboards.bb(p) == pos.pieces(p),
        forall|s: Side| #[trigger] bitboards.side_occ(s) == pos.side_occ(s),
        bitboards.occ() == pos.occ(),
{
    assert forall|p: ChessPiece| #[trigger] bitboards.bb(p) == pos.pieces(p) by {
        p.lemma_idx();
        assert(bitboards.0@[p.idx()].0 == occ_of(pos.board, ChessPiece::of(p.idx())));
    }
    assert forall|s: Side| #[trigger] bitboards.side_occ(s) == pos.side_occ(s) by {
        assert(bitboards.bb(ChessPiece(s, PieceType::Pawn)) == pos.pieces(
            ChessPiece(s, PieceType::Pawn),
        ));
    }
    assert(bitboards.side_occ(Side::White) == pos.side_occ(Side::White));
    assert(bitboards.side_occ(Side::Black) == pos.side_occ(Side::Black));
}

} // verus!
