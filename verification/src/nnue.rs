//! The numbers of the features of a position as an evaluator sees them from
//! the point of view of one side: one feature for each piece on each square.

use vstd::prelude::*;
use crate::bits::lemma_single;
use crate::chessboard::game::ChessGame;
use crate::chessboard::position::Position;
use crate::chessboard::updatestate::{applicable, apply, ep_victim};
use crate::chessboard::{
    ep_ok, king_home, king_target, right_ok, rights_ok, rook_home, rook_target, valid,
};
use crate::chessmove::{Castling, ChessMove, MoveType};
use crate::chesspiece::{ChessPiece, PieceType, Side};
use crate::square::{col_of, row_of, Square};

verus! {

/// The number of the feature "`p` stands on square `s`" as `side` sees it.
/// White sees the board as it is. Black sees it mirrored top to bottom and
/// with the sides exchanged.
pub open spec fn feature(p: ChessPiece, s: int, side: Side) -> int {
    match side {
        Side::White => p.0.idx() * 384 + p.1.idx() * 64 + s,
        Side::Black => p.0.flip().idx() * 384 + p.1.idx() * 64 + (7 - row_of(s)) * 8 + col_of(s),
    }
}

/// The number of the feature "`chesspiece` stands on `square`" as `side` sees it.
pub fn index(chesspiece: ChessPiece, square: Square, side: Side) -> (r: usize)
    ensures
        r == feature(chesspiece, square.idx(), side),
        r < 768,
{
    let (piece_side, piece_type) = chesspiece.data();
    match side {
        Side::White => piece_side.as_usize() * 64 * 6 + piece_type.as_usize() * 64
            + square.as_usize(),
        Side::Black => piece_side.update().as_usize() * 64 * 6 + piece_type.as_usize() * 64
            + square.as_usize_flipped(),
    }
}

/// The features that a castle changes: the king leaves the first and enters
/// the second, the rook leaves the third and enters the fourth.
pub open spec fn castle_features(castle: Castling, side: Side) -> Seq<int> {
    let king = ChessPiece(castle.side(), PieceType::King);
    let rook = ChessPiece(castle.side(), PieceType::Rook);
    seq![
        feature(king, king_home(castle.side()), side),
        feature(king, king_target(castle), side),
        feature(rook, rook_home(castle), side),
        feature(rook, rook_target(castle), side),
    ]
}

/// The features that a castle changes, as `side` sees them.
pub fn castle_index(castle: Castling, side: Side) -> (r: [usize; 4])
    ensures
        r@.len() == 4,
        forall|i: int| 0 <= i < 4 ==> #[trigger] r@[i] == castle_features(castle, side)[i],
{
    let (owner, home, landing, rook_from, rook_to) = match castle {
        Castling::Kingside(Side::White) => (
            Side::White,
            Square::E1,
            Square::G1,
            Square::H1,
            Square::F1,
        ),
        Castling::Queenside(Side::White) => (
            Side::White,
            Square::E1,
            Square::C1,
            Square::A1,
            Square::D1,
        ),
        Castling::Kingside(Side::Black) => (
            Side::Black,
            Square::E8,
            Square::G8,
            Square::H8,
            Square::F8,
        ),
        Castling::Queenside(Side::Black) => (
            Side::Black,
            Square::E8,
            Square::C8,
            Square::A8,
            Square::D8,
        ),
    };
    let king = ChessPiece(owner, PieceType::King);
    let rook = ChessPiece(owner, PieceType::Rook);
    [
        index(king, home, side),
        index(king, landing, side),
        index(rook, rook_from, side),
        index(rook, rook_to, side),
    ]
}

/// The features of the pieces on the squares below `n`, in the order of the squares.
pub open spec fn features_below(board: Seq<Option<ChessPiece>>, side: Side, n: int) -> Seq<int>
    decreases n,
{
    if n <= 0 {
        Seq::empty()
    } else {
        match board[n - 1] {
            Some(p) => features_below(board, side, n - 1).push(feature(p, n - 1, side)),
            None => features_below(board, side, n - 1),
        }
    }
}

/// There are at most as many features as squares.
proof fn lemma_features_below(board: Seq<Option<ChessPiece>>, side: Side, n: int)
    requires
        0 <= n,
    ensures
        features_below(board, side, n).len() <= n,
    decreases n,
{
    if n > 0 {
        lemma_features_below(board, side, n - 1);
    }
}

impl ChessGame {
    /// The features of the position as `side` sees it: one for each piece,
    /// in the order of the squares.
    pub fn sparse_features(&self, side: Side) -> (v: Vec<usize>)
        ensures
            v@.len() == features_below(self.chessboard@.board, side, 64).len(),
            forall|i: int|
                0 <= i < v@.len() ==> #[trigger] v@[i] == features_below(
                    self.chessboard@.board,
                    side,
                    64,
                )[i],
            v@.len() <= 64,
    {
        let ghost board = self.chessboard@.board;
        let mut v: Vec<usize> = Vec::new();
        let mut i: usize = 0;
        while i < 64
            invariant
                i <= 64,
                board == self.chessboard@.board,
                v@.len() == features_below(board, side, i as int).len(),
                forall|k: int|
                    0 <= k < v@.len() ==> #[trigger] v@[k] == features_below(board, side, i as int)[k],
            decreases 64 - i,
        {
            let square = Square::nth(i);
            match self.square_index(square) {
                Some(p) => {
                    v.push(index(p, square, side));
                },
                None => {},
            }
            i += 1;
        }
        proof {
            lemma_features_below(board, side, 64);
        }
        v
    }

    /// The features of the position as white sees it.
    pub fn to_sparse_vec_white(&self) -> (v: Vec<usize>)
        ensures
            v@.len() == features_below(self.chessboard@.board, Side::White, 64).len(),
            forall|i: int|
                0 <= i < v@.len() ==> #[trigger] v@[i] == features_below(
                    self.chessboard@.board,
                    Side::White,
                    64,
                )[i],
            v@.len() <= 64,
    {
        self.sparse_features(Side::White)
    }

    /// The features of the position as black sees it.
    pub fn to_sparse_vec_black(&self) -> (v: Vec<usize>)
        ensures
            v@.len() == features_below(self.chessboard@.board, Side::Black, 64).len(),
            forall|i: int|
                0 <= i < v@.len() ==> #[trigger] v@[i] == features_below(
                    self.chessboard@.board,
                    Side::Black,
                    64,
                )[i],
            v@.len() <= 64,
    {
        self.sparse_features(Side::Black)
    }
}

/// The features that enter with a move, as `side` sees them: the mover on
/// its target, as the piece it is promoted to if it is; for a castle the
/// king and the rook on their targets.
pub open spec fn added_features(pos: Position, mv: ChessMove, side: Side) -> Seq<int> {
    let s = mv.source_idx();
    let t = mv.target_idx();
    match mv.kind() {
        MoveType::Castle(c) => seq![
            feature(ChessPiece(pos.side, PieceType::King), king_target(c), side),
            feature(ChessPiece(pos.side, PieceType::Rook), rook_target(c), side),
        ],
        MoveType::Promotion(k) => seq![feature(ChessPiece(pos.side, k), t, side)],
        _ => seq![feature(pos.piece_at(s), t, side)],
    }
}

/// The features that leave with a move, as `side` sees them: the mover on
/// its source, then the piece that is taken, if one is; for a castle the
/// king and the rook on their home squares.
pub open spec fn removed_features(pos: Position, mv: ChessMove, side: Side) -> Seq<int> {
    let s = mv.source_idx();
    let t = mv.target_idx();
    match mv.kind() {
        MoveType::Castle(c) => seq![
            feature(ChessPiece(pos.side, PieceType::King), king_home(pos.side), side),
            feature(ChessPiece(pos.side, PieceType::Rook), rook_home(c), side),
        ],
        MoveType::EnPassant => seq![
            feature(pos.piece_at(s), s, side),
            feature(ChessPiece(pos.side.flip(), PieceType::Pawn), ep_victim(pos.side, t), side),
        ],
        _ => match pos.board[t] {
            Some(q) => seq![feature(pos.piece_at(s), s, side), feature(q, t, side)],
            None => seq![feature(pos.piece_at(s), s, side)],
        },
    }
}

/// Different pieces or different squares have different features.
pub proof fn lemma_feature_differs(p: ChessPiece, s: int, q: ChessPiece, t: int, side: Side)
    requires
        0 <= s < 64,
        0 <= t < 64,
    ensures
        0 <= feature(p, s, side) < 768,
        (feature(p, s, side) == feature(q, t, side)) == (p == q && s == t),
{
}

/// After a move, a piece stands on a square exactly if its feature has
/// entered with the move, or if it stood there before and its feature has
/// not left.
#[verifier::rlimit(40)]
pub proof fn lemma_feature_changes(pos: Position, mv: ChessMove, side: Side, s: int, p: ChessPiece)
    requires
        valid(pos),
        applicable(pos, mv),
        0 <= s < 64,
    ensures
        (apply(pos, mv).board[s] == Some(p)) == (added_features(pos, mv, side).contains(
            feature(p, s, side),
        ) || (pos.board[s] == Some(p) && !removed_features(pos, mv, side).contains(
            feature(p, s, side),
        ))),
{
    let a = added_features(pos, mv, side);
    let r = removed_features(pos, mv, side);
    let f = feature(p, s, side);
    let from = mv.source_idx();
    let to = mv.target_idx();
    let piece = pos.piece_at(from);
    assert(rights_ok(pos));
    assert(ep_ok(pos));
    assert(a.contains(f) == (exists|i: int| 0 <= i < a.len() && a[i] == f));
    assert(r.contains(f) == (exists|i: int| 0 <= i < r.len() && r[i] == f));
    lemma_feature_differs(p, s, piece, from, side);
    lemma_feature_differs(p, s, piece, to, side);
    match mv.kind() {
        MoveType::Castle(c) => {
            assert(right_ok(pos, c));
            let king = ChessPiece(pos.side, PieceType::King);
            let rook = ChessPiece(pos.side, PieceType::Rook);
            lemma_feature_differs(p, s, king, king_target(c), side);
            lemma_feature_differs(p, s, rook, rook_target(c), side);
            lemma_feature_differs(p, s, king, king_home(pos.side), side);
            lemma_feature_differs(p, s, rook, rook_home(c), side);
            assert(a[0] == feature(king, king_target(c), side));
            assert(a[1] == feature(rook, rook_target(c), side));
            assert(r[0] == feature(king, king_home(pos.side), side));
            assert(r[1] == feature(rook, rook_home(c), side));
        },
        MoveType::Promotion(k) => {
            lemma_feature_differs(p, s, ChessPiece(pos.side, k), to, side);
            assert(a[0] == feature(ChessPiece(pos.side, k), to, side));
            assert(r[0] == feature(piece, from, side));
            if let Some(q) = pos.board[to] {
                lemma_feature_differs(p, s, q, to, side);
                assert(r[1] == feature(q, to, side));
            }
        },
        MoveType::EnPassant => {
            let pawn = ChessPiece(pos.side.flip(), PieceType::Pawn);
            let v = ep_victim(pos.side, to);
            lemma_single(to);
            lemma_feature_differs(p, s, pawn, v, side);
            assert(a[0] == feature(piece, to, side));
            assert(r[0] == feature(piece, from, side));
            assert(r[1] == feature(pawn, v, side));
        },
        MoveType::Normal => {
            assert(a[0] == feature(piece, to, side));
            assert(r[0] == feature(piece, from, side));
            if let Some(q) = pos.board[to] {
                lemma_feature_differs(p, s, q, to, side);
                assert(r[1] == feature(q, to, side));
            }
        },
    }
}

/// The features that a move changes.
pub struct FeatureChanges {
    /// The features that enter.
    pub added: Vec<usize>,
    /// The features that leave.
    pub removed: Vec<usize>,
}

/// Whether a list holds the numbers of another, in their order.
pub open spec fn same_numbers(v: Seq<usize>, w: Seq<int>) -> bool {
    v.len() == w.len() && forall|i: int| 0 <= i < v.len() ==> #[trigger] v[i] == w[i]
}

impl ChessGame {
    /// The features that enter and leave with a move, as `side` sees them.
    #[verifier::rlimit(30)]
    pub fn feature_changes(&self, mv: &ChessMove, side: Side) -> (d: FeatureChanges)
        requires
            self.chessboard.wf(),
            applicable(self.chessboard@, *mv),
        ensures
            same_numbers(d.added@, added_features(self.chessboard@, *mv, side)),
            same_numbers(d.removed@, removed_features(self.chessboard@, *mv, side)),
    {
        let ghost pos = self.chessboard@;
        let mover = self.chessboard.side();
        let source = mv.source();
        let target = mv.target();
        let piece = match self.square_index(source) {
            Some(p) => p,
            None => vstd::pervasive::unreached(),
        };
        let mut added: Vec<usize> = Vec::new();
        let mut removed: Vec<usize> = Vec::new();
        match mv.move_type() {
            MoveType::Castle(c) => {
                let changed = castle_index(c, side);
                proof {
                    assert(rights_ok(pos));
                    assert(right_ok(pos, c));
                }
                added.push(changed[1]);
                added.push(changed[3]);
                removed.push(changed[0]);
                removed.push(changed[2]);
            },
            MoveType::EnPassant => {
                proof {
                    assert(ep_ok(pos));
                    lemma_single(target.idx());
                }
                let taken = match mover {
                    Side::White => target.down(),
                    Side::Black => target.up(),
                };
                added.push(index(piece, target, side));
                removed.push(index(piece, source, side));
                removed.push(index(ChessPiece(mover.update(), PieceType::Pawn), taken, side));
            },
            MoveType::Promotion(k) => {
                added.push(index(ChessPiece(mover, k), target, side));
                removed.push(index(piece, source, side));
                match self.square_index(target) {
                    Some(q) => {
                        removed.push(index(q, target, side));
                    },
                    None => {},
                }
            },
            MoveType::Normal => {
                added.push(index(piece, target, side));
                removed.push(index(piece, source, side));
                match self.square_index(target) {
                    Some(q) => {
                        removed.push(index(q, target, side));
                    },
                    None => {},
                }
            },
        }
        FeatureChanges { added, removed }
    }
}

} // verus!
