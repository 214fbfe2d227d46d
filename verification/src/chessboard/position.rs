//! The mathematical model of a position, and the squares of its pieces as sets.

use vstd::prelude::*;
use crate::bits::{
    lemma_ext, lemma_member_and, lemma_member_not, lemma_member_or, lemma_member_single,
    lemma_member_zero, lowest, member, single,
};
use crate::chesspiece::{ChessPiece, PieceType, Side};

verus! {

/// What a position is: the piece on each of the 64 squares, the four castling
/// rights (white king side, white queen side, black king side, black queen
/// side), the set that holds the en-passant target square if there is one,
/// the side to move, and the two move counters.
pub struct Position {
    pub board: Seq<Option<ChessPiece>>,
    pub castle: Seq<bool>,
    pub ep: u64,
    pub side: Side,
    pub halfmove: int,
    pub fullmove: int,
}

/// The squares below `n` on which `p` stands.
pub open spec fn occ_upto(board: Seq<Option<ChessPiece>>, p: ChessPiece, n: int) -> u64
    decreases n,
{
    if n <= 0 {
        0
    } else {
        occ_upto(board, p, n - 1) | (if board[n - 1] == Some(p) {
            single(n - 1)
        } else {
            0
        })
    }
}

/// The squares on which `p` stands.
pub open spec fn occ_of(board: Seq<Option<ChessPiece>>, p: ChessPiece) -> u64 {
    occ_upto(board, p, 64)
}

/// A square is among the squares of `p` below `n` exactly when `p` stands on it.
pub proof fn lemma_occ_upto_member(board: Seq<Option<ChessPiece>>, p: ChessPiece, n: int, i: int)
    requires
        0 <= n <= 64,
    ensures
        member(occ_upto(board, p, n), i) == (0 <= i < n && board[i] == Some(p)),
    decreases n,
{
    if n <= 0 {
        lemma_member_zero(i);
    } else {
        lemma_occ_upto_member(board, p, n - 1, i);
        let last = if board[n - 1] == Some(p) {
            single(n - 1)
        } else {
            0
        };
        lemma_member_or(occ_upto(board, p, n - 1), last, i);
        lemma_member_single(n - 1, i);
        lemma_member_zero(i);
    }
}

/// A square is among the squares of `p` exactly when `p` stands on it.
pub proof fn lemma_occ_member(board: Seq<Option<ChessPiece>>, p: ChessPiece, i: int)
    ensures
        member(occ_of(board, p), i) == (0 <= i < 64 && board[i] == Some(p)),
{
    lemma_occ_upto_member(board, p, 64, i);
}

/// Changing one square changes the squares of the piece that stood there and
/// of the piece that stands there now, and of no other piece.
pub proof fn lemma_occ_update(
    board: Seq<Option<ChessPiece>>,
    s: int,
    x: Option<ChessPiece>,
    q: ChessPiece,
)
    requires
        board.len() == 64,
        0 <= s < 64,
    ensures
        x == Some(q) ==> occ_of(board.update(s, x), q) == occ_of(board, q) | single(s),
        x != Some(q) ==> occ_of(board.update(s, x), q) == occ_of(board, q) & !single(s),
        x != Some(q) && board[s] != Some(q) ==> occ_of(board.update(s, x), q) == occ_of(board, q),
{
    let b2 = board.update(s, x);
    let a = occ_of(board, q);
    let a2 = occ_of(b2, q);
    assert forall|i: int| 0 <= i < 64 implies member(a2, i) == (if i == s {
        x == Some(q)
    } else {
        member(a, i)
    }) by {
        lemma_occ_member(board, q, i);
        lemma_occ_member(b2, q, i);
    }
    if x == Some(q) {
        assert forall|i: int| 0 <= i < 64 implies member(a2, i) == member(a | single(s), i) by {
            lemma_member_or(a, single(s), i);
            lemma_member_single(s, i);
        }
        lemma_ext(a2, a | single(s));
    } else {
        assert forall|i: int| 0 <= i < 64 implies member(a2, i) == member(a & !single(s), i) by {
            lemma_member_and(a, !single(s), i);
            lemma_member_not(single(s), i);
            lemma_member_single(s, i);
        }
        lemma_ext(a2, a & !single(s));
        if board[s] != Some(q) {
            assert forall|i: int| 0 <= i < 64 implies member(a2, i) == member(a, i) by {
                lemma_occ_member(board, q, i);
            }
            lemma_ext(a2, a);
        }
    }
}

impl Position {
    /// The squares on which `p` stands.
    pub open spec fn pieces(self, p: ChessPiece) -> u64 {
        occ_of(self.board, p)
    }

    /// The piece on square `i`, where there is one.
    pub open spec fn piece_at(self, i: int) -> ChessPiece {
        self.board[i]->0
    }

    /// The squares that hold a piece of `side`.
    pub open spec fn side_occ(self, side: Side) -> u64 {
        self.pieces(ChessPiece(side, PieceType::Pawn)) | self.pieces(
            ChessPiece(side, PieceType::Knight),
        ) | self.pieces(ChessPiece(side, PieceType::Bishop)) | self.pieces(
            ChessPiece(side, PieceType::Rook),
        ) | self.pieces(ChessPiece(side, PieceType::Queen)) | self.pieces(
            ChessPiece(side, PieceType::King),
        )
    }

    /// The squares that hold a piece.
    pub open spec fn occ(self) -> u64 {
        self.side_occ(Side::White) | self.side_occ(Side::Black)
    }

    /// The number of the square of the king of `side`.
    pub open spec fn king_idx(self, side: Side) -> int {
        lowest(self.pieces(ChessPiece(side, PieceType::King)))
    }

    /// Whether the model has the right shape: 64 squares and four rights.
    pub open spec fn shaped(self) -> bool {
        self.board.len() == 64 && self.castle.len() == 4
    }

    /// A square holds a piece of `side` exactly when it is among that side's squares.
    pub proof fn lemma_side_occ(self, side: Side, i: int)
        ensures
            member(self.side_occ(side), i) == (0 <= i < 64 && (self.board[i] matches Some(q)
                && q.0 == side)),
    {
        let p = self.pieces(ChessPiece(side, PieceType::Pawn));
        let n = self.pieces(ChessPiece(side, PieceType::Knight));
        let b = self.pieces(ChessPiece(side, PieceType::Bishop));
        let r = self.pieces(ChessPiece(side, PieceType::Rook));
        let q = self.pieces(ChessPiece(side, PieceType::Queen));
        let k = self.pieces(ChessPiece(side, PieceType::King));
        lemma_member_or(p, n, i);
        lemma_member_or(p | n, b, i);
        lemma_member_or(p | n | b, r, i);
        lemma_member_or(p | n | b | r, q, i);
        lemma_member_or(p | n | b | r | q, k, i);
        lemma_occ_member(self.board, ChessPiece(side, PieceType::Pawn), i);
        lemma_occ_member(self.board, ChessPiece(side, PieceType::Knight), i);
        lemma_occ_member(self.board, ChessPiece(side, PieceType::Bishop), i);
        lemma_occ_member(self.board, ChessPiece(side, PieceType::Rook), i);
        lemma_occ_member(self.board, ChessPiece(side, PieceType::Queen), i);
        lemma_occ_member(self.board, ChessPiece(side, PieceType::King), i);
    }

    /// A square holds a piece exactly when it is among the occupied squares.
    pub proof fn lemma_occ(self, i: int)
        ensures
            member(self.occ(), i) == (0 <= i < 64 && self.board[i] is Some),
    {
        self.lemma_side_occ(Side::White, i);
        self.lemma_side_occ(Side::Black, i);
        lemma_member_or(self.side_occ(Side::White), self.side_occ(Side::Black), i);
    }
}

} // verus!
