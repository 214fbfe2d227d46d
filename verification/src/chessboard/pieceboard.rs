//! The squares of each of the twelve pieces, one set of squares for each.

use vstd::prelude::*;
use crate::bitboard::Bitboard;
use crate::bits::single;
use crate::chesspiece::{ChessPiece, PieceType, Side};
use crate::square::Square;

verus! {

/// The set of squares of each piece, in the order of the pieces' numbers:
/// pawn, knight, bishop, rook, queen, king of white, then the same of black.
#[derive(Debug, Copy, Clone)]
pub struct PieceBoard(pub [Bitboard; 12]);

impl PieceBoard {
    /// The set of squares of piece `p`.
    pub open spec fn bb(self, p: ChessPiece) -> u64 {
        self.0@[p.idx()].0
    }

    /// The squares that hold a piece of `side`.
    pub open spec fn side_occ(self, side: Side) -> u64 {
        self.bb(ChessPiece(side, PieceType::Pawn)) | self.bb(ChessPiece(side, PieceType::Knight))
            | self.bb(ChessPiece(side, PieceType::Bishop)) | self.bb(
            ChessPiece(side, PieceType::Rook),
        ) | self.bb(ChessPiece(side, PieceType::Queen)) | self.bb(ChessPiece(side, PieceType::King))
    }

    /// The squares that hold a piece.
    pub open spec fn occ(self) -> u64 {
        self.side_occ(Side::White) | self.side_occ(Side::Black)
    }

    /// The board without pieces.
    pub fn empty() -> (b: PieceBoard)
        ensures
            forall|i: int| 0 <= i < 12 ==> (#[trigger] b.0@[i]).0 == 0,
    {
        PieceBoard([Bitboard(0);12])
    }

    /// The set of squares of a piece.
    pub fn piece_bitboard(&self, index: ChessPiece) -> (b: Bitboard)
        ensures
            b.0 == self.bb(index),
    {
        self.0[index.to_index()]
    }

    /// The squares that hold a piece of `side`.
    pub fn colour_blockers(&self, side: Side) -> (b: Bitboard)
        ensures
            b.0 == self.side_occ(side),
    {
        match side {
            Side::White => self.white_blockers(),
            Side::Black => self.black_blockers(),
        }
    }

    /// The squares that hold a white piece.
    pub fn white_blockers(&self) -> (b: Bitboard)
        ensures
            b.0 == self.side_occ(Side::White),
    {
        Bitboard(self.0[0].0 | self.0[1].0 | self.0[2].0 | self.0[3].0 | self.0[4].0 | self.0[5].0)
    }

    /// The squares that hold a black piece.
    pub fn black_blockers(&self) -> (b: Bitboard)
        ensures
            b.0 == self.side_occ(Side::Black),
    {
        Bitboard(
            self.0[6].0 | self.0[7].0 | self.0[8].0 | self.0[9].0 | self.0[10].0 | self.0[11].0,
        )
    }

    /// The squares that hold a piece.
    pub fn blockers(&self) -> (b: Bitboard)
        ensures
            b.0 == self.occ(),
    {
        Bitboard(self.white_blockers().0 | self.black_blockers().0)
    }

    /// Adds `square` to the squares of `piece`.
    pub fn set_bit(&mut self, piece: ChessPiece, square: Square)
        ensures
            final(self).0@ == old(self).0@.update(
                piece.idx(),
                Bitboard(old(self).bb(piece) | single(square.idx())),
            ),
    {
        let i = piece.to_index();
        let mut b = self.0[i];
        b.set_bit(square);
        self.0[i] = b;
    }

    /// Removes `square` from the squares of `piece`.
    pub fn pop_bit(&mut self, piece: ChessPiece, square: Square)
        ensures
            final(self).0@ == old(self).0@.update(
                piece.idx(),
                Bitboard(old(self).bb(piece) & !single(square.idx())),
            ),
    {
        let i = piece.to_index();
        let mut b = self.0[i];
        b.pop_bit(square);
        self.0[i] = b;
    }
}

} // verus!
