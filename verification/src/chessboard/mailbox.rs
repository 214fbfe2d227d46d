//! The piece on each square.

use vstd::prelude::*;
use crate::chesspiece::ChessPiece;
use crate::square::Square;

verus! {

/// For each square, in the order of the squares' numbers, the piece on it, if any.
#[derive(Debug, Copy, Clone)]
pub struct OptionMailbox(pub [Option<ChessPiece>; 64]);

impl View for OptionMailbox {
    type V = Seq<Option<ChessPiece>>;

    open spec fn view(&self) -> Seq<Option<ChessPiece>> {
        self.0@
    }
}

impl OptionMailbox {
    /// The mailbox of the board without pieces.
    pub fn empty() -> (m: OptionMailbox)
        ensures
            m@.len() == 64,
            forall|i: int| 0 <= i < 64 ==> #[trigger] m@[i] == None::<ChessPiece>,
    {
        OptionMailbox([None;64])
    }

    /// The piece on square `s`.
    pub fn square_index(&self, s: Square) -> (p: Option<ChessPiece>)
        ensures
            p == self@[s.idx()],
    {
        self.0[s.as_usize()]
    }

    /// The piece on the square with number `i`.
    pub fn index(&self, i: usize) -> (p: Option<ChessPiece>)
        requires
            i < 64,
        ensures
            p == self@[i as int],
    {
        self.0[i]
    }

    /// Puts `piece`, or nothing, on `square`.
    pub fn set(&mut self, piece: Option<ChessPiece>, square: Square)
        ensures
            final(self)@ == old(self)@.update(square.idx(), piece),
    {
        self.0[square.as_usize()] = piece;
    }
}

} // verus!
