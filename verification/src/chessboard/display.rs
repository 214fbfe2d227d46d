//! Positions as a picture in text.

use vstd::prelude::*;
use crate::chessboard::fen::text_square;
use crate::chessboard::ChessBoard;
use crate::chessmove::{chars_of, text_of};
use crate::chesspiece::ChessPiece;

verus! {

/// The letter of what stands on a square; a dot for an empty square.
pub open spec fn square_byte(x: Option<ChessPiece>) -> u8 {
    match x {
        Some(p) => p.symbol(),
        None => 46,
    }
}

/// The picture from the `k`-th square on: the eighth rank first, each rank
/// from file a to file h and closed by a line feed.
pub open spec fn picture_from(board: Seq<Option<ChessPiece>>, k: int) -> Seq<u8>
    decreases 64 - k,
{
    if k >= 64 {
        Seq::empty()
    } else if k % 8 == 7 {
        seq![square_byte(board[text_square(k)]), 10u8] + picture_from(board, k + 1)
    } else {
        seq![square_byte(board[text_square(k)])] + picture_from(board, k + 1)
    }
}

/// The picture of a board: eight lines of eight characters.
pub open spec fn picture(board: Seq<Option<ChessPiece>>) -> Seq<u8> {
    picture_from(board, 0)
}

impl ChessBoard {
    /// The picture of the position, as bytes.
    pub fn picture_bytes(&self) -> (v: Vec<u8>)
        ensures
            v@ == picture(self@.board),
    {
        let ghost board = self@.board;
        let mut v: Vec<u8> = Vec::new();
        let mut k: usize = 0;
        assert(v@ + picture(board) =~= picture(board));
        while k < 64
            invariant
                k <= 64,
                board == self@.board,
                v@ + picture_from(board, k as int) == picture(board),
            decreases 64 - k,
        {
            let ghost before = v@;
            let ghost rest = picture_from(board, k + 1);
            let c = match self.mailbox.index((7 - k / 8) * 8 + k % 8) {
                Some(p) => p.to_byte(),
                None => 46,
            };
            v.push(c);
            if k % 8 == 7 {
                v.push(10);
                assert(v@ + rest =~= before + (seq![c, 10u8] + rest));
            } else {
                assert(v@ + rest =~= before + (seq![c] + rest));
            }
            k += 1;
        }
        assert(v@ + Seq::<u8>::empty() =~= v@);
        v
    }

    /// The picture of the position.
    pub fn print_board(&self) -> (s: String)
        ensures
            s@ == chars_of(picture(self@.board)),
    {
        text_of(&self.picture_bytes())
    }
}

} // verus!
