//! The starting position of a game.

use vstd::prelude::*;
use crate::attack::AttackTables;
use crate::bitboard::Bitboard;
use crate::bits::{lemma_ext, lemma_member_single, lemma_single, single};
use crate::chessboard::complete::regular;
use crate::chessboard::game::ChessGame;
use crate::chessboard::mailbox::OptionMailbox;
use crate::chessboard::position::{lemma_occ_member, occ_of, Position};
use crate::chessboard::reached::{lemma_start_orderly, orderly};
use crate::chessboard::zobrist::ZobristTable;
use crate::chessboard::{position_of, valid, validity_error, ChessBoard};
use crate::chesspiece::{ChessPiece, PieceType, Side};
use crate::square::{col_of, row_of, Square};

verus! {

/// The kind of piece that starts on file `c` of a side's first rank.
pub open spec fn back_rank(c: int) -> PieceType {
    if c == 0 || c == 7 {
        PieceType::Rook
    } else if c == 1 || c == 6 {
        PieceType::Knight
    } else if c == 2 || c == 5 {
        PieceType::Bishop
    } else if c == 3 {
        PieceType::Queen
    } else {
        PieceType::King
    }
}

/// What starts on square `i`.
pub open spec fn start_piece(i: int) -> Option<ChessPiece> {
    if row_of(i) == 0 {
        Some(ChessPiece(Side::White, back_rank(col_of(i))))
    } else if row_of(i) == 1 {
        Some(ChessPiece(Side::White, PieceType::Pawn))
    } else if row_of(i) == 6 {
        Some(ChessPiece(Side::Black, PieceType::Pawn))
    } else if row_of(i) == 7 {
        Some(ChessPiece(Side::Black, back_rank(col_of(i))))
    } else {
        None
    }
}

/// What stands where at the start.
pub open spec fn start_board() -> Seq<Option<ChessPiece>> {
    Seq::new(64, |i: int| start_piece(i))
}

/// The starting position: white to move, all castling rights, no en-passant
/// target, and both counters at zero.
pub open spec fn start_position() -> Position {
    position_of(start_board(), seq![true, true, true, true], 0, Side::White, 0, 0)
}

/// The starting position is valid.
pub proof fn lemma_start_valid()
    ensures
        valid(start_position()),
        validity_error(start_position()) is None,
{
    let board = start_board();
    let wk = ChessPiece(Side::White, PieceType::King);
    let bk = ChessPiece(Side::Black, PieceType::King);
    assert forall|i: int| 0 <= i < 64 implies crate::bits::member(occ_of(board, wk), i)
        == crate::bits::member(single(4), i) by {
        lemma_occ_member(board, wk, i);
        lemma_member_single(4, i);
    }
    lemma_ext(occ_of(board, wk), single(4));
    assert forall|i: int| 0 <= i < 64 implies crate::bits::member(occ_of(board, bk), i)
        == crate::bits::member(single(60), i) by {
        lemma_occ_member(board, bk, i);
        lemma_member_single(60, i);
    }
    lemma_ext(occ_of(board, bk), single(60));
    lemma_single(4);
    lemma_single(60);
    assert(board[4] == Some(wk));
    assert(board[60] == Some(bk));
    assert(board[0] == Some(ChessPiece(Side::White, PieceType::Rook)));
    assert(board[7] == Some(ChessPiece(Side::White, PieceType::Rook)));
    assert(board[56] == Some(ChessPiece(Side::Black, PieceType::Rook)));
    assert(board[63] == Some(ChessPiece(Side::Black, PieceType::Rook)));
}

/// The kind of piece that starts on file `c` of a side's first rank.
pub fn back_rank_piece(c: usize) -> (p: PieceType)
    requires
        c < 8,
    ensures
        p == back_rank(c as int),
{
    if c == 0 || c == 7 {
        PieceType::Rook
    } else if c == 1 || c == 6 {
        PieceType::Knight
    } else if c == 2 || c == 5 {
        PieceType::Bishop
    } else if c == 3 {
        PieceType::Queen
    } else {
        PieceType::King
    }
}

/// What stands where at the start.
pub fn start_mailbox() -> (m: OptionMailbox)
    ensures
        m@ == start_board(),
{
    let mut m = OptionMailbox::empty();
    let mut i: usize = 0;
    while i < 64
        invariant
            i <= 64,
            m@.len() == 64,
            forall|k: int| 0 <= k < i ==> #[trigger] m@[k] == start_piece(k),
        decreases 64 - i,
    {
        let row = i / 8;
        let x = if row == 0 {
            Some(ChessPiece(Side::White, back_rank_piece(i % 8)))
        } else if row == 1 {
            Some(ChessPiece(Side::White, PieceType::Pawn))
        } else if row == 6 {
            Some(ChessPiece(Side::Black, PieceType::Pawn))
        } else if row == 7 {
            Some(ChessPiece(Side::Black, back_rank_piece(i % 8)))
        } else {
            None
        };
        m.set(x, Square::nth(i));
        i += 1;
    }
    assert(m@ =~= start_board());
    m
}

impl ChessBoard {
    /// The starting position of a game.
    pub fn start_pos(t: &AttackTables) -> (b: ChessBoard)
        requires
            t.wf(),
        ensures
            b.wf(),
            b@ == start_position(),
    {
        let castle = [true, true, true, true];
        assert(castle@ =~= seq![true, true, true, true]);
        proof {
            lemma_start_valid();
        }
        match ChessBoard::from_parts(t, start_mailbox(), Side::White, castle, Bitboard(0), 0, 0) {
            Ok(b) => b,
            Err(_) => vstd::pervasive::unreached(),
        }
    }
}

impl ChessGame {
    /// A game that starts at the starting position, which is orderly and regular.
    pub fn start_pos(t: &AttackTables) -> (g: ChessGame)
        requires
            t.wf(),
        ensures
            g.wf(),
            g.chessboard@ == start_position(),
            g.zobrist_table@.len() == 1,
            orderly(g.chessboard@),
            regular(g.chessboard@),
    {
        proof {
            lemma_start_orderly();
        }
        let chessboard = ChessBoard::start_pos(t);
        let zobrist_table = ZobristTable::new(chessboard.hash());
        ChessGame { chessboard, zobrist_table }
    }
}

} // verus!
