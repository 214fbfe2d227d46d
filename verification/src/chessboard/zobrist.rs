//! Position fingerprints: one fixed 64-bit key for each feature of a position,
//! combined by exclusive or, so that a change of the position changes the
//! fingerprint by the keys of the features that changed.

use vstd::prelude::*;
use crate::bitboard::Bitboard;
use crate::bits::{lemma_xor_swap, lemma_xor_undo, lowest};
use crate::chessboard::mailbox::OptionMailbox;
use crate::chessboard::position::Position;
use crate::chessmove::Castling;
use crate::chesspiece::{ChessPiece, Side};
use crate::square::{col_of, Square};

verus! {

/// A position fingerprint.
#[derive(Debug, Copy, Clone, PartialEq, Eq, Structural)]
pub struct ZobristHash(pub u64);

/// The key with number `n`: a fixed scrambling of `n`.
pub open spec fn key(n: u64) -> u64 {
    let a = n.wrapping_mul(0x9e37_79b9_7f4a_7c15);
    let b = (a ^ (a >> 30)).wrapping_mul(0xbf58_476d_1ce4_e5b9);
    let c = (b ^ (b >> 27)).wrapping_mul(0x94d0_49bb_1331_11eb);
    c ^ (c >> 31)
}

/// The key of piece `p` on square `s`.
pub open spec fn piece_key(s: int, p: ChessPiece) -> u64 {
    key((1 + s * 12 + p.idx()) as u64)
}

/// The key of the castling right with number `i`.
pub open spec fn castle_key(i: int) -> u64 {
    key((769 + i) as u64)
}

/// The key of an en-passant target on file `c`.
pub open spec fn ep_key(c: int) -> u64 {
    key((773 + c) as u64)
}

/// The key of black to move.
pub open spec fn side_key() -> u64 {
    key(781)
}

/// The key of what stands on square `s`: nothing for an empty square.
pub open spec fn square_key(s: int, x: Option<ChessPiece>) -> u64 {
    match x {
        Some(p) => piece_key(s, p),
        None => 0,
    }
}

/// The combined keys of the pieces on the squares below `n`.
pub open spec fn pieces_hash(board: Seq<Option<ChessPiece>>, n: int) -> u64
    decreases n,
{
    if n <= 0 {
        0
    } else {
        pieces_hash(board, n - 1) ^ square_key(n - 1, board[n - 1])
    }
}

/// The combined keys of the castling rights that are held.
pub open spec fn castle_hash(castle: Seq<bool>) -> u64 {
    (if castle[0] {
        castle_key(0)
    } else {
        0
    }) ^ (if castle[1] {
        castle_key(1)
    } else {
        0
    }) ^ (if castle[2] {
        castle_key(2)
    } else {
        0
    }) ^ (if castle[3] {
        castle_key(3)
    } else {
        0
    })
}

/// The key of the file of the en-passant target, if there is one.
pub open spec fn ep_hash(ep: u64) -> u64 {
    if ep == 0 {
        0
    } else {
        ep_key(col_of(lowest(ep)))
    }
}

/// The key of the side to move: nothing for white.
pub open spec fn side_hash(side: Side) -> u64 {
    match side {
        Side::White => 0,
        Side::Black => side_key(),
    }
}

/// The fingerprint of a position.
pub open spec fn zobrist_of(p: Position) -> u64 {
    pieces_hash(p.board, 64) ^ castle_hash(p.castle) ^ ep_hash(p.ep) ^ side_hash(p.side)
}

/// Changing what stands on one square changes the combined keys by the key of
/// what stood there and the key of what stands there now.
pub proof fn lemma_pieces_hash_update(
    board: Seq<Option<ChessPiece>>,
    s: int,
    x: Option<ChessPiece>,
    n: int,
)
    requires
        board.len() == 64,
        0 <= s < 64,
        0 <= n <= 64,
    ensures
        s < n ==> pieces_hash(board.update(s, x), n) == (pieces_hash(board, n) ^ square_key(
            s,
            board[s],
        )) ^ square_key(s, x),
        s >= n ==> pieces_hash(board.update(s, x), n) == pieces_hash(board, n),
    decreases n,
{
    if n > 0 {
        lemma_pieces_hash_update(board, s, x, n - 1);
        let a = pieces_hash(board, n - 1);
        let k = square_key(s, board[s]);
        let kx = square_key(s, x);
        if s == n - 1 {
            lemma_xor_undo(a, k);
        } else if s < n - 1 {
            lemma_xor_swap(a, k, kx, square_key(n - 1, board[n - 1]));
        }
    }
}

/// The key with number `n`.
pub fn compute_key(n: u64) -> (k: u64)
    ensures
        k == key(n),
{
    let a = n.wrapping_mul(0x9e37_79b9_7f4a_7c15);
    let b = (a ^ (a >> 30)).wrapping_mul(0xbf58_476d_1ce4_e5b9);
    let c = (b ^ (b >> 27)).wrapping_mul(0x94d0_49bb_1331_11eb);
    c ^ (c >> 31)
}

impl ZobristHash {
    pub fn to_u64(&self) -> (r: u64)
        ensures
            r == self.0,
    {
        self.0
    }

    pub fn new(value: u64) -> (h: ZobristHash)
        ensures
            h.0 == value,
    {
        ZobristHash(value)
    }

    /// The key of a castling right.
    pub fn castle_hash(castling: Castling) -> (h: ZobristHash)
        ensures
            h.0 == castle_key(castling.idx()),
    {
        ZobristHash(compute_key(769 + castling.to_index() as u64))
    }

    /// The key of a piece on a square.
    pub fn piece_hash(square: Square, chesspiece: ChessPiece) -> (h: ZobristHash)
        ensures
            h.0 == piece_key(square.idx(), chesspiece),
    {
        ZobristHash(
            compute_key(1 + (square.as_usize() as u64) * 12 + chesspiece.to_index() as u64),
        )
    }

    /// The key of the file of the en-passant target; nothing if there is no target.
    pub fn enpassant_hash(enpassant_bb: Bitboard) -> (h: ZobristHash)
        ensures
            h.0 == ep_hash(enpassant_bb.0),
    {
        match enpassant_bb.lsb_square() {
            Some(square) => ZobristHash(compute_key(773 + square.as_col_usize() as u64)),
            None => ZobristHash(0),
        }
    }

    /// The key of black to move.
    pub fn side_hash() -> (h: ZobristHash)
        ensures
            h.0 == side_key(),
    {
        ZobristHash(compute_key(781))
    }

    /// The combined keys of the castling rights that are held.
    pub fn compute_castle_hash(castle: &[bool; 4]) -> (h: ZobristHash)
        ensures
            h.0 == castle_hash(castle@),
    {
        let a = if castle[0] {
            compute_key(769)
        } else {
            0
        };
        let b = if castle[1] {
            compute_key(770)
        } else {
            0
        };
        let c = if castle[2] {
            compute_key(771)
        } else {
            0
        };
        let d = if castle[3] {
            compute_key(772)
        } else {
            0
        };
        ZobristHash(a ^ b ^ c ^ d)
    }

    /// The fingerprint of a position, computed from all of its features.
    pub fn compute_hash(side: Side, mb: &OptionMailbox, castle: [bool; 4], enpassant: Bitboard) -> (h:
        ZobristHash)
        ensures
            h.0 == pieces_hash(mb@, 64) ^ castle_hash(castle@) ^ ep_hash(enpassant.0) ^ side_hash(
                side,
            ),
    {
        let mut value: u64 = 0;
        let mut i: usize = 0;
        while i < 64
            invariant
                i <= 64,
                value == pieces_hash(mb@, i as int),
            decreases 64 - i,
        {
            match mb.index(i) {
                Some(piece_data) => {
                    value = value ^ ZobristHash::piece_hash(Square::nth(i), piece_data).0;
                },
                None => {
                    proof {
                        lemma_xor_undo(value, 0);
                    }
                },
            }
            i += 1;
        }
        let c = ZobristHash::compute_castle_hash(&castle).0;
        let e = ZobristHash::enpassant_hash(enpassant).0;
        let s = match side {
            Side::White => 0,
            Side::Black => ZobristHash::side_hash().0,
        };
        ZobristHash(value ^ c ^ e ^ s)
    }

    pub fn bit_and(self, rhs: ZobristHash) -> (h: ZobristHash)
        ensures
            h.0 == self.0 & rhs.0,
    {
        ZobristHash(self.0 & rhs.0)
    }

    pub fn bit_or(self, rhs: ZobristHash) -> (h: ZobristHash)
        ensures
            h.0 == self.0 | rhs.0,
    {
        ZobristHash(self.0 | rhs.0)
    }

    pub fn bit_xor(self, rhs: ZobristHash) -> (h: ZobristHash)
        ensures
            h.0 == self.0 ^ rhs.0,
    {
        ZobristHash(self.0 ^ rhs.0)
    }

    pub fn bit_not(self) -> (h: ZobristHash)
        ensures
            h.0 == !self.0,
    {
        ZobristHash(!self.0)
    }
}

/// How often `h` occurs in `s`.
pub open spec fn occurrences(s: Seq<ZobristHash>, h: ZobristHash) -> nat
    decreases s.len(),
{
    if s.len() == 0 {
        0
    } else {
        occurrences(s.drop_last(), h) + (if s.last() == h {
            1nat
        } else {
            0nat
        })
    }
}

/// The fingerprints of the positions of a game, the first position first.
pub struct ZobristTable {
    pub data: Vec<ZobristHash>,
}

impl View for ZobristTable {
    type V = Seq<ZobristHash>;

    open spec fn view(&self) -> Seq<ZobristHash> {
        self.data@
    }
}

impl ZobristTable {
    /// The history of a game that starts at the position with fingerprint `hash`.
    pub fn new(hash: ZobristHash) -> (t: ZobristTable)
        ensures
            t@ == seq![hash],
    {
        let mut data: Vec<ZobristHash> = Vec::new();
        data.push(hash);
        assert(data@ =~= seq![hash]);
        ZobristTable { data }
    }

    /// Adds the fingerprint of the position that a move led to.
    pub fn push(&mut self, hash: ZobristHash)
        ensures
            final(self)@ == old(self)@.push(hash),
    {
        self.data.push(hash);
    }

    /// Takes the last fingerprint back. `hash` is the fingerprint that is expected there.
    pub fn remove_last(&mut self, hash: ZobristHash)
        requires
            old(self)@.len() > 0,
            old(self)@.last() == hash,
        ensures
            final(self)@ == old(self)@.drop_last(),
    {
        self.data.pop();
    }

    /// How often `hash` occurs in the history.
    pub fn count_hash(&self, hash: ZobristHash) -> (n: usize)
        ensures
            n == occurrences(self@, hash),
    {
        let mut n: usize = 0;
        let mut i: usize = 0;
        while i < self.data.len()
            invariant
                i <= self.data@.len(),
                n == occurrences(self.data@.take(i as int), hash),
                n <= i,
            decreases self.data@.len() - i,
        {
            assert(self.data@.take(i + 1).drop_last() =~= self.data@.take(i as int));
            if self.data[i].0 == hash.0 {
                n += 1;
            }
            i += 1;
        }
        assert(self.data@.take(self.data@.len() as int) =~= self.data@);
        n
    }
}

} // verus!
