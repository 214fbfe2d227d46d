//! Sets of squares held in one 64-bit word: bit `i` is set exactly when square
//! number `i` is a member.

use vstd::prelude::*;
use crate::bits::{
    drop_lowest, lemma_lowest, lemma_member_and, lemma_member_not, lemma_member_or,
    lemma_member_single, lemma_member_test, lowest, member, popcount, single,
};
use crate::square::{col_of, on_board, row_of, Square};

verus! {

/// A set of squares.
#[derive(Debug, Copy, Clone, PartialEq, Eq, Structural)]
pub struct Bitboard(pub u64);

/// Every square but those of file a.
pub const NOT_FILE_A: u64 = 0xfefe_fefe_fefe_fefe;

/// Every square but those of file h.
pub const NOT_FILE_H: u64 = 0x7f7f_7f7f_7f7f_7f7f;

/// The squares of the first rank.
pub const FIRST_ROW: u64 = 0xff;

/// The squares of the first and the last rank, where pawns promote.
pub const PROMOTION_SQUARES: u64 = 0xff00_0000_0000_00ff;

/// `std`'s population count: the number of set bits of the word.
pub assume_specification[ u64::count_ones ](x: u64) -> (r: u32)
    ensures
        r == popcount(x),
;

/// The squares of rank `r`.
pub open spec fn row_mask(r: int) -> u64
    recommends
        0 <= r < 8,
{
    FIRST_ROW << ((8 * r) as u64)
}

/// A square is in the mask of a rank exactly when it lies on that rank.
pub proof fn lemma_row_mask(r: int, i: int)
    requires
        0 <= r < 8,
        on_board(i),
    ensures
        member(row_mask(r), i) == (row_of(i) == r),
{
    let k = i as u64;
    let s = (8 * r) as u64;
    assert((((0xffu64 << s) >> k) & 1 == 1) == (s <= k && k < s + 8)) by (bit_vector)
        requires
            k < 64,
            s <= 56,
    ;
}

impl View for Bitboard {
    type V = Set<int>;

    /// The numbers of the squares in the set.
    open spec fn view(&self) -> Set<int> {
        Set::new(|i: int| member(self.0, i))
    }
}

impl Bitboard {
    /// Whether the square is a member.
    pub open spec fn contains(self, s: Square) -> bool {
        member(self.0, s.idx())
    }

    /// The number of members.
    pub open spec fn count(self) -> nat {
        popcount(self.0)
    }

    /// The empty set.
    pub fn zero() -> (b: Bitboard)
        ensures
            b.0 == 0,
    {
        Bitboard(0)
    }

    /// The set of all squares.
    pub fn ones() -> (b: Bitboard)
        ensures
            b.0 == u64::MAX,
    {
        Bitboard(u64::MAX)
    }

    /// The squares of rank `nth`.
    pub fn rows(nth: usize) -> (b: Bitboard)
        requires
            nth < 8,
        ensures
            b.0 == row_mask(nth as int),
    {
        Bitboard(FIRST_ROW << ((8 * nth) as u64))
    }

    /// The set that holds one square.
    pub fn nth(sq: Square) -> (b: Bitboard)
        ensures
            b.0 == single(sq.idx()),
    {
        Bitboard(1u64 << (sq.as_usize() as u64))
    }

    pub fn new(data: u64) -> (b: Bitboard)
        ensures
            b.0 == data,
    {
        Bitboard(data)
    }

    /// Whether the square is not a member.
    pub fn nth_is_zero(&self, sq: Square) -> (r: bool)
        ensures
            r == !self.contains(sq),
    {
        let k = sq.as_usize() as u64;
        proof {
            lemma_member_test(self.0, k as int);
        }
        self.0 & (1u64 << k) == 0
    }

    /// Whether the square is a member.
    pub fn nth_is_not_zero(&self, sq: Square) -> (r: bool)
        ensures
            r == self.contains(sq),
    {
        !self.nth_is_zero(sq)
    }

    /// Whether the set is empty.
    pub fn is_zero(&self) -> (r: bool)
        ensures
            r == (self.0 == 0),
    {
        self.0 == 0u64
    }

    /// Whether the set has a member.
    pub fn is_not_zero(&self) -> (r: bool)
        ensures
            r == (self.0 != 0),
    {
        self.0 != 0u64
    }

    /// Adds a square.
    pub fn set_bit(&mut self, square: Square)
        ensures
            final(self).0 == old(self).0 | single(square.idx()),
            forall|i: int| #[trigger] member(final(self).0, i) == (member(old(self).0, i) || i == square.idx()),
    {
        proof {
            square.lemma_idx();
            let x = self.0;
            assert forall|i: int| #[trigger] member(x | single(square.idx()), i) == (member(x, i) || i
                == square.idx()) by {
                lemma_member_or(x, single(square.idx()), i);
                lemma_member_single(square.idx(), i);
            }
        }
        self.0 = self.0 | (1u64 << (square.as_usize() as u64));
    }

    /// The set's members among the one square number `i`.
    pub fn get_bit(&self, i: usize) -> (b: Bitboard)
        requires
            i < 64,
        ensures
            b.0 == self.0 & single(i as int),
    {
        Bitboard(self.0 & (1u64 << (i as u64)))
    }

    /// Removes a square.
    pub fn pop_bit(&mut self, square: Square)
        ensures
            final(self).0 == old(self).0 & !single(square.idx()),
            forall|i: int| #[trigger] member(final(self).0, i) == (member(old(self).0, i) && i != square.idx()),
    {
        proof {
            square.lemma_idx();
            let x = self.0;
            assert forall|i: int| #[trigger] member(x & !single(square.idx()), i) == (member(x, i) && i
                != square.idx()) by {
                lemma_member_and(x, !single(square.idx()), i);
                if 0 <= i < 64 {
                    lemma_member_not(single(square.idx()), i);
                }
                lemma_member_single(square.idx(), i);
            }
        }
        self.0 = self.0 & !(1u64 << (square.as_usize() as u64));
    }

    /// Removes the member with the lowest number, if there is one.
    pub fn pop_lsb(&mut self)
        ensures
            final(self).0 == drop_lowest(old(self).0),
    {
        if self.0 != 0 {
            self.0 = self.0 & (self.0 - 1);
        }
    }

    /// The number of the lowest member; `None` for the empty set.
    pub fn lsb_index(&self) -> (r: Option<usize>)
        ensures
            match r {
                Some(i) => self.0 != 0 && i == lowest(self.0) && i < 64,
                None => self.0 == 0,
            },
    {
        if self.0 == 0 {
            None
        } else {
            proof {
                lemma_lowest(self.0);
            }
            Some(self.0.trailing_zeros() as usize)
        }
    }

    /// The lowest member; `None` for the empty set.
    pub fn lsb_square(&self) -> (r: Option<Square>)
        ensures
            match r {
                Some(s) => self.0 != 0 && s.idx() == lowest(self.0),
                None => self.0 == 0,
            },
    {
        if self.0 == 0 {
            None
        } else {
            proof {
                lemma_lowest(self.0);
            }
            Some(Square::nth(self.0.trailing_zeros() as usize))
        }
    }

    /// The set that holds only the lowest member; empty for the empty set.
    pub fn lsb_bitboard(&self) -> (b: Bitboard)
        ensures
            self.0 == 0 ==> b.0 == 0,
            self.0 != 0 ==> b.0 == single(lowest(self.0)),
    {
        if self.0 == 0 {
            Bitboard(0)
        } else {
            proof {
                lemma_lowest(self.0);
            }
            Bitboard(1u64 << (self.0.trailing_zeros() as u64))
        }
    }

    /// The number of members.
    pub fn count_ones(&self) -> (r: u32)
        ensures
            r == self.count(),
    {
        self.0.count_ones()
    }

    /// Intersection.
    pub fn bit_and(&self, other: &Bitboard) -> (b: Bitboard)
        ensures
            b.0 == self.0 & other.0,
    {
        Bitboard(self.0 & other.0)
    }

    /// Union.
    pub fn bit_or(&self, other: &Bitboard) -> (b: Bitboard)
        ensures
            b.0 == self.0 | other.0,
    {
        Bitboard(self.0 | other.0)
    }

    /// Symmetric difference.
    pub fn bit_xor(&self, other: &Bitboard) -> (b: Bitboard)
        ensures
            b.0 == self.0 ^ other.0,
    {
        Bitboard(self.0 ^ other.0)
    }

    /// Complement.
    pub fn bit_not(&self) -> (b: Bitboard)
        ensures
            b.0 == !self.0,
    {
        Bitboard(!self.0)
    }

    /// The set mirrored top to bottom: square `i` of the result is square
    /// `i ^ 56` of `self`, which has the same file and the opposite rank.
    pub fn flip(&self) -> (b: Bitboard)
        ensures
            b.0 == flipped(self.0),
    {
        let x = self.0;
        Bitboard(
            (x << 56) | ((x << 40) & 0x00ff_0000_0000_0000) | ((x << 24) & 0x0000_ff00_0000_0000)
                | ((x << 8) & 0x0000_00ff_0000_0000) | ((x >> 8) & 0x0000_0000_ff00_0000) | ((x
                >> 24) & 0x0000_0000_00ff_0000) | ((x >> 40) & 0x0000_0000_0000_ff00) | (x >> 56),
        )
    }

    /// Every member moved `rhs` numbers up; members that would leave the word are dropped.
    pub fn shl(&self, rhs: u32) -> (b: Bitboard)
        ensures
            b.0 == shifted_up(self.0, rhs as int),
    {
        if rhs >= 64 {
            Bitboard(0)
        } else {
            Bitboard(self.0 << (rhs as u64))
        }
    }

    /// Every member moved `rhs` numbers down; members that would leave the word are dropped.
    pub fn shr(&self, rhs: u32) -> (b: Bitboard)
        ensures
            b.0 == shifted_down(self.0, rhs as int),
    {
        if rhs >= 64 {
            Bitboard(0)
        } else {
            Bitboard(self.0 >> (rhs as u64))
        }
    }
}

/// The word with its eight bytes in the opposite order.
pub open spec fn flipped(x: u64) -> u64 {
    (x << 56) | ((x << 40) & 0x00ff_0000_0000_0000) | ((x << 24) & 0x0000_ff00_0000_0000) | ((x
        << 8) & 0x0000_00ff_0000_0000) | ((x >> 8) & 0x0000_0000_ff00_0000) | ((x >> 24)
        & 0x0000_0000_00ff_0000) | ((x >> 40) & 0x0000_0000_0000_ff00) | (x >> 56)
}

/// `x` shifted towards higher numbers by `n`, empty from 64 on.
pub open spec fn shifted_up(x: u64, n: int) -> u64 {
    if 0 <= n < 64 {
        x << (n as u64)
    } else {
        0
    }
}

/// `x` shifted towards lower numbers by `n`, empty from 64 on.
pub open spec fn shifted_down(x: u64, n: int) -> u64 {
    if 0 <= n < 64 {
        x >> (n as u64)
    } else {
        0
    }
}

/// A square is in the mirrored set exactly when its mirror image is in the set.
pub proof fn lemma_flipped(x: u64, i: int)
    requires
        on_board(i),
    ensures
        member(flipped(x), i) == member(x, (7 - row_of(i)) * 8 + col_of(i)),
{
    let k = i as u64;
    let j = ((7 - row_of(i)) * 8 + col_of(i)) as u64;
    assert(j == k ^ 56) by (bit_vector)
        requires
            k < 64,
            j == (7 - k / 8) * 8 + k % 8,
    ;
    let f = flipped(x);
    assert(((f >> k) & 1 == 1) == ((x >> (k ^ 56)) & 1 == 1)) by (bit_vector)
        requires
            k < 64,
            f == (x << 56) | ((x << 40) & 0x00ff_0000_0000_0000) | ((x << 24)
                & 0x0000_ff00_0000_0000) | ((x << 8) & 0x0000_00ff_0000_0000) | ((x >> 8)
                & 0x0000_0000_ff00_0000) | ((x >> 24) & 0x0000_0000_00ff_0000) | ((x >> 40)
                & 0x0000_0000_0000_ff00) | (x >> 56),
    ;
}

} // verus!
