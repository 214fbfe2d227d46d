//! Attack sets computed square by square: the leaping pieces by guarded shifts,
//! the sliding pieces by walking each line until the first occupied square.

use vstd::prelude::*;
use crate::bitboard::Bitboard;
use crate::bits::{
    lemma_member_test, lemma_or_assoc, lemma_or_zero, lemma_single_down, lemma_single_up, member,
    single,
};
use crate::chesspiece::Side;
use crate::square::{col_of, row_of};

verus! {

/// Whether rank `r` and file `c` name a square.
pub open spec fn in_range(r: int, c: int) -> bool {
    0 <= r < 8 && 0 <= c < 8
}

/// The one-square set reached from square `i` by `dr` ranks and `dc` files;
/// empty where that leaves the board.
pub open spec fn step(i: int, dr: int, dc: int) -> u64 {
    let r = row_of(i) + dr;
    let c = col_of(i) + dc;
    if in_range(r, c) {
        single(r * 8 + c)
    } else {
        0
    }
}

/// The squares that a pawn of `side` on square `i` attacks: one rank ahead,
/// one file to either side.
pub open spec fn pawn_attacks(side: Side, i: int) -> u64 {
    match side {
        Side::White => 0 | step(i, 1, -1) | step(i, 1, 1),
        Side::Black => 0 | step(i, -1, -1) | step(i, -1, 1),
    }
}

/// The squares that a knight on square `i` attacks.
pub open spec fn knight_attacks(i: int) -> u64 {
    0 | step(i, 2, 1) | step(i, 2, -1) | step(i, 1, 2) | step(i, 1, -2) | step(i, -1, 2) | step(
        i,
        -1,
        -2,
    ) | step(i, -2, 1) | step(i, -2, -1)
}

/// The squares that a king on square `i` attacks.
pub open spec fn king_attacks(i: int) -> u64 {
    0 | step(i, 1, 0) | step(i, -1, 0) | step(i, 0, -1) | step(i, 0, 1) | step(i, 1, -1) | step(
        i,
        1,
        1,
    ) | step(i, -1, -1) | step(i, -1, 1)
}

/// Whether `(dr, dc)` is one of the eight directions of a line.
pub open spec fn is_dir(dr: int, dc: int) -> bool {
    -1 <= dr <= 1 && -1 <= dc <= 1 && !(dr == 0 && dc == 0)
}

/// An upper bound on the steps that stay on the board from `(r, c)` in a direction.
pub open spec fn steps_left(r: int, c: int, dr: int, dc: int) -> int {
    if dr > 0 {
        8 - r
    } else if dr < 0 {
        r + 1
    } else if dc > 0 {
        8 - c
    } else {
        c + 1
    }
}

/// The squares seen from `(r, c)` onwards in direction `(dr, dc)`: `(r, c)`
/// itself if it is on the board and, unless it is occupied, what is seen from
/// the next square on. The walk stops at the first occupied square, inclusive.
pub open spec fn walk(r: int, c: int, dr: int, dc: int, occ: u64) -> u64
    decreases steps_left(r, c, dr, dc),
{
    if !in_range(r, c) || !is_dir(dr, dc) {
        0
    } else if member(occ, r * 8 + c) {
        single(r * 8 + c)
    } else {
        single(r * 8 + c) | walk(r + dr, c + dc, dr, dc, occ)
    }
}

/// The squares attacked from square `i` along direction `(dr, dc)`.
pub open spec fn ray_attacks(i: int, dr: int, dc: int, occ: u64) -> u64 {
    walk(row_of(i) + dr, col_of(i) + dc, dr, dc, occ)
}

/// The squares that a bishop on square `i` attacks when the squares of `occ` are occupied.
pub open spec fn bishop_attacks(i: int, occ: u64) -> u64 {
    ray_attacks(i, 1, 1, occ) | ray_attacks(i, -1, 1, occ) | ray_attacks(i, 1, -1, occ)
        | ray_attacks(i, -1, -1, occ)
}

/// The squares that a rook on square `i` attacks when the squares of `occ` are occupied.
pub open spec fn rook_attacks(i: int, occ: u64) -> u64 {
    ray_attacks(i, 0, -1, occ) | ray_attacks(i, 0, 1, occ) | ray_attacks(i, 1, 0, occ)
        | ray_attacks(i, -1, 0, occ)
}

/// The squares that a queen on square `i` attacks when the squares of `occ` are occupied.
pub open spec fn queen_attacks(i: int, occ: u64) -> u64 {
    bishop_attacks(i, occ) | rook_attacks(i, occ)
}

/// The table of pawn attacks of one side, one entry for each square.
pub fn init_pawn_attack(side: Side) -> (t: Vec<Bitboard>)
    ensures
        t@.len() == 64,
        forall|i: int| 0 <= i < 64 ==> (#[trigger] t@[i]).0 == pawn_attacks(side, i),
{
    let mut t: Vec<Bitboard> = Vec::new();
    let mut i: u64 = 0;
    while i < 64
        invariant
            i <= 64,
            t@.len() == i,
            forall|k: int| 0 <= k < i ==> (#[trigger] t@[k]).0 == pawn_attacks(side, k),
        decreases 64 - i,
    {
        let mut data: u64 = 0u64;
        let ghost n = i as int;
        match side {
            Side::White => {
                if i < 56 {
                    if i % 8 > 0 {
                        proof {
                            lemma_single_up(n, 7);
                        }
                        data |= (1u64 << i) << 7;
                    }
                    if i % 8 < 7 {
                        proof {
                            lemma_single_up(n, 9);
                        }
                        data |= (1u64 << i) << 9;
                    }
                }
                proof {
                    lemma_or_zero(0);
                    lemma_or_zero(0 | step(n, 1, -1));
                }
            },
            Side::Black => {
                if i > 7 {
                    if i % 8 > 0 {
                        proof {
                            lemma_single_down(n, 9);
                        }
                        data |= (1u64 << i) >> 9;
                    }
                    if i % 8 < 7 {
                        proof {
                            lemma_single_down(n, 7);
                        }
                        data |= (1u64 << i) >> 7;
                    }
                }
                proof {
                    lemma_or_zero(0);
                    lemma_or_zero(0 | step(n, -1, -1));
                }
            },
        }
        t.push(Bitboard(data));
        i += 1;
    }
    t
}

/// The table of knight attacks, one entry for each square.
pub fn init_knight_attack() -> (t: Vec<Bitboard>)
    ensures
        t@.len() == 64,
        forall|i: int| 0 <= i < 64 ==> (#[trigger] t@[i]).0 == knight_attacks(i),
{
    let mut t: Vec<Bitboard> = Vec::new();
    let mut i: u64 = 0;
    while i < 64
        invariant
            i <= 64,
            t@.len() == i,
            forall|k: int| 0 <= k < i ==> (#[trigger] t@[k]).0 == knight_attacks(k),
        decreases 64 - i,
    {
        let mut data: u64 = 0u64;
        let ghost n = i as int;
        if i < 48 {
            if i % 8 < 7 {
                proof {
                    lemma_single_up(n, 17);
                }
                data |= (1u64 << i) << 17;
            }
        }
        proof {
            lemma_or_zero(0);
        }
        assert(data == 0 | step(n, 2, 1));
        let ghost d1 = data;
        if i < 48 {
            if i % 8 > 0 {
                proof {
                    lemma_single_up(n, 15);
                }
                data |= (1u64 << i) << 15;
            }
        }
        proof {
            lemma_or_zero(d1);
        }
        assert(data == d1 | step(n, 2, -1));
        let ghost d2 = data;
        if i < 56 {
            if i % 8 < 6 {
                proof {
                    lemma_single_up(n, 10);
                }
                data |= (1u64 << i) << 10;
            }
        }
        proof {
            lemma_or_zero(d2);
        }
        assert(data == d2 | step(n, 1, 2));
        let ghost d3 = data;
        if i < 56 {
            if i % 8 > 1 {
                proof {
                    lemma_single_up(n, 6);
                }
                data |= (1u64 << i) << 6;
            }
        }
        proof {
            lemma_or_zero(d3);
        }
        assert(data == d3 | step(n, 1, -2));
        let ghost d4 = data;
        if i > 7 {
            if i % 8 < 6 {
                proof {
                    lemma_single_down(n, 6);
                }
                data |= (1u64 << i) >> 6;
            }
        }
        proof {
            lemma_or_zero(d4);
        }
        assert(data == d4 | step(n, -1, 2));
        let ghost d5 = data;
        if i > 7 {
            if i % 8 > 1 {
                proof {
                    lemma_single_down(n, 10);
                }
                data |= (1u64 << i) >> 10;
            }
        }
        proof {
            lemma_or_zero(d5);
        }
        assert(data == d5 | step(n, -1, -2));
        let ghost d6 = data;
        if i > 15 {
            if i % 8 < 7 {
                proof {
                    lemma_single_down(n, 15);
                }
                data |= (1u64 << i) >> 15;
            }
        }
        proof {
            lemma_or_zero(d6);
        }
        assert(data == d6 | step(n, -2, 1));
        let ghost d7 = data;
        if i > 15 {
            if i % 8 > 0 {
                proof {
                    lemma_single_down(n, 17);
                }
                data |= (1u64 << i) >> 17;
            }
        }
        proof {
            lemma_or_zero(d7);
        }
        assert(data == d7 | step(n, -2, -1));
        t.push(Bitboard(data));
        i += 1;
    }
    t
}

/// The table of king attacks, one entry for each square.
pub fn init_king_attack() -> (t: Vec<Bitboard>)
    ensures
        t@.len() == 64,
        forall|i: int| 0 <= i < 64 ==> (#[trigger] t@[i]).0 == king_attacks(i),
{
    let mut t: Vec<Bitboard> = Vec::new();
    let mut i: u64 = 0;
    while i < 64
        invariant
            i <= 64,
            t@.len() == i,
            forall|k: int| 0 <= k < i ==> (#[trigger] t@[k]).0 == king_attacks(k),
        decreases 64 - i,
    {
        let mut data: u64 = 0u64;
        let ghost n = i as int;
        if i < 56 {
            proof {
                lemma_single_up(n, 8);
            }
            data |= (1u64 << i) << 8;
        }
        proof {
            lemma_or_zero(0);
        }
        assert(data == 0 | step(n, 1, 0));
        let ghost d1 = data;
        if i > 7 {
            proof {
                lemma_single_down(n, 8);
            }
            data |= (1u64 << i) >> 8;
        }
        proof {
            lemma_or_zero(d1);
        }
        assert(data == d1 | step(n, -1, 0));
        let ghost d2 = data;
        if i % 8 > 0 {
            proof {
                lemma_single_down(n, 1);
            }
            data |= (1u64 << i) >> 1;
        }
        proof {
            lemma_or_zero(d2);
        }
        assert(data == d2 | step(n, 0, -1));
        let ghost d3 = data;
        if i % 8 < 7 {
            proof {
                lemma_single_up(n, 1);
            }
            data |= (1u64 << i) << 1;
        }
        proof {
            lemma_or_zero(d3);
        }
        assert(data == d3 | step(n, 0, 1));
        let ghost d4 = data;
        if i < 56 && i % 8 > 0 {
            proof {
                lemma_single_up(n, 8);
                lemma_single_down(n + 8, 1);
            }
            data |= ((1u64 << i) << 8) >> 1;
        }
        proof {
            lemma_or_zero(d4);
        }
        assert(data == d4 | step(n, 1, -1));
        let ghost d5 = data;
        if i < 56 && i % 8 < 7 {
            proof {
                lemma_single_up(n, 8);
                lemma_single_up(n + 8, 1);
            }
            data |= ((1u64 << i) << 8) << 1;
        }
        proof {
            lemma_or_zero(d5);
        }
        assert(data == d5 | step(n, 1, 1));
        let ghost d6 = data;
        if i > 7 && i % 8 > 0 {
            proof {
                lemma_single_down(n, 8);
                lemma_single_down(n - 8, 1);
            }
            data |= ((1u64 << i) >> 8) >> 1;
        }
        proof {
            lemma_or_zero(d6);
        }
        assert(data == d6 | step(n, -1, -1));
        let ghost d7 = data;
        if i > 7 && i % 8 < 7 {
            proof {
                lemma_single_down(n, 8);
                lemma_single_up(n - 8, 1);
            }
            data |= ((1u64 << i) >> 8) << 1;
        }
        proof {
            lemma_or_zero(d7);
        }
        assert(data == d7 | step(n, -1, 1));
        t.push(Bitboard(data));
        i += 1;
    }
    t
}

/// The squares attacked from square `i` along one direction, found by walking
/// the line until it leaves the board or meets an occupied square.
pub fn naive_ray_attack(i: usize, dr: i8, dc: i8, blockers: Bitboard) -> (b: Bitboard)
    requires
        i < 64,
        is_dir(dr as int, dc as int),
    ensures
        b.0 == ray_attacks(i as int, dr as int, dc as int, blockers.0),
{
    let mut r: i8 = (i / 8) as i8 + dr;
    let mut c: i8 = (i % 8) as i8 + dc;
    let mut data: u64 = 0;
    let ghost total = ray_attacks(i as int, dr as int, dc as int, blockers.0);
    let mut open: bool = true;
    proof {
        lemma_or_zero(total);
    }
    while open && 0 <= r && r < 8 && 0 <= c && c < 8
        invariant
            is_dir(dr as int, dc as int),
            -1 <= r <= 8,
            -1 <= c <= 8,
            open ==> data | walk(r as int, c as int, dr as int, dc as int, blockers.0) == total,
            !open ==> data == total,
        decreases (if open { 1int } else { 0int }), steps_left(r as int, c as int, dr as int, dc as int),
    {
        let s: u64 = (r * 8 + c) as u64;
        let bit: u64 = 1u64 << s;
        let ghost rest = walk(r + dr, c + dc, dr as int, dc as int, blockers.0);
        proof {
            lemma_member_test(blockers.0, s as int);
            lemma_or_assoc(data, bit, rest);
        }
        data = data | bit;
        if blockers.0 & bit != 0 {
            open = false;
        } else {
            r = r + dr;
            c = c + dc;
        }
    }
    proof {
        if open {
            lemma_or_zero(data);
        }
    }
    Bitboard(data)
}

/// The squares that a bishop on square `i` attacks, found by walking its four diagonals.
pub fn naive_bishop_attack(i: usize, blockers: Bitboard) -> (b: Bitboard)
    requires
        i < 64,
    ensures
        b.0 == bishop_attacks(i as int, blockers.0),
{
    let a = naive_ray_attack(i, 1, 1, blockers);
    let b = naive_ray_attack(i, -1, 1, blockers);
    let c = naive_ray_attack(i, 1, -1, blockers);
    let d = naive_ray_attack(i, -1, -1, blockers);
    Bitboard(a.0 | b.0 | c.0 | d.0)
}

/// The squares that a rook on square `i` attacks, found by walking its rank and file.
pub fn naive_rook_attack(i: usize, blockers: Bitboard) -> (b: Bitboard)
    requires
        i < 64,
    ensures
        b.0 == rook_attacks(i as int, blockers.0),
{
    let a = naive_ray_attack(i, 0, -1, blockers);
    let b = naive_ray_attack(i, 0, 1, blockers);
    let c = naive_ray_attack(i, 1, 0, blockers);
    let d = naive_ray_attack(i, -1, 0, blockers);
    Bitboard(a.0 | b.0 | c.0 | d.0)
}

/// The table of bishop attacks on an empty board, one entry for each square.
pub fn init_bishop_attack() -> (t: Vec<Bitboard>)
    ensures
        t@.len() == 64,
        forall|i: int| 0 <= i < 64 ==> (#[trigger] t@[i]).0 == bishop_attacks(i, 0),
{
    let mut t: Vec<Bitboard> = Vec::new();
    let mut i: usize = 0;
    while i < 64
        invariant
            i <= 64,
            t@.len() == i,
            forall|k: int| 0 <= k < i ==> (#[trigger] t@[k]).0 == bishop_attacks(k, 0),
        decreases 64 - i,
    {
        t.push(naive_bishop_attack(i, Bitboard(0)));
        i += 1;
    }
    t
}

/// The table of rook attacks on an empty board, one entry for each square.
pub fn init_rook_attack() -> (t: Vec<Bitboard>)
    ensures
        t@.len() == 64,
        forall|i: int| 0 <= i < 64 ==> (#[trigger] t@[i]).0 == rook_attacks(i, 0),
{
    let mut t: Vec<Bitboard> = Vec::new();
    let mut i: usize = 0;
    while i < 64
        invariant
            i <= 64,
            t@.len() == i,
            forall|k: int| 0 <= k < i ==> (#[trigger] t@[k]).0 == rook_attacks(k, 0),
        decreases 64 - i,
    {
        t.push(naive_rook_attack(i, Bitboard(0)));
        i += 1;
    }
    t
}

} // verus!
