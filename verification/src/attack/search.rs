//! Finding multipliers by trial: random candidates are tried until one serves.

use vstd::prelude::*;
use crate::attack::magic::{
    bishop_mbb_mask, build_magic_table, mask_fits, rook_mbb_mask, slider_mask,
};
use crate::attack::numbers::{BISHOP_OCC_BITCOUNT, ROOK_OCC_BITCOUNT};
use crate::attack::{magic_ok, magics_ok};
use crate::bitboard::Bitboard;
use crate::chesspiece::PieceType;

verus! {

/// `rand::random` draws a 64-bit word at random. Nothing is promised of it.
#[verifier::external_body]
fn random_word() -> u64 {
    rand::random::<u64>()
}

/// Whether a piece kind is one of the two sliders that have tables of their own.
pub open spec fn has_table(piece_type: PieceType) -> bool {
    piece_type == PieceType::Bishop || piece_type == PieceType::Rook
}

/// The relevant mask of a slider on a square.
pub fn relevant_mask(rook: bool, square: usize) -> (m: Bitboard)
    requires
        square < 64,
    ensures
        m.0 == slider_mask(rook, square as int),
{
    if rook {
        rook_mbb_mask()[square]
    } else {
        bishop_mbb_mask()[square]
    }
}

/// Whether `magic` serves `square` with `bits` index bits.
pub fn try_magic(rook: bool, square: usize, bits: usize, magic: u64) -> (r: bool)
    requires
        square < 64,
    ensures
        r == magic_ok(rook, square as int, magic, bits as int),
{
    if bits < 1 || bits > 12 {
        return false;
    }
    let mask = relevant_mask(rook, square);
    if !mask_fits(mask, bits) {
        return false;
    }
    build_magic_table(rook, square, magic, bits, mask).is_some()
}

/// Whether a candidate is worth trying: its product with the mask has at
/// least six set bits among its top eight.
pub open spec fn promising(mask: u64, magic: u64) -> bool {
    crate::bits::popcount(mask.wrapping_mul(magic) & 0xff00_0000_0000_0000) >= 6
}

/// A candidate with few set bits: the bits that three words share.
pub fn sparse_word(a: u64, b: u64, c: u64) -> (r: u64)
    ensures
        r == a & b & c,
{
    a & b & c
}

/// What a search makes of one candidate: the candidate itself if it is
/// promising and serves the square with `bits` index bits, and nothing if not.
pub open spec fn candidate_result(rook: bool, square: int, bits: int, candidate: u64) -> Option<
    u64,
> {
    if promising(slider_mask(rook, square), candidate) && magic_ok(rook, square, candidate, bits) {
        Some(candidate)
    } else {
        None
    }
}

/// Decides on one candidate: it is returned if it is promising and serves
/// the square.
pub fn try_candidate(rook: bool, square: usize, bits: usize, candidate: u64) -> (r: Option<u64>)
    requires
        square < 64,
    ensures
        r == candidate_result(rook, square as int, bits as int, candidate),
{
    let mask = relevant_mask(rook, square);
    if (mask.0.wrapping_mul(candidate) & 0xff00_0000_0000_0000).count_ones() < 6 {
        return None;
    }
    if try_magic(rook, square, bits, candidate) {
        Some(candidate)
    } else {
        None
    }
}

/// Tries up to `max_attempts` random candidates with few set bits for the
/// slider `piece_type` on `square`, and returns the first that is promising
/// and serves the square; `None` if none of them does.
pub fn find_magic_number(
    square: usize,
    mask_bitcount: usize,
    piece_type: PieceType,
    max_attempts: usize,
) -> (r: Option<u64>)
    requires
        square < 64,
        has_table(piece_type),
    ensures
        r matches Some(m) ==> magic_ok(
            piece_type == PieceType::Rook,
            square as int,
            m,
            mask_bitcount as int,
        ) && promising(slider_mask(piece_type == PieceType::Rook, square as int), m),
        max_attempts == 0 ==> r is None,
{
    let rook = match piece_type {
        PieceType::Rook => true,
        _ => false,
    };
    let mut attempts: usize = 0;
    while attempts < max_attempts
        invariant
            square < 64,
            rook == (piece_type == PieceType::Rook),
        decreases max_attempts - attempts,
    {
        let magic_num: u64 = sparse_word(random_word(), random_word(), random_word());
        attempts += 1;
        match try_candidate(rook, square, mask_bitcount, magic_num) {
            Some(m) => {
                return Some(m);
            },
            None => {},
        }
    }
    None
}

/// Whether no number occurs twice in a list.
pub open spec fn distinct(v: Seq<u64>) -> bool {
    forall|i: int, j: int| 0 <= i < j < v.len() ==> v[i] != v[j]
}

/// What is kept of the outcome of a search: the multiplier that was found,
/// unless none was found or it is one of those already taken.
pub open spec fn kept(taken: Seq<u64>, found: Option<u64>) -> Option<u64> {
    match found {
        Some(m) => if exists|k: int| 0 <= k < taken.len() && taken[k] == m {
            None
        } else {
            Some(m)
        },
        None => None,
    }
}

/// Decides on the outcome of one search for a square: a multiplier is kept
/// if it is not yet taken by another square.
pub fn keep_fresh(taken: &Vec<u64>, found: Option<u64>) -> (r: Option<u64>)
    ensures
        r == kept(taken@, found),
{
    match found {
        Some(m) => if contains_word(taken, m) {
            None
        } else {
            Some(m)
        },
        None => None,
    }
}

/// Finds a multiplier for each square, no two of them equal, with up to
/// `max_attempts` searches for each square; `None` if a square is left without.
pub fn init_magics(piece_type: PieceType, max_attempts: usize) -> (r: Option<Vec<u64>>)
    requires
        has_table(piece_type),
    ensures
        r matches Some(v) ==> distinct(v@) && magics_ok(
            piece_type == PieceType::Rook,
            v@,
            if piece_type == PieceType::Rook {
                ROOK_OCC_BITCOUNT@
            } else {
                BISHOP_OCC_BITCOUNT@
            },
        ),
        max_attempts == 0 ==> r is None,
{
    let rook = match piece_type {
        PieceType::Rook => true,
        _ => false,
    };
    let ghost bits = if rook {
        ROOK_OCC_BITCOUNT@
    } else {
        BISHOP_OCC_BITCOUNT@
    };
    let mut magic_nums: Vec<u64> = Vec::new();
    let mut i: usize = 0;
    while i < 64
        invariant
            i <= 64,
            has_table(piece_type),
            rook == (piece_type == PieceType::Rook),
            bits == (if rook {
                ROOK_OCC_BITCOUNT@
            } else {
                BISHOP_OCC_BITCOUNT@
            }),
            magic_nums@.len() == i,
            distinct(magic_nums@),
            forall|k: int| 0 <= k < i ==> #[trigger] magic_ok(rook, k, magic_nums@[k], bits[k] as int),
            max_attempts == 0 ==> i == 0,
        decreases 64 - i,
    {
        let bitcount = if rook {
            ROOK_OCC_BITCOUNT[i]
        } else {
            BISHOP_OCC_BITCOUNT[i]
        };
        let mut found: Option<u64> = None;
        let mut tries: usize = 0;
        while found.is_none() && tries < max_attempts
            invariant
                i < 64,
                has_table(piece_type),
                rook == (piece_type == PieceType::Rook),
                magic_nums@.len() == i,
                max_attempts == 0 ==> found is None,
                found matches Some(m) ==> magic_ok(rook, i as int, m, bitcount as int) && forall|
                    k: int,
                | 0 <= k < i ==> magic_nums@[k] != m,
            decreases
                    (if found is None {
                        1int
                    } else {
                        0int
                    }),
                    max_attempts - tries,
        {
            tries += 1;
            let outcome = find_magic_number(i, bitcount, piece_type, max_attempts);
            found = keep_fresh(&magic_nums, outcome);
        }
        match found {
            Some(m) => {
                magic_nums.push(m);
            },
            None => {
                return None;
            },
        }
        i += 1;
    }
    Some(magic_nums)
}

/// Whether a number occurs in a list.
pub fn contains_word(v: &Vec<u64>, x: u64) -> (r: bool)
    ensures
        r == exists|k: int| 0 <= k < v@.len() && v@[k] == x,
{
    let mut k: usize = 0;
    while k < v.len()
        invariant
            k <= v@.len(),
            forall|j: int| 0 <= j < k ==> v@[j] != x,
        decreases v@.len() - k,
    {
        if v[k] == x {
            return true;
        }
        k += 1;
    }
    false
}

} // verus!
