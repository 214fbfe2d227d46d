//! Perfect hashing of the occupancies that matter to a sliding piece.
//!
//! For each square the occupied squares that can stop a slider form its
//! relevant mask. A multiplier turns every subset of the mask into a slot of a
//! table that holds the attack set for that subset.

use vstd::prelude::*;
use crate::attack::init::{
    bishop_attacks, in_range, is_dir, naive_bishop_attack, naive_rook_attack, rook_attacks,
    steps_left, walk,
};
use crate::bitboard::Bitboard;
use crate::bits::{
    drop_lowest, lemma_and_idem, lemma_and_zero, lemma_drop_lowest, lemma_ext, lemma_lowest,
    lemma_member_and, lemma_member_or, lemma_member_single, lemma_member_zero, lemma_or_assoc,
    lemma_or_zero, lemma_table_size, lemma_top_bits, lowest, member, single, table_size,
};
use crate::square::{col_of, row_of};

verus! {

/// The largest number of squares in a relevant mask.
pub const MAX_BITS: usize = 12;

/// The squares from `(r, c)` onwards in a direction that have a further square
/// of the board behind them: the line without its last square.
pub open spec fn inner(r: int, c: int, dr: int, dc: int) -> u64
    decreases steps_left(r, c, dr, dc),
{
    if !in_range(r, c) || !is_dir(dr, dc) || !in_range(r + dr, c + dc) {
        0
    } else {
        single(r * 8 + c) | inner(r + dr, c + dc, dr, dc)
    }
}

/// The squares in one direction from square `i` whose occupancy matters.
pub open spec fn ray_mask(i: int, dr: int, dc: int) -> u64 {
    inner(row_of(i) + dr, col_of(i) + dc, dr, dc)
}

/// The squares whose occupancy matters to a bishop on square `i`.
pub open spec fn bishop_mask(i: int) -> u64 {
    ray_mask(i, 1, 1) | ray_mask(i, -1, 1) | ray_mask(i, 1, -1) | ray_mask(i, -1, -1)
}

/// The squares whose occupancy matters to a rook on square `i`.
pub open spec fn rook_mask(i: int) -> u64 {
    ray_mask(i, 0, -1) | ray_mask(i, 0, 1) | ray_mask(i, 1, 0) | ray_mask(i, -1, 0)
}

/// The attack set of a rook (`rook`) or a bishop on square `i`.
pub open spec fn slider_attacks(rook: bool, i: int, occ: u64) -> u64 {
    if rook {
        rook_attacks(i, occ)
    } else {
        bishop_attacks(i, occ)
    }
}

/// The relevant mask of a rook (`rook`) or a bishop on square `i`.
pub open spec fn slider_mask(rook: bool, i: int) -> u64 {
    if rook {
        rook_mask(i)
    } else {
        bishop_mask(i)
    }
}

/// Two occupancies that agree on the inner squares of a line give the same walk.
pub proof fn lemma_walk_inner(r: int, c: int, dr: int, dc: int, occ: u64, occ2: u64)
    requires
        forall|s: int| member(inner(r, c, dr, dc), s) ==> member(occ, s) == member(occ2, s),
    ensures
        walk(r, c, dr, dc, occ) == walk(r, c, dr, dc, occ2),
    decreases steps_left(r, c, dr, dc),
{
    if in_range(r, c) && is_dir(dr, dc) {
        let s = r * 8 + c;
        if in_range(r + dr, c + dc) {
            let rest = inner(r + dr, c + dc, dr, dc);
            lemma_member_or(single(s), rest, s);
            lemma_member_single(s, s);
            assert forall|t: int| member(rest, t) implies member(occ, t) == member(occ2, t) by {
                lemma_member_or(single(s), rest, t);
            }
            lemma_walk_inner(r + dr, c + dc, dr, dc, occ, occ2);
        } else {
            assert(walk(r + dr, c + dc, dr, dc, occ) == 0);
            assert(walk(r + dr, c + dc, dr, dc, occ2) == 0);
            lemma_or_zero(single(s));
        }
    }
}

/// Only the occupancy of the relevant mask matters to a rook.
pub proof fn lemma_rook_mask(i: int, occ: u64)
    ensures
        rook_attacks(i, occ) == rook_attacks(i, occ & rook_mask(i)),
{
    let m = rook_mask(i);
    let a = ray_mask(i, 0, -1);
    let b = ray_mask(i, 0, 1);
    let c = ray_mask(i, 1, 0);
    let d = ray_mask(i, -1, 0);
    assert forall|s: int|
        (member(a, s) || member(b, s) || member(c, s) || member(d, s)) implies member(occ, s)
        == member(occ & m, s) by {
        lemma_member_or(a, b, s);
        lemma_member_or(a | b, c, s);
        lemma_member_or(a | b | c, d, s);
        lemma_member_and(occ, m, s);
    }
    lemma_walk_inner(row_of(i), col_of(i) - 1, 0, -1, occ, occ & m);
    lemma_walk_inner(row_of(i), col_of(i) + 1, 0, 1, occ, occ & m);
    lemma_walk_inner(row_of(i) + 1, col_of(i), 1, 0, occ, occ & m);
    lemma_walk_inner(row_of(i) - 1, col_of(i), -1, 0, occ, occ & m);
}

/// Only the occupancy of the relevant mask matters to a bishop.
pub proof fn lemma_bishop_mask(i: int, occ: u64)
    ensures
        bishop_attacks(i, occ) == bishop_attacks(i, occ & bishop_mask(i)),
{
    let m = bishop_mask(i);
    let a = ray_mask(i, 1, 1);
    let b = ray_mask(i, -1, 1);
    let c = ray_mask(i, 1, -1);
    let d = ray_mask(i, -1, -1);
    assert forall|s: int|
        (member(a, s) || member(b, s) || member(c, s) || member(d, s)) implies member(occ, s)
        == member(occ & m, s) by {
        lemma_member_or(a, b, s);
        lemma_member_or(a | b, c, s);
        lemma_member_or(a | b | c, d, s);
        lemma_member_and(occ, m, s);
    }
    lemma_walk_inner(row_of(i) + 1, col_of(i) + 1, 1, 1, occ, occ & m);
    lemma_walk_inner(row_of(i) - 1, col_of(i) + 1, -1, 1, occ, occ & m);
    lemma_walk_inner(row_of(i) + 1, col_of(i) - 1, 1, -1, occ, occ & m);
    lemma_walk_inner(row_of(i) - 1, col_of(i) - 1, -1, -1, occ, occ & m);
}

/// Only the occupancy of the relevant mask matters to a slider.
pub proof fn lemma_slider_mask(rook: bool, i: int, occ: u64)
    ensures
        slider_attacks(rook, i, occ) == slider_attacks(rook, i, occ & slider_mask(rook, i)),
{
    if rook {
        lemma_rook_mask(i, occ);
    } else {
        lemma_bishop_mask(i, occ);
    }
}

/// The inner squares of one line from square `i`.
pub fn naive_ray_mask(i: usize, dr: i8, dc: i8) -> (b: Bitboard)
    requires
        i < 64,
        is_dir(dr as int, dc as int),
    ensures
        b.0 == ray_mask(i as int, dr as int, dc as int),
{
    let mut r: i8 = (i / 8) as i8 + dr;
    let mut c: i8 = (i % 8) as i8 + dc;
    let mut data: u64 = 0;
    let ghost total = ray_mask(i as int, dr as int, dc as int);
    proof {
        lemma_or_zero(total);
    }
    while 0 <= r && r < 8 && 0 <= c && c < 8 && 0 <= r + dr && r + dr < 8 && 0 <= c + dc && c + dc
        < 8
        invariant
            is_dir(dr as int, dc as int),
            -1 <= r <= 8,
            -1 <= c <= 8,
            data | inner(r as int, c as int, dr as int, dc as int) == total,
        decreases steps_left(r as int, c as int, dr as int, dc as int),
    {
        let s: u64 = (r * 8 + c) as u64;
        let bit: u64 = 1u64 << s;
        proof {
            lemma_or_assoc(data, bit, inner(r + dr, c + dc, dr as int, dc as int));
        }
        data = data | bit;
        r = r + dr;
        c = c + dc;
    }
    proof {
        lemma_or_zero(data);
    }
    Bitboard(data)
}

/// The relevant masks of a bishop, one for each square.
pub fn bishop_mbb_mask() -> (t: Vec<Bitboard>)
    ensures
        t@.len() == 64,
        forall|i: int| 0 <= i < 64 ==> (#[trigger] t@[i]).0 == bishop_mask(i),
{
    let mut t: Vec<Bitboard> = Vec::new();
    let mut i: usize = 0;
    while i < 64
        invariant
            i <= 64,
            t@.len() == i,
            forall|k: int| 0 <= k < i ==> (#[trigger] t@[k]).0 == bishop_mask(k),
        decreases 64 - i,
    {
        let a = naive_ray_mask(i, 1, 1);
        let b = naive_ray_mask(i, -1, 1);
        let c = naive_ray_mask(i, 1, -1);
        let d = naive_ray_mask(i, -1, -1);
        t.push(Bitboard(a.0 | b.0 | c.0 | d.0));
        i += 1;
    }
    t
}

/// The relevant masks of a rook, one for each square.
pub fn rook_mbb_mask() -> (t: Vec<Bitboard>)
    ensures
        t@.len() == 64,
        forall|i: int| 0 <= i < 64 ==> (#[trigger] t@[i]).0 == rook_mask(i),
{
    let mut t: Vec<Bitboard> = Vec::new();
    let mut i: usize = 0;
    while i < 64
        invariant
            i <= 64,
            t@.len() == i,
            forall|k: int| 0 <= k < i ==> (#[trigger] t@[k]).0 == rook_mask(k),
        decreases 64 - i,
    {
        let a = naive_ray_mask(i, 0, -1);
        let b = naive_ray_mask(i, 0, 1);
        let c = naive_ray_mask(i, 1, 0);
        let d = naive_ray_mask(i, -1, 0);
        t.push(Bitboard(a.0 | b.0 | c.0 | d.0));
        i += 1;
    }
    t
}

/// The subset of `mask` that `index` selects: bit `k` of `index` decides
/// whether the `k`-th lowest square of `mask` is taken. At most `n` squares
/// of the mask are looked at.
pub open spec fn deposit(index: nat, n: nat, mask: u64) -> u64
    decreases n,
{
    if n == 0 || mask == 0 {
        0
    } else {
        (if index % 2 == 1 {
            single(lowest(mask))
        } else {
            0
        }) | deposit(index / 2, (n - 1) as nat, drop_lowest(mask))
    }
}

/// The index that selects `x & mask` from `mask`: bit `k` says whether the
/// `k`-th lowest square of `mask` is in `x`.
pub open spec fn extract(x: u64, n: nat, mask: u64) -> nat
    decreases n,
{
    if n == 0 || mask == 0 {
        0
    } else {
        (if member(x, lowest(mask)) {
            1nat
        } else {
            0nat
        }) + 2 * extract(x, (n - 1) as nat, drop_lowest(mask))
    }
}

/// Whether `mask` has at most `n` squares.
pub open spec fn exhausted(mask: u64, n: nat) -> bool
    decreases n,
{
    mask == 0 || (n > 0 && exhausted(drop_lowest(mask), (n - 1) as nat))
}

/// Every subset of a mask of at most `n` squares is selected by an index below `1 << n`.
pub proof fn lemma_deposit_extract(x: u64, n: nat, mask: u64)
    requires
        exhausted(mask, n),
        n <= 12,
    ensures
        deposit(extract(x, n, mask), n, mask) == x & mask,
        extract(x, n, mask) < table_size(n as int),
    decreases n,
{
    lemma_table_size(n as int);
    if n == 0 || mask == 0 {
        assert(mask == 0);
        lemma_and_zero(x);
    } else {
        let l = lowest(mask);
        let m2 = drop_lowest(mask);
        let e2 = extract(x, (n - 1) as nat, m2);
        let e = extract(x, n, mask);
        lemma_deposit_extract(x, (n - 1) as nat, m2);
        lemma_lowest(mask);
        lemma_drop_lowest(mask);
        let b = if member(x, l) {
            single(l)
        } else {
            0
        };
        assert(e / 2 == e2);
        assert(e % 2 == 1 <==> member(x, l));
        assert(deposit(e, n, mask) == b | (x & m2));
        assert forall|i: int| 0 <= i < 64 implies member(b | (x & m2), i) == member(x & mask, i) by {
            lemma_member_or(b, x & m2, i);
            lemma_member_and(x, m2, i);
            lemma_member_and(x, mask, i);
            lemma_member_single(l, i);
            lemma_member_zero(i);
        }
        lemma_ext(b | (x & m2), x & mask);
    }
}

/// The subset of `attack_mask` that `index` selects.
pub fn compute_occ_bb(index: usize, mask_bitcount: usize, attack_mask: Bitboard) -> (b: Bitboard)
    ensures
        b.0 == deposit(index as nat, mask_bitcount as nat, attack_mask.0),
{
    let mut mask: u64 = attack_mask.0;
    let mut occ: u64 = 0;
    let mut i: usize = 0;
    let mut idx: usize = index;
    let ghost total = deposit(index as nat, mask_bitcount as nat, attack_mask.0);
    proof {
        lemma_or_zero(total);
    }
    while i < mask_bitcount && mask != 0
        invariant
            i <= mask_bitcount,
            occ | deposit(idx as nat, (mask_bitcount - i) as nat, mask) == total,
        decreases mask_bitcount - i,
    {
        proof {
            lemma_lowest(mask);
            let rest = deposit((idx / 2) as nat, (mask_bitcount - i - 1) as nat, drop_lowest(mask));
            lemma_or_assoc(occ, single(lowest(mask)), rest);
            lemma_or_zero(rest);
        }
        let t: u64 = mask.trailing_zeros() as u64;
        if idx % 2 == 1 {
            occ = occ | (1u64 << t);
        }
        mask = mask & (mask - 1);
        idx = idx / 2;
        i += 1;
    }
    proof {
        lemma_or_zero(occ);
    }
    Bitboard(occ)
}

/// Whether `mask` has at most `n` squares.
pub fn mask_fits(mask: Bitboard, n: usize) -> (r: bool)
    ensures
        r == exhausted(mask.0, n as nat),
{
    let mut m: u64 = mask.0;
    let mut i: usize = 0;
    while i < n && m != 0
        invariant
            i <= n,
            exhausted(m, (n - i) as nat) == exhausted(mask.0, n as nat),
        decreases n - i,
    {
        m = m & (m - 1);
        i += 1;
    }
    m == 0
}

/// The slot of an occupancy: the top `bits` bits of its product with the multiplier.
pub open spec fn magic_slot(magic: u64, occ: u64, bits: int) -> int {
    (occ.wrapping_mul(magic) >> ((64 - bits) as u64)) as int
}

/// The slot of an occupancy: the top `bitcount` bits of its product with the multiplier.
pub fn magic_index(magic_num: u64, blockers_data: u64, bitcount: usize) -> (r: usize)
    requires
        1 <= bitcount <= 12,
    ensures
        r == magic_slot(magic_num, blockers_data, bitcount as int),
        r < table_size(bitcount as int),
{
    proof {
        lemma_top_bits(blockers_data.wrapping_mul(magic_num), bitcount as int);
        lemma_table_size(bitcount as int);
    }
    ((blockers_data.wrapping_mul(magic_num)) >> ((64 - bitcount) as u64)) as usize
}

/// The slot of the subset that index `k` selects.
pub open spec fn slot_of(magic: u64, bits: int, mask: u64, k: int) -> int {
    magic_slot(magic, deposit(k as nat, bits as nat, mask), bits)
}

/// The attack set for the subset that index `k` selects.
pub open spec fn attack_of(rook: bool, i: int, bits: int, mask: u64, k: int) -> u64 {
    slider_attacks(rook, i, deposit(k as nat, bits as nat, mask))
}

/// Whether the multiplier sends no two subsets with different attack sets to one slot.
pub open spec fn collision_free(rook: bool, i: int, magic: u64, bits: int, mask: u64) -> bool {
    forall|j: int, k: int|
        0 <= j < table_size(bits) && 0 <= k < table_size(bits) && #[trigger] slot_of(
            magic,
            bits,
            mask,
            j,
        ) == #[trigger] slot_of(magic, bits, mask, k) ==> attack_of(rook, i, bits, mask, j)
            == attack_of(rook, i, bits, mask, k)
}

/// Whether the table holds, at the slot of every enumerated subset of the
/// mask, the attack set that walking the lines gives for that subset.
pub open spec fn table_ok(
    rook: bool,
    i: int,
    magic: u64,
    bits: int,
    mask: u64,
    t: Seq<Bitboard>,
) -> bool {
    &&& t.len() == table_size(bits)
    &&& forall|k: int|
        0 <= k < table_size(bits) ==> t[#[trigger] slot_of(magic, bits, mask, k)].0 == attack_of(
            rook,
            i,
            bits,
            mask,
            k,
        )
}

/// A table that is right on every enumerated subset is right on every occupancy.
pub proof fn lemma_table_lookup(
    rook: bool,
    i: int,
    magic: u64,
    bits: int,
    t: Seq<Bitboard>,
    occ: u64,
)
    requires
        1 <= bits <= 12,
        exhausted(slider_mask(rook, i), bits as nat),
        table_ok(rook, i, magic, bits, slider_mask(rook, i), t),
    ensures
        0 <= magic_slot(magic, occ & slider_mask(rook, i), bits) < t.len(),
        t[magic_slot(magic, occ & slider_mask(rook, i), bits)].0 == slider_attacks(rook, i, occ),
{
    let mask = slider_mask(rook, i);
    let x = occ & mask;
    let k = extract(x, bits as nat, mask);
    lemma_deposit_extract(x, bits as nat, mask);
    lemma_and_idem(occ, mask);
    assert(deposit(k, bits as nat, mask) == x);
    assert(slot_of(magic, bits, mask, k as int) == magic_slot(magic, x, bits));
    lemma_slider_mask(rook, i, occ);
    lemma_top_bits(x.wrapping_mul(magic), bits);
}

/// Fills the table of one square: every subset of the mask is enumerated and
/// its attack set is stored at its slot. Two subsets may share a slot only if
/// they have the same attack set; otherwise there is no table.
pub fn build_magic_table(rook: bool, i: usize, magic: u64, bits: usize, mask: Bitboard) -> (r:
    Option<Vec<Bitboard>>)
    requires
        i < 64,
        1 <= bits <= 12,
    ensures
        r is Some <==> collision_free(rook, i as int, magic, bits as int, mask.0),
        r matches Some(t) ==> table_ok(rook, i as int, magic, bits as int, mask.0, t@),
{
    proof {
        lemma_table_size(bits as int);
    }
    let size: usize = (1u64 << (bits as u64)) as usize;
    let mut table: Vec<Bitboard> = Vec::new();
    let mut filled: Vec<bool> = Vec::new();
    let mut n: usize = 0;
    while n < size
        invariant
            n <= size,
            table@.len() == n,
            filled@.len() == n,
            forall|m: int| 0 <= m < n ==> !(#[trigger] filled@[m]),
        decreases size - n,
    {
        table.push(Bitboard(0));
        filled.push(false);
        n += 1;
    }
    let ghost mut owner: Seq<int> = Seq::new(size as nat, |m: int| 0int);
    let ghost ii = i as int;
    let ghost bb = bits as int;
    let mut j: usize = 0;
    while j < size
        invariant
            i < 64,
            1 <= bits <= 12,
            ii == i,
            bb == bits,
            size == table_size(bb),
            j <= size,
            table@.len() == size,
            filled@.len() == size,
            owner.len() == size,
            forall|m: int|
                0 <= m < size && #[trigger] filled@[m] ==> 0 <= owner[m] < j && slot_of(
                    magic,
                    bb,
                    mask.0,
                    owner[m],
                ) == m && table@[m].0 == attack_of(rook, ii, bb, mask.0, owner[m]),
            forall|k: int|
                0 <= k < j ==> 0 <= #[trigger] slot_of(magic, bb, mask.0, k) < size && filled@[slot_of(
                    magic,
                    bb,
                    mask.0,
                    k,
                )] && table@[slot_of(magic, bb, mask.0, k)].0 == attack_of(rook, ii, bb, mask.0, k),
        decreases size - j,
    {
        let blockers = compute_occ_bb(j, bits, mask);
        let m = magic_index(magic, blockers.0, bits);
        let a = if rook {
            naive_rook_attack(i, blockers)
        } else {
            naive_bishop_attack(i, blockers)
        };
        assert(m == slot_of(magic, bb, mask.0, j as int));
        assert(a.0 == attack_of(rook, ii, bb, mask.0, j as int));
        if !filled[m] {
            table.set(m, a);
            filled.set(m, true);
            proof {
                owner = owner.update(m as int, j as int);
            }
        } else if table[m].0 != a.0 {
            proof {
                let k = owner[m as int];
                assert(slot_of(magic, bb, mask.0, k) == slot_of(magic, bb, mask.0, j as int));
                assert(attack_of(rook, ii, bb, mask.0, k) != attack_of(rook, ii, bb, mask.0, j as int));
            }
            return None;
        }
        j += 1;
    }
    proof {
        assert forall|j1: int, k1: int|
            0 <= j1 < table_size(bb) && 0 <= k1 < table_size(bb) && #[trigger] slot_of(
                magic,
                bb,
                mask.0,
                j1,
            ) == #[trigger] slot_of(magic, bb, mask.0, k1) implies attack_of(
            rook,
            ii,
            bb,
            mask.0,
            j1,
        ) == attack_of(rook, ii, bb, mask.0, k1) by {
            assert(table@[slot_of(magic, bb, mask.0, j1)].0 == attack_of(rook, ii, bb, mask.0, j1));
            assert(table@[slot_of(magic, bb, mask.0, k1)].0 == attack_of(rook, ii, bb, mask.0, k1));
        }
    }
    Some(table)
}

} // verus!
