//! Facts about 64-bit words read as sets of the numbers `0..64`.

use vstd::prelude::*;
use vstd::std_specs::bits::{axiom_u64_trailing_zeros, u64_trailing_zeros};

verus! {

/// Whether bit `i` of `b` is set. False for every `i` outside `0..64`.
pub open spec fn member(b: u64, i: int) -> bool {
    0 <= i < 64 && (b >> (i as u64)) & 1 == 1
}

/// The word whose only set bit is `i`.
pub open spec fn single(i: int) -> u64
    recommends
        0 <= i < 64,
{
    1u64 << (i as u64)
}

/// The index of the lowest set bit of `b`; 64 for the empty word.
pub open spec fn lowest(b: u64) -> int {
    u64_trailing_zeros(b) as int
}

/// `b` without its lowest set bit.
pub open spec fn drop_lowest(b: u64) -> u64 {
    if b == 0 {
        0
    } else {
        b & ((b - 1) as u64)
    }
}

/// The number of set bits of `b`.
pub open spec fn popcount(b: u64) -> nat
    decreases b,
{
    if b == 0 {
        0
    } else {
        ((b % 2) + popcount(b / 2)) as nat
    }
}

pub proof fn lemma_member_or(a: u64, b: u64, i: int)
    ensures
        member(a | b, i) == (member(a, i) || member(b, i)),
{
    if 0 <= i < 64 {
        let k = i as u64;
        assert((((a | b) >> k) & 1 == 1) == (((a >> k) & 1 == 1) || ((b >> k) & 1 == 1)))
            by (bit_vector);
    }
}

pub proof fn lemma_member_and(a: u64, b: u64, i: int)
    ensures
        member(a & b, i) == (member(a, i) && member(b, i)),
{
    if 0 <= i < 64 {
        let k = i as u64;
        assert((((a & b) >> k) & 1 == 1) == (((a >> k) & 1 == 1) && ((b >> k) & 1 == 1)))
            by (bit_vector);
    }
}

pub proof fn lemma_member_xor(a: u64, b: u64, i: int)
    ensures
        member(a ^ b, i) == (member(a, i) != member(b, i)),
{
    if 0 <= i < 64 {
        let k = i as u64;
        assert((((a ^ b) >> k) & 1 == 1) == (((a >> k) & 1 == 1) != ((b >> k) & 1 == 1)))
            by (bit_vector);
    }
}

pub proof fn lemma_member_not(a: u64, i: int)
    requires
        0 <= i < 64,
    ensures
        member(!a, i) == !member(a, i),
{
    let k = i as u64;
    assert((((!a) >> k) & 1 == 1) == !((a >> k) & 1 == 1)) by (bit_vector)
        requires
            k < 64,
    ;
}

pub proof fn lemma_member_single(n: int, i: int)
    requires
        0 <= n < 64,
    ensures
        member(single(n), i) == (i == n),
{
    if 0 <= i < 64 {
        let k = i as u64;
        let m = n as u64;
        assert(((((1u64 << m) >> k) & 1) == 1) == (k == m)) by (bit_vector)
            requires
                k < 64,
                m < 64,
        ;
    }
}

pub proof fn lemma_member_zero(i: int)
    ensures
        !member(0, i),
{
    if 0 <= i < 64 {
        let k = i as u64;
        assert((0u64 >> k) & 1 == 0) by (bit_vector);
    }
}

/// Every square is a member of the whole board.
pub proof fn lemma_member_all(i: int)
    requires
        0 <= i < 64,
    ensures
        member(0xffff_ffff_ffff_ffffu64, i),
{
    let k = i as u64;
    assert((0xffff_ffff_ffff_ffffu64 >> k) & 1 == 1) by (bit_vector)
        requires
            k < 64,
    ;
}

/// Two words with the same bits are equal.
pub proof fn lemma_ext(a: u64, b: u64)
    requires
        forall|i: int| 0 <= i < 64 ==> member(a, i) == member(b, i),
    ensures
        a == b,
{
    if a != b {
        let x = a ^ b;
        assert(x != 0) by (bit_vector)
            requires
                x == a ^ b,
                a != b,
        ;
        axiom_u64_trailing_zeros(x);
        let t = u64_trailing_zeros(x) as int;
        assert(member(x, t));
        lemma_member_xor(a, b, t);
    }
}

/// The lowest set bit of a non-empty word is set, and no lower bit is.
pub proof fn lemma_lowest(b: u64)
    requires
        b != 0,
    ensures
        0 <= lowest(b) < 64,
        member(b, lowest(b)),
        forall|i: int| 0 <= i < lowest(b) ==> !member(b, i),
{
    axiom_u64_trailing_zeros(b);
    let t = u64_trailing_zeros(b);
    assert forall|i: int| 0 <= i < lowest(b) implies !member(b, i) by {
        let k = i as u64;
        assert((b >> k) & 1u64 == 0u64);
    }
}

/// Dropping the lowest set bit removes exactly that bit and makes the word smaller.
pub proof fn lemma_drop_lowest(b: u64)
    requires
        b != 0,
    ensures
        drop_lowest(b) < b,
        drop_lowest(b) == b & !single(lowest(b)),
        forall|i: int| member(drop_lowest(b), i) == (member(b, i) && i != lowest(b)),
{
    lemma_lowest(b);
    axiom_u64_trailing_zeros(b);
    let t = u64_trailing_zeros(b) as u64;
    let d = (b - 1) as u64;
    assert(b & d < b && b & d == b & !(1u64 << t)) by (bit_vector)
        requires
            b != 0,
            d == (b - 1) as u64,
            t < 64,
            (b >> t) & 1 == 1,
            b << ((64 - t) as u64) == 0,
    ;
    assert forall|i: int| member(drop_lowest(b), i) == (member(b, i) && i != lowest(b)) by {
        lemma_member_and(b, !single(lowest(b)), i);
        if 0 <= i < 64 {
            lemma_member_not(single(lowest(b)), i);
            lemma_member_single(lowest(b), i);
        }
    }
}

/// Joining with the empty word changes nothing.
pub proof fn lemma_or_zero(a: u64)
    ensures
        a | 0 == a,
        0 | a == a,
{
    assert(a | 0 == a && 0 | a == a) by (bit_vector);
}

/// Union is associative and commutative.
pub proof fn lemma_or_assoc(a: u64, b: u64, c: u64)
    ensures
        (a | b) | c == a | (b | c),
        a | b == b | a,
{
    assert((a | b) | c == a | (b | c) && a | b == b | a) by (bit_vector);
}

/// Shifting a one-bit word up moves its bit up.
pub proof fn lemma_single_up(i: int, k: int)
    requires
        0 <= i,
        0 <= k,
        i + k < 64,
    ensures
        single(i) << (k as u64) == single(i + k),
{
    let a = i as u64;
    let b = k as u64;
    let c = (i + k) as u64;
    assert((1u64 << a) << b == 1u64 << c) by (bit_vector)
        requires
            a < 64,
            b < 64,
            c == a + b,
            c < 64,
    ;
}

/// Shifting a one-bit word down moves its bit down.
pub proof fn lemma_single_down(i: int, k: int)
    requires
        0 <= k <= i < 64,
    ensures
        single(i) >> (k as u64) == single(i - k),
{
    let a = i as u64;
    let b = k as u64;
    let c = (i - k) as u64;
    assert((1u64 << a) >> b == 1u64 << c) by (bit_vector)
        requires
            a < 64,
            b <= a,
            c == a - b,
    ;
}

/// A word with a member is not empty.
pub proof fn lemma_member_nonzero(a: u64, i: int)
    requires
        member(a, i),
    ensures
        a != 0,
{
    lemma_member_zero(i);
}

/// Testing a bit with a one-bit mask is testing membership.
pub proof fn lemma_member_test(x: u64, i: int)
    requires
        0 <= i < 64,
    ensures
        (x & single(i) != 0) == member(x, i),
        (x & single(i) == 0) == !member(x, i),
{
    let k = i as u64;
    assert((x & (1u64 << k) != 0) == ((x >> k) & 1 == 1)) by (bit_vector)
        requires
            k < 64,
    ;
}

/// The number of words of `n` bits, for `n` up to 12: `1 << n`.
pub open spec fn table_size(n: int) -> int {
    (1u64 << (n as u64)) as int
}

/// The sizes double with each bit and stay within 4096.
pub proof fn lemma_table_size(n: int)
    requires
        0 <= n <= 12,
    ensures
        1 <= table_size(n) <= 4096,
        table_size(0) == 1,
        n > 0 ==> table_size(n) == 2 * table_size(n - 1),
{
    let b = n as u64;
    assert(1 <= (1u64 << b) <= 4096 && (1u64 << 0u64) == 1 && (b > 0 ==> (1u64 << b) == 2 * (1u64
        << ((b - 1) as u64)))) by (bit_vector)
        requires
            b <= 12,
    ;
}

/// The top `n` bits of a word, read as a number, are below `1 << n`.
pub proof fn lemma_top_bits(x: u64, n: int)
    requires
        1 <= n <= 12,
    ensures
        (x >> ((64 - n) as u64)) < table_size(n),
{
    let b = n as u64;
    let s = (64 - n) as u64;
    assert((x >> s) < (1u64 << b)) by (bit_vector)
        requires
            1 <= b <= 12,
            s == 64 - b,
    ;
}

/// Meeting a set twice is meeting it once.
pub proof fn lemma_and_idem(x: u64, m: u64)
    ensures
        (x & m) & m == x & m,
{
    assert((x & m) & m == x & m) by (bit_vector);
}

/// Meeting the empty word gives the empty word.
pub proof fn lemma_and_zero(x: u64)
    ensures
        x & 0 == 0,
        0 & x == 0,
{
    assert(x & 0 == 0 && 0 & x == 0) by (bit_vector);
}

/// Symmetric difference is associative.
pub proof fn lemma_xor_assoc(a: u64, b: u64, c: u64)
    ensures
        (a ^ b) ^ c == a ^ (b ^ c),
{
    assert((a ^ b) ^ c == a ^ (b ^ c)) by (bit_vector);
}

/// Taking the symmetric difference with a word twice undoes it.
pub proof fn lemma_xor_undo(a: u64, b: u64)
    ensures
        (a ^ b) ^ b == a,
        a ^ (a ^ b) == b,
        a ^ a == 0,
        a ^ 0 == a,
        0 ^ a == a,
{
    assert((a ^ b) ^ b == a && a ^ (a ^ b) == b && a ^ a == 0 && a ^ 0 == a && 0 ^ a == a)
        by (bit_vector);
}

/// Symmetric differences can be taken in another order.
pub proof fn lemma_xor_swap(a: u64, k: u64, x: u64, l: u64)
    ensures
        ((a ^ k) ^ x) ^ l == ((a ^ l) ^ k) ^ x,
{
    assert(((a ^ k) ^ x) ^ l == ((a ^ l) ^ k) ^ x) by (bit_vector);
}

/// Changing four parts of a symmetric difference one after the other changes each part.
pub proof fn lemma_xor_merge(p: u64, c: u64, e: u64, s: u64, dp: u64, dc: u64, de: u64, ds: u64)
    ensures
        ((((((p ^ c) ^ e) ^ s) ^ dp) ^ dc) ^ de) ^ ds == (((p ^ dp) ^ (c ^ dc)) ^ (e ^ de)) ^ (s
            ^ ds),
{
    assert(((((((p ^ c) ^ e) ^ s) ^ dp) ^ dc) ^ de) ^ ds == (((p ^ dp) ^ (c ^ dc)) ^ (e ^ de)) ^ (s
        ^ ds)) by (bit_vector);
}

/// A word has no square in common with its complement.
pub proof fn lemma_and_not_self(a: u64)
    ensures
        a & !a == 0,
{
    assert(a & !a == 0) by (bit_vector);
}

/// The whole board.
pub const ALL: u64 = 0xffff_ffff_ffff_ffff;

/// Whether the word has exactly one set bit.
pub open spec fn is_single(b: u64) -> bool {
    b != 0 && drop_lowest(b) == 0
}

/// A one-bit word is not empty, its bit is its lowest, and without it nothing is left.
pub proof fn lemma_single(i: int)
    requires
        0 <= i < 64,
    ensures
        single(i) != 0,
        lowest(single(i)) == i,
        drop_lowest(single(i)) == 0,
        is_single(single(i)),
{
    lemma_member_single(i, i);
    lemma_member_nonzero(single(i), i);
    lemma_lowest(single(i));
    lemma_member_single(i, lowest(single(i)));
    lemma_drop_lowest(single(i));
    assert forall|k: int| 0 <= k < 64 implies member(drop_lowest(single(i)), k) == member(0, k) by {
        lemma_member_single(i, k);
        lemma_member_zero(k);
    }
    lemma_ext(drop_lowest(single(i)), 0);
}

/// A word with exactly one set bit is the one-bit word of its lowest bit.
pub proof fn lemma_is_single(b: u64)
    requires
        is_single(b),
    ensures
        b == single(lowest(b)),
        0 <= lowest(b) < 64,
{
    lemma_lowest(b);
    lemma_drop_lowest(b);
    let l = lowest(b);
    assert forall|k: int| 0 <= k < 64 implies member(b, k) == member(single(l), k) by {
        lemma_member_single(l, k);
        lemma_member_zero(k);
    }
    lemma_ext(b, single(l));
}

/// Removing a square and adding it again is adding it.
pub proof fn lemma_readd(a: u64, b: u64)
    ensures
        (a & !b) | b == a | b,
{
    assert((a & !b) | b == a | b) by (bit_vector);
}

} // verus!
