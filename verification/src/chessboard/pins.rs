//! Each pinned piece has a pinner of its own: there are as many of the one as
//! of the other.

use vstd::prelude::*;
use crate::attack::init::{in_range, is_dir, ray_attacks, walk};
use crate::attack::{between, line_dir};
use crate::bits::{
    drop_lowest, lemma_drop_lowest, lemma_is_single, lemma_lowest, lemma_member_and,
    lemma_member_not, lemma_member_or, lemma_member_single, lemma_member_zero, lowest, member,
    popcount, single,
};
use crate::chessboard::check::{check_state, scan_one, scan_sliders, slider_candidates, CheckState};
use crate::chessboard::position::{lemma_occ_member, Position};
use crate::chessboard::{valid, ChessBoard};
use crate::chesspiece::{ChessPiece, PieceType};
use crate::square::{col_of, row_of};

verus! {

/// Adding a square that is not a member makes the set one larger.
pub proof fn lemma_popcount_insert(x: u64, s: int)
    requires
        0 <= s < 64,
        !member(x, s),
    ensures
        popcount(x | single(s)) == popcount(x) + 1,
    decreases s,
{
    let y = x | single(s);
    if s == 0 {
        assert((x | (1u64 << 0u64)) % 2 == 1 && (x | (1u64 << 0u64)) / 2 == x / 2 && x % 2 == 0)
            by (bit_vector)
            requires
                (x >> 0u64) & 1 != 1,
        ;
    } else {
        let k = s as u64;
        let t = (s - 1) as u64;
        assert((x | (1u64 << k)) % 2 == x % 2 && (x | (1u64 << k)) / 2 == (x / 2) | (1u64 << t)
            && ((((x / 2) >> t) & 1 == 1) == ((x >> k) & 1 == 1)) && (x | (1u64 << k)) != 0)
            by (bit_vector)
            requires
                0 < k < 64,
                t == k - 1,
        ;
        lemma_popcount_insert(x / 2, s - 1);
    }
}

/// A coordinate moved `t` steps in direction `d`.
pub open spec fn shift(v: int, d: int, t: int) -> int {
    if d == 1 {
        v + t
    } else if d == -1 {
        v - t
    } else {
        v
    }
}

/// How many steps in direction `(dr, dc)` lead from the rank (or, for a
/// direction along a rank, the file) of square `i` to that of square `x`.
pub open spec fn along(i: int, x: int, dr: int, dc: int) -> int {
    if dr == 1 {
        row_of(x) - row_of(i)
    } else if dr == -1 {
        row_of(i) - row_of(x)
    } else if dc == 1 {
        col_of(x) - col_of(i)
    } else {
        col_of(i) - col_of(x)
    }
}

/// Whether square `x` lies on the line through square `i` in direction `(dr, dc)`.
pub open spec fn on_line(i: int, x: int, dr: int, dc: int) -> bool {
    row_of(x) == shift(row_of(i), dr, along(i, x, dr, dc)) && col_of(x) == shift(
        col_of(i),
        dc,
        along(i, x, dr, dc),
    )
}

/// Whether square `x` lies strictly between the squares `i` and `j` on a
/// rank, a file or a diagonal that they share.
pub open spec fn inside(i: int, j: int, x: int) -> bool {
    line_dir(i, j) matches Some(d) && 0 <= x < 64 && on_line(i, x, d.0, d.1) && 0 < along(
        i,
        x,
        d.0,
        d.1,
    ) < along(i, j, d.0, d.1)
}

/// Walking from the `k`-th square of a line towards square `j`, the only
/// occupied square, one sees the squares of the line from the `k`-th up to `j`.
proof fn lemma_walk_to(i: int, j: int, dr: int, dc: int, n: int, k: int, x: int)
    requires
        0 <= i < 64,
        0 <= j < 64,
        is_dir(dr, dc),
        on_line(i, j, dr, dc),
        n == along(i, j, dr, dc),
        1 <= k <= n,
    ensures
        member(walk(shift(row_of(i), dr, k), shift(col_of(i), dc, k), dr, dc, single(j)), x) == (0
            <= x < 64 && on_line(i, x, dr, dc) && k <= along(i, x, dr, dc) <= n),
    decreases n - k,
{
    let r = shift(row_of(i), dr, k);
    let c = shift(col_of(i), dc, k);
    assert(in_range(r, c));
    let sq = r * 8 + c;
    assert(0 <= sq < 64);
    assert(row_of(sq) == r && col_of(sq) == c);
    lemma_member_single(j, sq);
    lemma_member_single(j, x);
    lemma_member_single(sq, x);
    if k == n {
        assert(sq == j);
    } else {
        assert(sq != j);
        let rest = walk(r + dr, c + dc, dr, dc, single(j));
        assert(r + dr == shift(row_of(i), dr, k + 1));
        assert(c + dc == shift(col_of(i), dc, k + 1));
        lemma_walk_to(i, j, dr, dc, n, k + 1, x);
        lemma_member_or(single(sq), rest, x);
    }
}

/// The squares between two squares are those strictly between them on their line.
pub proof fn lemma_between(i: int, j: int, x: int)
    requires
        0 <= i < 64,
        0 <= j < 64,
    ensures
        member(between(i, j), x) == inside(i, j, x),
{
    match line_dir(i, j) {
        Some(d) => {
            let dr = d.0;
            let dc = d.1;
            let n = along(i, j, dr, dc);
            assert(is_dir(dr, dc));
            assert(on_line(i, j, dr, dc));
            assert(n >= 1);
            assert(row_of(i) + dr == shift(row_of(i), dr, 1));
            assert(col_of(i) + dc == shift(col_of(i), dc, 1));
            lemma_walk_to(i, j, dr, dc, n, 1, x);
            let ray = ray_attacks(i, dr, dc, single(j));
            lemma_member_and(ray, !single(j), x);
            lemma_member_single(j, x);
            if 0 <= x < 64 {
                lemma_member_not(single(j), x);
            }
        },
        None => {
            lemma_member_zero(x);
        },
    }
}

/// Of two squares that both have square `b` between themselves and the king,
/// one lies between the other and the king.
pub proof fn lemma_same_ray(a: int, a2: int, king: int, b: int)
    requires
        0 <= a < 64,
        0 <= a2 < 64,
        0 <= king < 64,
        a != a2,
        inside(a, king, b),
        inside(a2, king, b),
    ensures
        inside(a, king, a2) || inside(a2, king, a),
{
    let d = line_dir(a, king)->0;
    let e = line_dir(a2, king)->0;
    assert(d.0 == e.0);
    assert(d.1 == e.1);
    let n = along(a, king, d.0, d.1);
    let m = along(a2, king, d.0, d.1);
    assert(n != m);
    if m < n {
        assert(along(a, a2, d.0, d.1) == n - m);
        assert(on_line(a, a2, d.0, d.1));
    } else {
        assert(along(a2, a, d.0, d.1) == m - n);
        assert(on_line(a2, a, d.0, d.1));
    }
}

/// Whether the piece on square `b` is the only one between square `a` and the king.
pub open spec fn pins(a: int, b: int, king: int, occ: u64) -> bool {
    between(a, king) & occ == single(b)
}

/// What holds while the sliders are scanned: there are as many pinned pieces
/// as pinners; each pinned piece stands alone between some pinner and the
/// king; the pinners are occupied squares that have been scanned; and the
/// squares still to be scanned are occupied.
pub open spec fn scan_inv(acc: CheckState, cands: u64, king: int, occ: u64) -> bool {
    &&& popcount(acc.pinned) == popcount(acc.pinners)
    &&& forall|b: int| #[trigger]
        member(acc.pinned, b) ==> exists|a: int| member(acc.pinners, a) && #[trigger] pins(
            a,
            b,
            king,
            occ,
        )
    &&& forall|a: int| #[trigger] member(acc.pinners, a) ==> !member(cands, a) && member(occ, a)
    &&& forall|a: int| #[trigger] member(cands, a) ==> member(occ, a)
}

/// Scanning one more slider keeps what holds while the sliders are scanned.
proof fn lemma_scan_one(cands: u64, king: int, occ: u64, acc: CheckState)
    requires
        cands != 0,
        0 <= king < 64,
        scan_inv(acc, cands, king, occ),
    ensures
        scan_inv(scan_one(lowest(cands), king, occ, acc), drop_lowest(cands), king, occ),
{
    lemma_lowest(cands);
    lemma_drop_lowest(cands);
    let a = lowest(cands);
    let next = scan_one(a, king, occ, acc);
    let rest = drop_lowest(cands);
    let ray = between(a, king);
    let blk = ray & occ;
    assert(member(occ, a));
    assert(!member(acc.pinners, a));
    if blk != 0 && drop_lowest(blk) == 0 {
        lemma_is_single(blk);
        let b = lowest(blk);
        assert(pins(a, b, king, occ));
        lemma_member_single(b, b);
        lemma_member_and(ray, occ, b);
        lemma_between(a, king, b);
        if member(acc.pinned, b) {
            let a2 = choose|a2: int| member(acc.pinners, a2) && pins(a2, b, king, occ);
            assert(a2 != a);
            assert(0 <= a2 < 64);
            let ray2 = between(a2, king);
            lemma_member_and(ray2, occ, b);
            lemma_between(a2, king, b);
            lemma_same_ray(a, a2, king, b);
            lemma_between(a, king, a2);
            lemma_between(a2, king, a);
            lemma_member_and(ray, occ, a2);
            lemma_member_and(ray2, occ, a);
            lemma_member_single(b, a2);
            lemma_member_single(b, a);
            assert(false);
        }
        lemma_popcount_insert(acc.pinned, b);
        lemma_popcount_insert(acc.pinners, a);
        assert forall|y: int| #[trigger] member(next.pinned, y) implies exists|z: int|
            member(next.pinners, z) && #[trigger] pins(z, y, king, occ) by {
            lemma_member_or(acc.pinned, blk, y);
            lemma_member_single(b, y);
            if member(acc.pinned, y) {
                let z = choose|z: int| member(acc.pinners, z) && pins(z, y, king, occ);
                lemma_member_or(acc.pinners, single(a), z);
                assert(member(next.pinners, z) && pins(z, y, king, occ));
            } else {
                lemma_member_or(acc.pinners, single(a), a);
                lemma_member_single(a, a);
                assert(member(next.pinners, a) && pins(a, y, king, occ));
            }
        }
        assert forall|z: int| #[trigger] member(next.pinners, z) implies !member(rest, z)
            && member(occ, z) by {
            lemma_member_or(acc.pinners, single(a), z);
            lemma_member_single(a, z);
        }
        assert(popcount(next.pinned) == popcount(next.pinners));
    } else {
        assert(next.pinned == acc.pinned && next.pinners == acc.pinners);
        assert forall|y: int| #[trigger] member(next.pinned, y) implies exists|z: int|
            member(next.pinners, z) && #[trigger] pins(z, y, king, occ) by {
            let z = choose|z: int| member(acc.pinners, z) && pins(z, y, king, occ);
            assert(member(next.pinners, z) && pins(z, y, king, occ));
        }
        assert forall|z: int| #[trigger] member(next.pinners, z) implies !member(rest, z)
            && member(occ, z) by {
            assert(!member(cands, z));
        }
    }
    assert forall|z: int| #[trigger] member(rest, z) implies member(occ, z) by {
        assert(member(cands, z));
    }
}

/// After the scan there are as many pinned pieces as pinners.
proof fn lemma_scan(cands: u64, king: int, occ: u64, acc: CheckState)
    requires
        0 <= king < 64,
        scan_inv(acc, cands, king, occ),
    ensures
        popcount(scan_sliders(cands, king, occ, acc).pinned) == popcount(
            scan_sliders(cands, king, occ, acc).pinners,
        ),
    decreases cands,
{
    if cands != 0 {
        lemma_drop_lowest(cands);
        lemma_scan_one(cands, king, occ, acc);
        lemma_scan(drop_lowest(cands), king, occ, scan_one(lowest(cands), king, occ, acc));
    }
}

/// In every valid position there are as many pinned pieces as pinners.
pub proof fn lemma_pin_counts(pos: Position)
    requires
        valid(pos),
    ensures
        popcount(check_state(pos).pinned) == popcount(check_state(pos).pinners),
{
    let king_bb = pos.pieces(ChessPiece(pos.side, PieceType::King));
    lemma_is_single(king_bb);
    let king = pos.king_idx(pos.side);
    let enemy = pos.side.flip();
    let l = crate::chessboard::check::leaper_checkers(pos);
    let start = CheckState { checkers: l, mask: l, pinned: 0, pinners: 0 };
    let cands = slider_candidates(pos);
    let occ = pos.occ();
    let queens = pos.pieces(ChessPiece(enemy, PieceType::Queen));
    let bishops = pos.pieces(ChessPiece(enemy, PieceType::Bishop));
    let rooks = pos.pieces(ChessPiece(enemy, PieceType::Rook));
    let diag = crate::attack::init::bishop_attacks(king, 0);
    let line = crate::attack::init::rook_attacks(king, 0);
    assert forall|a: int| #[trigger] member(cands, a) implies member(occ, a) by {
        lemma_member_or(diag & (queens | bishops), line & (queens | rooks), a);
        lemma_member_and(diag, queens | bishops, a);
        lemma_member_and(line, queens | rooks, a);
        lemma_member_or(queens, bishops, a);
        lemma_member_or(queens, rooks, a);
        lemma_occ_member(pos.board, ChessPiece(enemy, PieceType::Queen), a);
        lemma_occ_member(pos.board, ChessPiece(enemy, PieceType::Bishop), a);
        lemma_occ_member(pos.board, ChessPiece(enemy, PieceType::Rook), a);
        pos.lemma_occ(a);
    }
    assert forall|b: int| !member(0u64, b) by {
        lemma_member_zero(b);
    }
    assert(popcount(0) == 0);
    assert(scan_inv(start, cands, king, occ));
    lemma_scan(cands, king, occ, start);
}

/// In every well-formed position the recorded pinned pieces are as many as
/// the recorded pinners.
pub proof fn lemma_board_pin_counts(b: ChessBoard)
    requires
        b.wf(),
    ensures
        b.data.pinned_bb.count() == b.data.pinner_bb.count(),
{
    lemma_pin_counts(b@);
}

} // verus!
