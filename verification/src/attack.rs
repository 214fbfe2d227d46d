//! Attack sets of every piece kind from every square, held in tables that are
//! computed once and only read afterwards.

pub mod init;
pub mod magic;
pub mod numbers;
pub mod search;

use vstd::prelude::*;
use crate::attack::init::{
    bishop_attacks, init_bishop_attack, init_king_attack, init_knight_attack, init_pawn_attack,
    init_rook_attack, is_dir, king_attacks, knight_attacks, naive_ray_attack, naive_rook_attack,
    pawn_attacks, queen_attacks, ray_attacks, rook_attacks, step,
};
use crate::attack::magic::{
    bishop_mbb_mask, build_magic_table, collision_free, exhausted, lemma_table_lookup, magic_index,
    mask_fits, rook_mbb_mask, slider_attacks, slider_mask, table_ok,
};
use crate::attack::numbers::{
    magic_numbers, occ_bitcounts, BISHOP_MAGICS, BISHOP_OCC_BITCOUNT, ROOK_MAGICS,
    ROOK_OCC_BITCOUNT,
};
use crate::bitboard::Bitboard;
use crate::bits::{lemma_and_zero, single};
use crate::chesspiece::{Side, SliderType};
use crate::square::{col_of, row_of, Square};

verus! {

/// Whether a multiplier serves square `i` with `bits` index bits: the relevant
/// mask has at most `bits` squares, and no two of its subsets with different
/// attack sets share a slot.
pub open spec fn magic_ok(rook: bool, i: int, magic: u64, bits: int) -> bool {
    &&& 1 <= bits <= 12
    &&& exhausted(slider_mask(rook, i), bits as nat)
    &&& collision_free(rook, i, magic, bits, slider_mask(rook, i))
}

/// Whether a list of multipliers and bit counts serves all 64 squares.
pub open spec fn magics_ok(rook: bool, magics: Seq<u64>, bits: Seq<usize>) -> bool {
    &&& magics.len() == 64
    &&& bits.len() == 64
    &&& forall|i: int| 0 <= i < 64 ==> #[trigger] magic_ok(rook, i, magics[i], bits[i] as int)
}

/// The attack tables of one sliding piece, rook or bishop.
pub struct SliderTable {
    pub rook: bool,
    pub magics: Vec<u64>,
    pub bits: Vec<usize>,
    pub masks: Vec<Bitboard>,
    pub attacks: Vec<Vec<Bitboard>>,
}

impl SliderTable {
    /// Whether the table of square `i` is right on every enumerated subset of its mask.
    pub open spec fn entry_ok(&self, i: int) -> bool {
        &&& 1 <= self.bits@[i] <= 12
        &&& self.masks@[i].0 == slider_mask(self.rook, i)
        &&& exhausted(self.masks@[i].0, self.bits@[i] as nat)
        &&& table_ok(
            self.rook,
            i,
            self.magics@[i],
            self.bits@[i] as int,
            self.masks@[i].0,
            self.attacks@[i]@,
        )
    }

    /// Whether the tables of all squares are right.
    pub open spec fn wf(&self) -> bool {
        &&& self.magics@.len() == 64
        &&& self.bits@.len() == 64
        &&& self.masks@.len() == 64
        &&& self.attacks@.len() == 64
        &&& forall|i: int| 0 <= i < 64 ==> #[trigger] self.entry_ok(i)
    }

    /// Builds the tables of all squares from the given multipliers and bit
    /// counts; there is a result exactly when these serve every square.
    pub fn build(rook: bool, magics: Vec<u64>, bits: Vec<usize>) -> (r: Option<SliderTable>)
        ensures
            r is Some <==> magics_ok(rook, magics@, bits@),
            r matches Some(t) ==> t.wf() && t.rook == rook && t.magics@ == magics@ && t.bits@
                == bits@,
    {
        if magics.len() != 64 || bits.len() != 64 {
            return None;
        }
        let masks = if rook {
            rook_mbb_mask()
        } else {
            bishop_mbb_mask()
        };
        let mut attacks: Vec<Vec<Bitboard>> = Vec::new();
        let mut i: usize = 0;
        while i < 64
            invariant
                i <= 64,
                magics@.len() == 64,
                bits@.len() == 64,
                masks@.len() == 64,
                attacks@.len() == i,
                forall|k: int| 0 <= k < 64 ==> (#[trigger] masks@[k]).0 == slider_mask(rook, k),
                forall|k: int| 0 <= k < i ==> #[trigger] magic_ok(rook, k, magics@[k], bits@[k] as int),
                forall|k: int|
                    0 <= k < i ==> table_ok(
                        rook,
                        k,
                        magics@[k],
                        bits@[k] as int,
                        slider_mask(rook, k),
                        (#[trigger] attacks@[k])@,
                    ),
            decreases 64 - i,
        {
            let b = bits[i];
            if b < 1 || b > 12 {
                assert(!magic_ok(rook, i as int, magics@[i as int], bits@[i as int] as int));
                return None;
            }
            if !mask_fits(masks[i], b) {
                assert(!magic_ok(rook, i as int, magics@[i as int], bits@[i as int] as int));
                return None;
            }
            match build_magic_table(rook, i, magics[i], b, masks[i]) {
                None => {
                    assert(!magic_ok(rook, i as int, magics@[i as int], bits@[i as int] as int));
                    return None;
                },
                Some(t) => {
                    attacks.push(t);
                },
            }
            i += 1;
        }
        let t = SliderTable { rook, magics, bits, masks, attacks };
        proof {
            assert forall|k: int| 0 <= k < 64 implies #[trigger] t.entry_ok(k) by {
                assert(magic_ok(rook, k, t.magics@[k], t.bits@[k] as int));
                assert(t.masks@[k].0 == slider_mask(rook, k));
            }
        }
        Some(t)
    }

    /// The attack set of the slider on `square` when the squares of `blockers` are occupied.
    pub fn lookup(&self, square: Square, blockers: Bitboard) -> (b: Bitboard)
        requires
            self.wf(),
        ensures
            b.0 == slider_attacks(self.rook, square.idx(), blockers.0),
    {
        let i = square.as_usize();
        assert(self.entry_ok(i as int));
        proof {
            lemma_table_lookup(
                self.rook,
                i as int,
                self.magics@[i as int],
                self.bits@[i as int] as int,
                self.attacks@[i as int]@,
                blockers.0,
            );
        }
        let m = magic_index(self.magics[i], blockers.0 & self.masks[i].0, self.bits[i]);
        self.attacks[i][m]
    }
}

/// The bishop's tables of all squares for the multipliers in use, if these serve.
pub fn bishop_attack_mbb() -> (r: Option<Vec<Vec<Bitboard>>>)
    ensures
        r is Some <==> magics_ok(false, BISHOP_MAGICS@, BISHOP_OCC_BITCOUNT@),
        r matches Some(a) ==> a@.len() == 64 && forall|i: int|
            0 <= i < 64 ==> table_ok(
                false,
                i,
                BISHOP_MAGICS@[i],
                BISHOP_OCC_BITCOUNT@[i] as int,
                slider_mask(false, i),
                (#[trigger] a@[i])@,
            ),
{
    match SliderTable::build(false, magic_numbers(false), occ_bitcounts(false)) {
        Some(t) => {
            proof {
                assert forall|i: int| 0 <= i < 64 implies table_ok(
                    false,
                    i,
                    BISHOP_MAGICS@[i],
                    BISHOP_OCC_BITCOUNT@[i] as int,
                    slider_mask(false, i),
                    (#[trigger] t.attacks@[i])@,
                ) by {
                    assert(t.entry_ok(i));
                }
            }
            Some(t.attacks)
        },
        None => None,
    }
}

/// The rook's tables of all squares for the multipliers in use, if these serve.
pub fn rook_attack_mbb() -> (r: Option<Vec<Vec<Bitboard>>>)
    ensures
        r is Some <==> magics_ok(true, ROOK_MAGICS@, ROOK_OCC_BITCOUNT@),
        r matches Some(a) ==> a@.len() == 64 && forall|i: int|
            0 <= i < 64 ==> table_ok(
                true,
                i,
                ROOK_MAGICS@[i],
                ROOK_OCC_BITCOUNT@[i] as int,
                slider_mask(true, i),
                (#[trigger] a@[i])@,
            ),
{
    match SliderTable::build(true, magic_numbers(true), occ_bitcounts(true)) {
        Some(t) => {
            proof {
                assert forall|i: int| 0 <= i < 64 implies table_ok(
                    true,
                    i,
                    ROOK_MAGICS@[i],
                    ROOK_OCC_BITCOUNT@[i] as int,
                    slider_mask(true, i),
                    (#[trigger] t.attacks@[i])@,
                ) by {
                    assert(t.entry_ok(i));
                }
            }
            Some(t.attacks)
        },
        None => None,
    }
}

/// -1, 0 or 1 as `x` is negative, zero or positive.
pub open spec fn sign(x: int) -> int {
    if x > 0 {
        1
    } else if x < 0 {
        -1
    } else {
        0
    }
}

/// The direction from square `i` to a different square `j` on one rank, file
/// or diagonal with it; `None` if there is no such line.
pub open spec fn line_dir(i: int, j: int) -> Option<(int, int)> {
    let dr = row_of(j) - row_of(i);
    let dc = col_of(j) - col_of(i);
    if i == j {
        None
    } else if dr == 0 || dc == 0 || dr == dc || dr == -dc {
        Some((sign(dr), sign(dc)))
    } else {
        None
    }
}

/// The squares strictly between `i` and `j` if they share a rank, a file or a
/// diagonal; empty otherwise.
pub open spec fn between(i: int, j: int) -> u64 {
    match line_dir(i, j) {
        Some((dr, dc)) => ray_attacks(i, dr, dc, single(j)) & !single(j),
        None => 0,
    }
}

/// The whole line through two different squares `i` and `j` that share a
/// rank, a file or a diagonal, from edge to edge; empty if they share none.
/// For `i == j` it is the rank and the file of the square.
pub open spec fn long_line(i: int, j: int) -> u64 {
    if i == j {
        rook_attacks(i, 0) | single(i)
    } else {
        match line_dir(i, j) {
            Some((dr, dc)) => single(i) | ray_attacks(i, dr, dc, 0) | ray_attacks(i, -dr, -dc, 0),
            None => 0,
        }
    }
}

/// The direction from square `i` to square `j`, if they share a line.
pub fn direction(i: usize, j: usize) -> (d: Option<(i8, i8)>)
    requires
        i < 64,
        j < 64,
    ensures
        match d {
            Some((dr, dc)) => line_dir(i as int, j as int) == Some((dr as int, dc as int))
                && is_dir(dr as int, dc as int),
            None => line_dir(i as int, j as int) is None,
        },
{
    let dr: i8 = (j / 8) as i8 - (i / 8) as i8;
    let dc: i8 = (j % 8) as i8 - (i % 8) as i8;
    if i == j {
        None
    } else if dr == 0 || dc == 0 || dr == dc || dr == -dc {
        let sr: i8 = if dr > 0 {
            1
        } else if dr < 0 {
            -1
        } else {
            0
        };
        let sc: i8 = if dc > 0 {
            1
        } else if dc < 0 {
            -1
        } else {
            0
        };
        Some((sr, sc))
    } else {
        None
    }
}

/// Whether a 64 by 64 table holds `between` of every pair of squares.
pub open spec fn rays_ok(t: Seq<Vec<Bitboard>>) -> bool {
    &&& t.len() == 64
    &&& forall|i: int| 0 <= i < 64 ==> (#[trigger] t[i])@.len() == 64
    &&& forall|i: int, j: int|
        0 <= i < 64 && 0 <= j < 64 ==> (#[trigger] t[i]@[j]).0 == between(i, j)
}

/// Whether a 64 by 64 table holds `long_line` of every pair of squares.
pub open spec fn long_rays_ok(t: Seq<Vec<Bitboard>>) -> bool {
    &&& t.len() == 64
    &&& forall|i: int| 0 <= i < 64 ==> (#[trigger] t[i])@.len() == 64
    &&& forall|i: int, j: int|
        0 <= i < 64 && 0 <= j < 64 ==> (#[trigger] t[i]@[j]).0 == long_line(i, j)
}

/// The squares strictly between two squares.
pub fn compute_ray(i: usize, j: usize) -> (b: Bitboard)
    requires
        i < 64,
        j < 64,
    ensures
        b.0 == between(i as int, j as int),
{
    match direction(i, j) {
        Some((dr, dc)) => {
            let target: u64 = 1u64 << (j as u64);
            let seen = naive_ray_attack(i, dr, dc, Bitboard(target));
            Bitboard(seen.0 & !target)
        },
        None => Bitboard(0),
    }
}

/// The whole line through two squares.
pub fn compute_long_ray(i: usize, j: usize) -> (b: Bitboard)
    requires
        i < 64,
        j < 64,
    ensures
        b.0 == long_line(i as int, j as int),
{
    if i == j {
        let cross = naive_rook_attack(i, Bitboard(0));
        Bitboard(cross.0 | (1u64 << (i as u64)))
    } else {
        match direction(i, j) {
            Some((dr, dc)) => {
                let ahead = naive_ray_attack(i, dr, dc, Bitboard(0));
                let behind = naive_ray_attack(i, -dr, -dc, Bitboard(0));
                Bitboard((1u64 << (i as u64)) | ahead.0 | behind.0)
            },
            None => Bitboard(0),
        }
    }
}

/// The table of the squares strictly between every two squares.
pub fn init_rays() -> (t: Vec<Vec<Bitboard>>)
    ensures
        rays_ok(t@),
{
    let mut t: Vec<Vec<Bitboard>> = Vec::new();
    let mut i: usize = 0;
    while i < 64
        invariant
            i <= 64,
            t@.len() == i,
            forall|a: int| 0 <= a < i ==> (#[trigger] t@[a])@.len() == 64,
            forall|a: int, b: int|
                0 <= a < i && 0 <= b < 64 ==> (#[trigger] t@[a]@[b]).0 == between(a, b),
        decreases 64 - i,
    {
        let mut row: Vec<Bitboard> = Vec::new();
        let mut j: usize = 0;
        while j < 64
            invariant
                i < 64,
                j <= 64,
                row@.len() == j,
                forall|b: int| 0 <= b < j ==> (#[trigger] row@[b]).0 == between(i as int, b),
            decreases 64 - j,
        {
            row.push(compute_ray(i, j));
            j += 1;
        }
        t.push(row);
        i += 1;
    }
    t
}

/// The table of the whole lines through every two squares.
pub fn init_long_rays() -> (t: Vec<Vec<Bitboard>>)
    ensures
        long_rays_ok(t@),
{
    let mut t: Vec<Vec<Bitboard>> = Vec::new();
    let mut i: usize = 0;
    while i < 64
        invariant
            i <= 64,
            t@.len() == i,
            forall|a: int| 0 <= a < i ==> (#[trigger] t@[a])@.len() == 64,
            forall|a: int, b: int|
                0 <= a < i && 0 <= b < 64 ==> (#[trigger] t@[a]@[b]).0 == long_line(a, b),
        decreases 64 - i,
    {
        let mut row: Vec<Bitboard> = Vec::new();
        let mut j: usize = 0;
        while j < 64
            invariant
                i < 64,
                j <= 64,
                row@.len() == j,
                forall|b: int| 0 <= b < j ==> (#[trigger] row@[b]).0 == long_line(i as int, b),
            decreases 64 - j,
        {
            row.push(compute_long_ray(i, j));
            j += 1;
        }
        t.push(row);
        i += 1;
    }
    t
}

/// Whether a table of 64 entries holds `f` of every square.
pub open spec fn table_of(t: Seq<Bitboard>, f: spec_fn(int) -> u64) -> bool {
    &&& t.len() == 64
    &&& forall|i: int| 0 <= i < 64 ==> (#[trigger] t[i]).0 == f(i)
}

/// All attack tables.
pub struct AttackTables {
    pub w_pawn: Vec<Bitboard>,
    pub b_pawn: Vec<Bitboard>,
    pub knight: Vec<Bitboard>,
    pub king: Vec<Bitboard>,
    pub bishop_ray: Vec<Bitboard>,
    pub rook_ray: Vec<Bitboard>,
    pub bishop: SliderTable,
    pub rook: SliderTable,
    pub rays: Vec<Vec<Bitboard>>,
    pub long_rays: Vec<Vec<Bitboard>>,
}

/// Whether the multipliers in use serve every square, for both sliders.
pub open spec fn default_magics_ok() -> bool {
    magics_ok(false, BISHOP_MAGICS@, BISHOP_OCC_BITCOUNT@) && magics_ok(
        true,
        ROOK_MAGICS@,
        ROOK_OCC_BITCOUNT@,
    )
}

impl AttackTables {
    /// Whether every table holds what its specification says.
    pub open spec fn wf(&self) -> bool {
        &&& table_of(self.w_pawn@, |i: int| pawn_attacks(Side::White, i))
        &&& table_of(self.b_pawn@, |i: int| pawn_attacks(Side::Black, i))
        &&& table_of(self.knight@, |i: int| knight_attacks(i))
        &&& table_of(self.king@, |i: int| king_attacks(i))
        &&& table_of(self.bishop_ray@, |i: int| bishop_attacks(i, 0))
        &&& table_of(self.rook_ray@, |i: int| rook_attacks(i, 0))
        &&& self.bishop.wf()
        &&& !self.bishop.rook
        &&& self.rook.wf()
        &&& self.rook.rook
        &&& rays_ok(self.rays@)
        &&& long_rays_ok(self.long_rays@)
    }

    /// Computes all tables with the given multipliers; there is a result
    /// exactly when the multipliers serve every square.
    pub fn with_magics(bishop_magics: Vec<u64>, rook_magics: Vec<u64>) -> (r: Option<AttackTables>)
        ensures
            r is Some <==> magics_ok(false, bishop_magics@, BISHOP_OCC_BITCOUNT@) && magics_ok(
                true,
                rook_magics@,
                ROOK_OCC_BITCOUNT@,
            ),
            r matches Some(t) ==> t.wf() && t.bishop.magics@ == bishop_magics@ && t.rook.magics@
                == rook_magics@,
    {
        let bishop = match SliderTable::build(false, bishop_magics, occ_bitcounts(false)) {
            Some(t) => t,
            None => {
                return None;
            },
        };
        let rook = match SliderTable::build(true, rook_magics, occ_bitcounts(true)) {
            Some(t) => t,
            None => {
                return None;
            },
        };
        Some(
            AttackTables {
                w_pawn: init_pawn_attack(Side::White),
                b_pawn: init_pawn_attack(Side::Black),
                knight: init_knight_attack(),
                king: init_king_attack(),
                bishop_ray: init_bishop_attack(),
                rook_ray: init_rook_attack(),
                bishop,
                rook,
                rays: init_rays(),
                long_rays: init_long_rays(),
            },
        )
    }

    /// Computes all tables with the multipliers in use.
    pub fn new() -> (r: Option<AttackTables>)
        ensures
            r is Some <==> default_magics_ok(),
            r matches Some(t) ==> t.wf(),
    {
        AttackTables::with_magics(magic_numbers(false), magic_numbers(true))
    }
}

/// The squares that a pawn of `side` on `square` attacks.
pub fn get_pawn_attack(t: &AttackTables, side: Side, square: Square) -> (b: Bitboard)
    requires
        t.wf(),
    ensures
        b.0 == pawn_attacks(side, square.idx()),
{
    match side {
        Side::White => t.w_pawn[square.as_usize()],
        Side::Black => t.b_pawn[square.as_usize()],
    }
}

/// The rank on which pawns of `side` promote.
pub open spec fn promotion_row_of(side: Side) -> int {
    match side {
        Side::White => 7,
        Side::Black => 0,
    }
}

/// The rank on which pawns of `side` start.
pub open spec fn starting_row_of(side: Side) -> int {
    match side {
        Side::White => 1,
        Side::Black => 6,
    }
}

/// The rank on which pawns of `side` promote.
pub fn promotion_row(side: Side) -> (r: usize)
    ensures
        r == promotion_row_of(side),
{
    match side {
        Side::White => 7,
        Side::Black => 0,
    }
}

/// The rank on which pawns of `side` start.
pub fn starting_row(side: Side) -> (r: usize)
    ensures
        r == starting_row_of(side),
{
    match side {
        Side::White => 1,
        Side::Black => 6,
    }
}

/// The rank direction in which pawns of `side` move.
pub open spec fn forward(side: Side) -> int {
    match side {
        Side::White => 1,
        Side::Black => -1,
    }
}

/// The squares to which a pawn of `side` on square `i` can advance without
/// capturing: the square ahead if it is free, and from the starting rank the
/// square after it too, if both are free.
pub open spec fn pawn_pushes(side: Side, i: int, occ: u64) -> u64 {
    let one = step(i, forward(side), 0) & !occ;
    if one != 0 && row_of(i) == starting_row_of(side) {
        (one | (step(i, 2 * forward(side), 0) & !occ)) & !occ
    } else {
        one
    }
}

/// The squares to which a pawn of `side` on `square` can advance without capturing.
pub fn get_pawn_quiet(side: Side, square: Square, blockers: &Bitboard) -> (b: Bitboard)
    ensures
        b.0 == pawn_pushes(side, square.idx(), blockers.0),
{
    let i = square.as_usize();
    let free = !blockers.0;
    proof {
        lemma_and_zero(free);
    }
    let mut quiet_moves: u64 = match side {
        Side::White => if i < 56 {
            Bitboard::nth(square.up()).0 & free
        } else {
            0
        },
        Side::Black => if i >= 8 {
            Bitboard::nth(square.down()).0 & free
        } else {
            0
        },
    };
    if quiet_moves != 0 && i / 8 == starting_row(side) {
        quiet_moves = match side {
            Side::White => quiet_moves | (Bitboard::nth(square.upup()).0 & free),
            Side::Black => quiet_moves | (Bitboard::nth(square.downdown()).0 & free),
        };
        quiet_moves = quiet_moves & free;
    }
    Bitboard(quiet_moves)
}

/// The squares that a white pawn on `square` attacks.
pub fn get_w_pawn_attack(t: &AttackTables, square: Square) -> (b: Bitboard)
    requires
        t.wf(),
    ensures
        b.0 == pawn_attacks(Side::White, square.idx()),
{
    t.w_pawn[square.as_usize()]
}

/// The squares that a black pawn on `square` attacks.
pub fn get_b_pawn_attack(t: &AttackTables, square: Square) -> (b: Bitboard)
    requires
        t.wf(),
    ensures
        b.0 == pawn_attacks(Side::Black, square.idx()),
{
    t.b_pawn[square.as_usize()]
}

/// The squares that a knight on `square` attacks.
pub fn get_knight_attack(t: &AttackTables, square: Square) -> (b: Bitboard)
    requires
        t.wf(),
    ensures
        b.0 == knight_attacks(square.idx()),
{
    t.knight[square.as_usize()]
}

/// The squares that a king on `square` attacks.
pub fn get_king_attack(t: &AttackTables, square: Square) -> (b: Bitboard)
    requires
        t.wf(),
    ensures
        b.0 == king_attacks(square.idx()),
{
    t.king[square.as_usize()]
}

/// The squares that a bishop on `square` attacks on an empty board.
pub fn get_bishop_ray(t: &AttackTables, square: Square) -> (b: Bitboard)
    requires
        t.wf(),
    ensures
        b.0 == bishop_attacks(square.idx(), 0),
{
    t.bishop_ray[square.as_usize()]
}

/// The squares that a rook on `square` attacks on an empty board.
pub fn get_rook_ray(t: &AttackTables, square: Square) -> (b: Bitboard)
    requires
        t.wf(),
    ensures
        b.0 == rook_attacks(square.idx(), 0),
{
    t.rook_ray[square.as_usize()]
}

/// The squares that a bishop on `square` attacks when the squares of
/// `blockers` are occupied: the table entry at the slot of the occupancy
/// equals what walking the four diagonals gives.
pub fn get_bishop_attack(t: &AttackTables, square: Square, blockers: Bitboard) -> (b: Bitboard)
    requires
        t.wf(),
    ensures
        b.0 == bishop_attacks(square.idx(), blockers.0),
{
    t.bishop.lookup(square, blockers)
}

/// The squares that a rook on `square` attacks when the squares of `blockers`
/// are occupied: the table entry at the slot of the occupancy equals what
/// walking rank and file gives.
pub fn get_rook_attack(t: &AttackTables, square: Square, blockers: Bitboard) -> (b: Bitboard)
    requires
        t.wf(),
    ensures
        b.0 == rook_attacks(square.idx(), blockers.0),
{
    t.rook.lookup(square, blockers)
}

/// The squares that a queen on `square` attacks when the squares of `blockers` are occupied.
pub fn get_queen_attack(t: &AttackTables, square: Square, blockers: Bitboard) -> (b: Bitboard)
    requires
        t.wf(),
    ensures
        b.0 == queen_attacks(square.idx(), blockers.0),
{
    Bitboard(get_bishop_attack(t, square, blockers).0 | get_rook_attack(t, square, blockers).0)
}

/// The squares strictly between `i` and `j` on their common line; empty if they share none.
pub fn rays(t: &AttackTables, i: Square, j: Square) -> (b: Bitboard)
    requires
        t.wf(),
    ensures
        b.0 == between(i.idx(), j.idx()),
{
    t.rays[i.as_usize()][j.as_usize()]
}

/// The whole line through `i` and `j`, from edge to edge; empty if they share none.
pub fn long_rays(t: &AttackTables, i: Square, j: Square) -> (b: Bitboard)
    requires
        t.wf(),
    ensures
        b.0 == long_line(i.idx(), j.idx()),
{
    t.long_rays[i.as_usize()][j.as_usize()]
}

impl SliderType {
    /// The attack set of a slider kind.
    pub open spec fn attacks(self, i: int, occ: u64) -> u64 {
        match self {
            SliderType::Bishop => bishop_attacks(i, occ),
            SliderType::Rook => rook_attacks(i, occ),
            SliderType::Queen => queen_attacks(i, occ),
        }
    }

    /// The squares that the slider attacks from `square` when the squares of
    /// `blockers` are occupied.
    pub fn get_attack(&self, t: &AttackTables, square: Square, blockers: Bitboard) -> (b: Bitboard)
        requires
            t.wf(),
        ensures
            b.0 == self.attacks(square.idx(), blockers.0),
    {
        match self {
            SliderType::Bishop => get_bishop_attack(t, square, blockers),
            SliderType::Rook => get_rook_attack(t, square, blockers),
            SliderType::Queen => get_queen_attack(t, square, blockers),
        }
    }
}

} // verus!
