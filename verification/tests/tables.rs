use chessbb::attack::init::{naive_bishop_attack, naive_rook_attack};
use chessbb::attack::magic::{
    bishop_mbb_mask, build_magic_table, compute_occ_bb, magic_index, mask_fits, rook_mbb_mask,
};
use chessbb::attack::numbers::{BISHOP_MAGICS, BISHOP_OCC_BITCOUNT, ROOK_MAGICS, ROOK_OCC_BITCOUNT};
use chessbb::attack::search::{
    find_magic_number, init_magics, keep_fresh, sparse_word, try_candidate, try_magic,
};
use chessbb::attack::{
    bishop_attack_mbb, get_b_pawn_attack, get_bishop_attack, get_bishop_ray, get_king_attack,
    get_knight_attack, get_pawn_attack, get_pawn_quiet, get_queen_attack, get_rook_attack,
    get_rook_ray, get_w_pawn_attack, long_rays, promotion_row, rays, rook_attack_mbb,
    starting_row,
};
use chessbb::{AttackTables, Bitboard, PieceType, Side, SliderType, Square};

fn tables() -> AttackTables {
    AttackTables::new().expect("the multipliers in use serve every square")
}

fn bits(squares: &[Square]) -> u64 {
    let mut b = 0u64;
    for s in squares {
        b |= 1u64 << s.as_usize();
    }
    b
}

fn scramble(state: &mut u64) -> u64 {
    *state ^= *state << 13;
    *state ^= *state >> 7;
    *state ^= *state << 17;
    *state
}

#[test]
fn multipliers_in_use_serve_every_square() {
    assert!(AttackTables::new().is_some());
}

#[test]
fn table_lookup_equals_line_walk_for_rooks() {
    let t = tables();
    let mut state = 0x1234_5678_9abc_def1u64;
    for i in 0..64 {
        for _ in 0..200 {
            let blockers = Bitboard(scramble(&mut state) & scramble(&mut state));
            assert_eq!(
                get_rook_attack(&t, Square::nth(i), blockers),
                naive_rook_attack(i, blockers)
            );
        }
    }
}

#[test]
fn table_lookup_equals_line_walk_for_bishops() {
    let t = tables();
    let mut state = 0x0fed_cba9_8765_4321u64;
    for i in 0..64 {
        for _ in 0..200 {
            let blockers = Bitboard(scramble(&mut state) & scramble(&mut state));
            assert_eq!(
                get_bishop_attack(&t, Square::nth(i), blockers),
                naive_bishop_attack(i, blockers)
            );
        }
    }
}

#[test]
fn every_subset_of_a_mask_is_looked_up_right() {
    let t = tables();
    let masks = rook_mbb_mask();
    for i in [0usize, 27, 63] {
        let bitcount = ROOK_OCC_BITCOUNT[i];
        assert!(mask_fits(masks[i], bitcount));
        for index in 0..(1usize << bitcount) {
            let subset = compute_occ_bb(index, bitcount, masks[i]);
            assert_eq!(subset.0 & !masks[i].0, 0);
            assert_eq!(get_rook_attack(&t, Square::nth(i), subset), naive_rook_attack(i, subset));
        }
    }
}

#[test]
fn rook_attack_stops_at_first_blocker() {
    let t = tables();
    let blockers = Bitboard(bits(&[Square::A4, Square::D1, Square::E1]));
    let expected = bits(&[Square::A2, Square::A3, Square::A4, Square::B1, Square::C1, Square::D1]);
    assert_eq!(get_rook_attack(&t, Square::A1, blockers).0, expected);
    assert_eq!(naive_rook_attack(0, blockers).0, expected);
}

#[test]
fn bishop_attack_stops_at_first_blocker() {
    let t = tables();
    let blockers = Bitboard(bits(&[Square::F6, Square::B2]));
    let expected = bits(&[
        Square::E5, Square::F6, Square::C3, Square::B2, Square::C5, Square::B6, Square::A7,
        Square::E3, Square::F2, Square::G1,
    ]);
    assert_eq!(get_bishop_attack(&t, Square::D4, blockers).0, expected);
}

#[test]
fn queen_attack_is_union_of_rook_and_bishop() {
    let t = tables();
    let blockers = Bitboard(0x0042_0000_1800_2400);
    for i in 0..64 {
        let s = Square::nth(i);
        assert_eq!(
            get_queen_attack(&t, s, blockers).0,
            get_rook_attack(&t, s, blockers).0 | get_bishop_attack(&t, s, blockers).0
        );
        assert_eq!(SliderType::Queen.get_attack(&t, s, blockers), get_queen_attack(&t, s, blockers));
        assert_eq!(SliderType::Rook.get_attack(&t, s, blockers), get_rook_attack(&t, s, blockers));
        assert_eq!(
            SliderType::Bishop.get_attack(&t, s, blockers),
            get_bishop_attack(&t, s, blockers)
        );
    }
}

#[test]
fn empty_board_rays() {
    let t = tables();
    assert_eq!(get_rook_ray(&t, Square::A1).0, 0x0101_0101_0101_01fe);
    assert_eq!(get_bishop_ray(&t, Square::A1).0, 0x8040_2010_0804_0200);
    assert_eq!(get_rook_ray(&t, Square::D4).count_ones(), 14);
    assert_eq!(get_bishop_ray(&t, Square::D4).count_ones(), 13);
}

#[test]
fn knight_attacks_do_not_wrap() {
    let t = tables();
    assert_eq!(get_knight_attack(&t, Square::A1).0, bits(&[Square::B3, Square::C2]));
    assert_eq!(get_knight_attack(&t, Square::H8).0, bits(&[Square::G6, Square::F7]));
    assert_eq!(get_knight_attack(&t, Square::D4).count_ones(), 8);
    assert_eq!(
        get_knight_attack(&t, Square::H4).0,
        bits(&[Square::G6, Square::F5, Square::F3, Square::G2])
    );
}

#[test]
fn king_attacks_do_not_wrap() {
    let t = tables();
    assert_eq!(get_king_attack(&t, Square::A1).0, bits(&[Square::A2, Square::B1, Square::B2]));
    assert_eq!(get_king_attack(&t, Square::H1).0, bits(&[Square::H2, Square::G1, Square::G2]));
    assert_eq!(get_king_attack(&t, Square::E4).count_ones(), 8);
}

#[test]
fn pawn_attacks_do_not_wrap() {
    let t = tables();
    assert_eq!(get_pawn_attack(&t, Side::White, Square::A2).0, bits(&[Square::B3]));
    assert_eq!(get_pawn_attack(&t, Side::White, Square::H2).0, bits(&[Square::G3]));
    assert_eq!(get_pawn_attack(&t, Side::White, Square::E4).0, bits(&[Square::D5, Square::F5]));
    assert_eq!(get_pawn_attack(&t, Side::Black, Square::E4).0, bits(&[Square::D3, Square::F3]));
    assert_eq!(get_pawn_attack(&t, Side::White, Square::E8).0, 0);
    assert_eq!(get_pawn_attack(&t, Side::Black, Square::E1).0, 0);
}

#[test]
fn pawn_pushes() {
    let empty = Bitboard(0);
    assert_eq!(get_pawn_quiet(Side::White, Square::E2, &empty).0, bits(&[Square::E3, Square::E4]));
    assert_eq!(get_pawn_quiet(Side::Black, Square::E7, &empty).0, bits(&[Square::E6, Square::E5]));
    assert_eq!(get_pawn_quiet(Side::White, Square::E3, &empty).0, bits(&[Square::E4]));
    let blocked_far = Bitboard(bits(&[Square::E4]));
    assert_eq!(get_pawn_quiet(Side::White, Square::E2, &blocked_far).0, bits(&[Square::E3]));
    let blocked_near = Bitboard(bits(&[Square::E3]));
    assert_eq!(get_pawn_quiet(Side::White, Square::E2, &blocked_near).0, 0);
    assert_eq!(get_pawn_quiet(Side::White, Square::E8, &empty).0, 0);
    assert_eq!(get_pawn_quiet(Side::Black, Square::E1, &empty).0, 0);
}

#[test]
fn pawn_rows() {
    assert_eq!(promotion_row(Side::White), 7);
    assert_eq!(promotion_row(Side::Black), 0);
    assert_eq!(starting_row(Side::White), 1);
    assert_eq!(starting_row(Side::Black), 6);
}

#[test]
fn squares_between() {
    let t = tables();
    assert_eq!(rays(&t, Square::A1, Square::D1).0, bits(&[Square::B1, Square::C1]));
    assert_eq!(rays(&t, Square::D1, Square::A1).0, bits(&[Square::B1, Square::C1]));
    assert_eq!(rays(&t, Square::A1, Square::D4).0, bits(&[Square::B2, Square::C3]));
    assert_eq!(rays(&t, Square::H1, Square::E4).0, bits(&[Square::G2, Square::F3]));
    assert_eq!(rays(&t, Square::E1, Square::E8).count_ones(), 6);
    assert_eq!(rays(&t, Square::A1, Square::B1).0, 0);
    assert_eq!(rays(&t, Square::A1, Square::B3).0, 0);
    assert_eq!(rays(&t, Square::D4, Square::D4).0, 0);
}

#[test]
fn whole_lines() {
    let t = tables();
    assert_eq!(long_rays(&t, Square::C1, Square::E1).0, 0xff);
    assert_eq!(long_rays(&t, Square::B2, Square::D4).0, 0x8040_2010_0804_0201);
    assert_eq!(long_rays(&t, Square::A1, Square::B3).0, 0);
    assert_eq!(
        long_rays(&t, Square::D4, Square::D4).0,
        get_rook_ray(&t, Square::D4).0 | bits(&[Square::D4])
    );
}

#[test]
fn relevant_masks_leave_out_the_edges() {
    let rook = rook_mbb_mask();
    let bishop = bishop_mbb_mask();
    assert_eq!(rook[0].0, 0x0001_0101_0101_017e);
    assert_eq!(bishop[0].0, 0x0040_2010_0804_0200);
    for i in 0..64 {
        assert_eq!(rook[i].count_ones() as usize, ROOK_OCC_BITCOUNT[i]);
        assert_eq!(bishop[i].count_ones() as usize, BISHOP_OCC_BITCOUNT[i]);
    }
}

#[test]
fn occupancy_subsets() {
    let mask = Bitboard(0b1011_0100);
    assert_eq!(compute_occ_bb(0, 4, mask).0, 0);
    assert_eq!(compute_occ_bb(0b0001, 4, mask).0, 0b0000_0100);
    assert_eq!(compute_occ_bb(0b0010, 4, mask).0, 0b0001_0000);
    assert_eq!(compute_occ_bb(0b1111, 4, mask).0, 0b1011_0100);
    assert_eq!(compute_occ_bb(0b1111, 2, mask).0, 0b0001_0100);
    assert!(mask_fits(mask, 4));
    assert!(!mask_fits(mask, 3));
}

#[test]
fn magic_index_takes_top_bits() {
    assert_eq!(magic_index(1, 0x8000_0000_0000_0000, 1), 1);
    assert_eq!(magic_index(1, 0xfff0_0000_0000_0000, 12), 0xfff);
    assert_eq!(magic_index(2, 0x4000_0000_0000_0000, 4), 8);
    assert_eq!(magic_index(0x10, 0x1000_0000_0000_0001, 4), 0);
}

#[test]
fn multiplier_check_accepts_and_refuses() {
    for i in [0usize, 9, 36] {
        assert!(try_magic(true, i, ROOK_OCC_BITCOUNT[i], ROOK_MAGICS[i]));
        assert!(try_magic(false, i, BISHOP_OCC_BITCOUNT[i], BISHOP_MAGICS[i]));
    }
    assert!(!try_magic(true, 0, 12, 0));
    assert!(!try_magic(true, 0, 12, 1));
    assert!(!try_magic(true, 0, 0, ROOK_MAGICS[0]));
    assert!(!try_magic(true, 0, 13, ROOK_MAGICS[0]));
    assert!(!try_magic(true, 0, 11, ROOK_MAGICS[0]));
    let mask = rook_mbb_mask()[0];
    assert!(build_magic_table(true, 0, 1, 12, mask).is_none());
    let table = build_magic_table(true, 0, ROOK_MAGICS[0], 12, mask).expect("a table");
    assert_eq!(table.len(), 4096);
}

#[test]
fn found_multiplier_serves_its_square() {
    let found = find_magic_number(9, BISHOP_OCC_BITCOUNT[9], PieceType::Bishop, 1_000_000);
    let magic = found.expect("a multiplier for a small mask is found quickly");
    assert!(try_magic(false, 9, BISHOP_OCC_BITCOUNT[9], magic));
    assert_eq!(find_magic_number(9, BISHOP_OCC_BITCOUNT[9], PieceType::Bishop, 0), None);
}

#[test]
fn tables_can_be_built_with_other_multipliers() {
    let mut bishops = BISHOP_MAGICS.to_vec();
    bishops[9] = find_magic_number(9, BISHOP_OCC_BITCOUNT[9], PieceType::Bishop, 1_000_000)
        .expect("a multiplier");
    let t = AttackTables::with_magics(bishops, ROOK_MAGICS.to_vec()).expect("tables");
    let blockers = Bitboard(0x0000_0010_0804_0000);
    assert_eq!(get_bishop_attack(&t, Square::B2, blockers), naive_bishop_attack(9, blockers));
    let mut bad = ROOK_MAGICS.to_vec();
    bad[5] = 1;
    assert!(AttackTables::with_magics(BISHOP_MAGICS.to_vec(), bad).is_none());
    assert!(AttackTables::with_magics(vec![1, 2, 3], ROOK_MAGICS.to_vec()).is_none());
}

#[test]
fn pawn_attacks_by_colour() {
    let t = tables();
    for s in Square::iter() {
        assert_eq!(get_w_pawn_attack(&t, s), get_pawn_attack(&t, Side::White, s));
        assert_eq!(get_b_pawn_attack(&t, s), get_pawn_attack(&t, Side::Black, s));
    }
    assert_eq!(get_w_pawn_attack(&t, Square::B2).0, bits(&[Square::A3, Square::C3]));
    assert_eq!(get_b_pawn_attack(&t, Square::B2).0, bits(&[Square::A1, Square::C1]));
}

#[test]
fn tables_of_all_squares() {
    let bishops = bishop_attack_mbb().expect("the bishop multipliers serve");
    let rooks = rook_attack_mbb().expect("the rook multipliers serve");
    assert_eq!(bishops.len(), 64);
    assert_eq!(rooks.len(), 64);
    let blockers = Bitboard(0x0000_2200_0814_0042);
    for i in 0..64 {
        assert_eq!(bishops[i].len(), 1usize << BISHOP_OCC_BITCOUNT[i]);
        assert_eq!(rooks[i].len(), 1usize << ROOK_OCC_BITCOUNT[i]);
        let relevant = blockers.0 & bishop_mbb_mask()[i].0;
        let slot = magic_index(BISHOP_MAGICS[i], relevant, BISHOP_OCC_BITCOUNT[i]);
        assert_eq!(bishops[i][slot], naive_bishop_attack(i, blockers));
        let relevant = blockers.0 & rook_mbb_mask()[i].0;
        let slot = magic_index(ROOK_MAGICS[i], relevant, ROOK_OCC_BITCOUNT[i]);
        assert_eq!(rooks[i][slot], naive_rook_attack(i, blockers));
    }
}

#[test]
fn multipliers_found_for_every_square_of_the_bishop() {
    let found = init_magics(PieceType::Bishop, 1_000_000).expect("multipliers");
    assert_eq!(found.len(), 64);
    for i in 0..64 {
        assert!(try_magic(false, i, BISHOP_OCC_BITCOUNT[i], found[i]));
        for j in 0..i {
            assert_ne!(found[i], found[j]);
        }
    }
    assert_eq!(init_magics(PieceType::Bishop, 0), None);
}

#[test]
fn candidates_are_decided_one_by_one() {
    for i in [0usize, 9, 36, 63] {
        let rook = try_candidate(true, i, ROOK_OCC_BITCOUNT[i], ROOK_MAGICS[i]);
        let promising = (rook_mbb_mask()[i].0.wrapping_mul(ROOK_MAGICS[i])
            & 0xff00_0000_0000_0000)
            .count_ones()
            >= 6;
        assert_eq!(rook, if promising { Some(ROOK_MAGICS[i]) } else { None });
    }
    assert_eq!(try_candidate(true, 0, 12, 0), None);
    assert_eq!(try_candidate(true, 0, 12, 1), None);
    assert_eq!(try_candidate(false, 9, 0, BISHOP_MAGICS[9]), None);
    assert_eq!(try_candidate(true, 0, 12, u64::MAX), None);
    let found = find_magic_number(9, BISHOP_OCC_BITCOUNT[9], PieceType::Bishop, 1_000_000)
        .expect("a multiplier for a small mask is found quickly");
    assert_eq!(try_candidate(false, 9, BISHOP_OCC_BITCOUNT[9], found), Some(found));
}

#[test]
fn a_candidate_holds_the_bits_that_three_words_share() {
    assert_eq!(sparse_word(0b1110, 0b0111, 0b1101), 0b0100);
    assert_eq!(sparse_word(u64::MAX, u64::MAX, 0x8000_0000_0000_0001), 0x8000_0000_0000_0001);
    assert_eq!(sparse_word(5, 0, 7), 0);
}

#[test]
fn a_multiplier_is_kept_unless_it_is_taken() {
    let taken = vec![7u64, 11, 13];
    assert_eq!(keep_fresh(&taken, Some(5)), Some(5));
    assert_eq!(keep_fresh(&taken, Some(11)), None);
    assert_eq!(keep_fresh(&taken, None), None);
    assert_eq!(keep_fresh(&Vec::new(), Some(11)), Some(11));
}
