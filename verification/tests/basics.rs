use std::time::Duration;

use chessbb::array_vec::FixedVec;
use chessbb::evaluator::{material, MaterialEvaluator, StaticEvaluator};
use chessbb::limits::{NodeLimit, SearchLimit, TimeLimit};
use chessbb::chesspiece::{chess_piece, cp_index, sym_index};
use chessbb::transposition::{NodeType, PositionData};
use chessbb::{
    castle_index, index, AttackTables, Bitboard, Castling, ChessGame, ChessMove, ChessPiece,
    Column, FenError, LexiOrd, MoveList, MoveType, PieceType, Precedence, Side, SliderType, Square,
    ZobristHash, ZobristTable,
};

#[test]
fn square_numbers() {
    assert_eq!(Square::A1.as_usize(), 0);
    assert_eq!(Square::H1.as_usize(), 7);
    assert_eq!(Square::A8.as_usize(), 56);
    assert_eq!(Square::H8.as_usize(), 63);
    assert_eq!(Square::E4.as_u8(), 28);
    assert_eq!(Square::E4.as_col_usize(), 4);
    assert_eq!(Square::E4.as_row_usize(), 3);
    assert_eq!(Square::E4.as_col(), Column::E);
    assert_eq!(Square::E4.as_usize_flipped(), 36);
    assert_eq!(Square::A1.as_usize_flipped(), 56);
    for i in 0..64 {
        assert_eq!(Square::nth(i).as_usize(), i);
    }
    assert_eq!(Column::nth(0), Column::A);
    assert_eq!(Column::nth(7), Column::H);
}

#[test]
fn square_neighbours() {
    assert_eq!(Square::E4.left(), Square::D4);
    assert_eq!(Square::E4.right(), Square::F4);
    assert_eq!(Square::E4.up(), Square::E5);
    assert_eq!(Square::E4.down(), Square::E3);
    assert_eq!(Square::E2.upup(), Square::E4);
    assert_eq!(Square::E7.downdown(), Square::E5);
    assert_eq!(Square::A2.left(), Square::H1);
}

#[test]
fn square_lines() {
    assert!(Square::is_same_row(Square::A4, Square::H4));
    assert!(!Square::is_same_row(Square::A4, Square::A5));
    assert!(Square::is_same_col(Square::C1, Square::C8));
    assert!(Square::is_same_adiag(Square::A1, Square::H8));
    assert!(!Square::is_same_adiag(Square::A1, Square::B3));
    assert!(Square::is_same_ddiag(Square::A8, Square::H1));
    assert!(Square::is_same_diag(Square::A1, Square::C3, Square::H8));
    assert!(!Square::is_same_diag(Square::A1, Square::C3, Square::E1));
}

#[test]
fn square_names() {
    assert_eq!(Square::parse_str("e4"), Square::E4);
    assert_eq!(Square::parse_str("E4"), Square::E4);
    assert_eq!(Square::parse_str("a1"), Square::A1);
    assert_eq!(Square::parse_str("h8"), Square::H8);
    assert_eq!(Square::parse_bytes(b"i1"), None);
    assert_eq!(Square::parse_bytes(b"a9"), None);
    assert_eq!(Square::parse_bytes(b"a"), None);
    assert_eq!(Square::parse_bytes(b"a10"), None);
    assert_eq!(Square::E4.name(), *b"e4");
    let all = Square::iter();
    assert_eq!(all.len(), 64);
    for (i, s) in all.iter().enumerate() {
        assert_eq!(s.as_usize(), i);
        assert_eq!(Square::parse_bytes(&s.name()), Some(*s));
    }
}

#[test]
fn sides_and_pieces() {
    assert_eq!(Side::White.update(), Side::Black);
    assert_eq!(Side::Black.update(), Side::White);
    assert_eq!(ChessPiece::new(Side::Black, PieceType::Rook).data(), (Side::Black, PieceType::Rook));
    assert_eq!(ChessPiece(Side::White, PieceType::Pawn).to_index(), 0);
    assert_eq!(ChessPiece(Side::White, PieceType::King).to_index(), 5);
    assert_eq!(ChessPiece(Side::Black, PieceType::Queen).to_index(), 10);
    assert_eq!(cp_index(ChessPiece(Side::Black, PieceType::King)), 11);
    assert_eq!(sym_index('K'), 0);
    assert_eq!(sym_index('P'), 5);
    assert_eq!(sym_index('p'), 11);
    assert_eq!(chess_piece('n'), ChessPiece(Side::Black, PieceType::Knight));
    assert_eq!(ChessPiece(Side::White, PieceType::Queen).to_ascii(), 'Q');
    assert_eq!(ChessPiece(Side::Black, PieceType::Bishop).to_ascii(), 'b');
    assert_eq!(ChessPiece::try_from('R'), Ok(ChessPiece(Side::White, PieceType::Rook)));
    assert_eq!(ChessPiece::try_from('x'), Err(FenError::InvalidPieceChar));
    assert_eq!(ChessPiece::try_from('\u{e9}'), Err(FenError::InvalidPieceChar));
    assert_eq!(ChessPiece::from_byte(b'k'), Ok(ChessPiece(Side::Black, PieceType::King)));
    assert_eq!(PieceType::Knight.to_uci_char(), 'n');
    assert_eq!(SliderType::Queen.to_piece_type(), PieceType::Queen);
    assert_eq!(PieceType::iter().len(), 6);
    assert_eq!(ChessPiece::white_iter()[0], ChessPiece(Side::White, PieceType::King));
    assert_eq!(ChessPiece::black_iter()[5], ChessPiece(Side::Black, PieceType::Pawn));
    let all = ChessPiece::iter();
    assert_eq!(all.len(), 12);
    for (i, p) in all.iter().enumerate() {
        assert_eq!(p.to_index(), i);
        assert_eq!(ChessPiece::from_byte(p.to_byte()), Ok(*p));
    }
}

#[test]
fn bitboard_sets() {
    let mut b = Bitboard::zero();
    assert!(b.is_zero());
    b.set_bit(Square::E4);
    b.set_bit(Square::A1);
    assert!(b.is_not_zero());
    assert_eq!(b.0, (1 << 28) | 1);
    assert!(b.nth_is_not_zero(Square::E4));
    assert!(b.nth_is_zero(Square::E5));
    assert_eq!(b.count_ones(), 2);
    assert_eq!(b.lsb_index(), Some(0));
    assert_eq!(b.lsb_square(), Some(Square::A1));
    assert_eq!(b.lsb_bitboard().0, 1);
    b.pop_lsb();
    assert_eq!(b.lsb_square(), Some(Square::E4));
    b.pop_bit(Square::E4);
    assert!(b.is_zero());
    assert_eq!(b.lsb_index(), None);
    assert_eq!(b.lsb_square(), None);
    assert_eq!(b.lsb_bitboard().0, 0);
    b.pop_lsb();
    assert_eq!(b.0, 0);
    assert_eq!(Bitboard::ones().0, u64::MAX);
    assert_eq!(Bitboard::nth(Square::H8).0, 1 << 63);
    assert_eq!(Bitboard::new(5).get_bit(2).0, 4);
    assert_eq!(Bitboard::new(5).get_bit(1).0, 0);
    assert_eq!(Bitboard::rows(0).0, 0xff);
    assert_eq!(Bitboard::rows(7).0, 0xff00_0000_0000_0000);
}

#[test]
fn bitboard_operations() {
    let a = Bitboard(0b1100);
    let b = Bitboard(0b1010);
    assert_eq!(a.bit_and(&b).0, 0b1000);
    assert_eq!(a.bit_or(&b).0, 0b1110);
    assert_eq!(a.bit_xor(&b).0, 0b0110);
    assert_eq!(a.bit_not().0, !0b1100u64);
    assert_eq!(a.shl(2).0, 0b110000);
    assert_eq!(a.shr(2).0, 0b11);
    assert_eq!(a.shl(64).0, 0);
    assert_eq!(a.shr(64).0, 0);
    assert_eq!(Bitboard(0x0123_4567_89ab_cdef).flip().0, 0x0123_4567_89ab_cdefu64.swap_bytes());
    assert_eq!(Bitboard(1 << 4).flip().0, 1 << 60);
}

#[test]
fn moves_pack_and_unpack() {
    let m = ChessMove::new(Square::E2, Square::E4, MoveType::Normal);
    assert_eq!(m.source(), Square::E2);
    assert_eq!(m.target(), Square::E4);
    assert_eq!(m.move_type(), MoveType::Normal);
    assert_eq!(m.data(), 12 | (28 << 6));
    assert_eq!(ChessMove::from_raw(m.data()), m);
    let p = ChessMove::new(Square::E7, Square::E8, MoveType::Promotion(PieceType::Queen));
    assert_eq!(p.move_type(), MoveType::Promotion(PieceType::Queen));
    assert_eq!(p.data() >> 12, 0b1111);
    let kinds = [
        MoveType::Normal,
        MoveType::Castle(Castling::Kingside(Side::White)),
        MoveType::Castle(Castling::Queenside(Side::White)),
        MoveType::Castle(Castling::Kingside(Side::Black)),
        MoveType::Castle(Castling::Queenside(Side::Black)),
        MoveType::EnPassant,
        MoveType::Promotion(PieceType::Knight),
        MoveType::Promotion(PieceType::Bishop),
        MoveType::Promotion(PieceType::Rook),
        MoveType::Promotion(PieceType::Queen),
    ];
    for kind in kinds {
        for (s, t) in [(Square::A1, Square::H8), (Square::H8, Square::A1), (Square::D5, Square::E6)] {
            let m = ChessMove::new(s, t, kind);
            assert_eq!((m.source(), m.target(), m.move_type()), (s, t, kind));
        }
    }
    assert_eq!(ChessMove::from_raw(2526).source(), Square::nth(2526 & 63));
}

#[test]
fn castle_moves_and_promotions() {
    let k = ChessMove::kingside_castle(Side::White);
    assert_eq!((k.source(), k.target()), (Square::E1, Square::G1));
    assert_eq!(k.move_type(), MoveType::Castle(Castling::Kingside(Side::White)));
    let q = ChessMove::queenside_castle(Side::Black);
    assert_eq!((q.source(), q.target()), (Square::E8, Square::C8));
    assert_eq!(q.move_type(), MoveType::Castle(Castling::Queenside(Side::Black)));
    let four = ChessMove::promotions(Square::A7, Square::B8);
    let kinds: Vec<MoveType> = four.iter().map(|m| m.move_type()).collect();
    assert_eq!(
        kinds,
        vec![
            MoveType::Promotion(PieceType::Queen),
            MoveType::Promotion(PieceType::Knight),
            MoveType::Promotion(PieceType::Bishop),
            MoveType::Promotion(PieceType::Rook),
        ]
    );
}

#[test]
fn move_notation() {
    assert_eq!(ChessMove::new(Square::E2, Square::E4, MoveType::Normal).print_move(), "e2e4");
    assert_eq!(
        ChessMove::new(Square::E7, Square::E8, MoveType::Promotion(PieceType::Queen)).print_move(),
        "e7e8q"
    );
    assert_eq!(
        ChessMove::new(Square::A2, Square::B1, MoveType::Promotion(PieceType::Knight)).print_move(),
        "a2b1n"
    );
    assert_eq!(ChessMove::kingside_castle(Side::Black).print_move(), "e8g8");
    assert_eq!(
        ChessMove::new(Square::E5, Square::D6, MoveType::EnPassant).notation_bytes(),
        b"e5d6".to_vec()
    );
}

#[test]
fn moves_are_ordered_by_notation() {
    let a = ChessMove::new(Square::A2, Square::A3, MoveType::Normal);
    let b = ChessMove::new(Square::A2, Square::A4, MoveType::Normal);
    let c = ChessMove::new(Square::E7, Square::E8, MoveType::Promotion(PieceType::Queen));
    let d = ChessMove::new(Square::E7, Square::E8, MoveType::Normal);
    assert_eq!(a.lexi_cmp(&b), Precedence::Less);
    assert_eq!(b.lexi_cmp(&a), Precedence::Greater);
    assert_eq!(a.lexi_cmp(&a), Precedence::Equal);
    assert_eq!(d.lexi_cmp(&c), Precedence::Less);
    assert_eq!(c.lexi_cmp(&d), Precedence::Greater);
    assert_eq!(b.lexi_cmp(&c), Precedence::Less);
}

#[test]
fn move_list_keeps_order_and_capacity() {
    let mut list = MoveList::new();
    assert!(list.is_empty());
    assert_eq!(list.len(), 0);
    let a = ChessMove::new(Square::A2, Square::A3, MoveType::Normal);
    let b = ChessMove::new(Square::B2, Square::B4, MoveType::Normal);
    assert!(list.push(a));
    assert!(list.push(b));
    assert_eq!(list.len(), 2);
    assert_eq!(list.get(0), a);
    assert_eq!(list.get(1), b);
    assert_eq!(list.to_vec(), vec![a, b]);
    for _ in 2..218 {
        assert!(list.push(a));
    }
    assert!(list.is_full());
    assert!(!list.push(b));
    assert_eq!(list.len(), 218);
    assert_eq!(list.get(217), a);
    assert_eq!(list.get(1), b);
}

#[test]
fn added_moves() {
    let mut list = MoveList::new();
    let targets = Bitboard((1 << 16) | (1 << 24) | (1 << 63));
    assert!(ChessMove::add_normal_moves(Square::A2, targets, &mut list));
    let got: Vec<String> = list.to_vec().iter().map(|m| m.print_move()).collect();
    assert_eq!(got, vec!["a2a3", "a2a4", "a2h8"]);
    let mut pawn = MoveList::new();
    let pawn_targets = Bitboard((1 << 56) | (1 << 49));
    assert!(ChessMove::add_pawn_moves(Square::B7, pawn_targets, &mut pawn));
    let got: Vec<String> = pawn.to_vec().iter().map(|m| m.print_move()).collect();
    assert_eq!(got, vec!["b7b7", "b7a8q", "b7a8n", "b7a8b", "b7a8r"]);
    let mut full = MoveList::new();
    for _ in 0..217 {
        assert!(full.push(ChessMove::new(Square::A2, Square::A3, MoveType::Normal)));
    }
    assert!(!ChessMove::add_normal_moves(Square::A2, targets, &mut full));
}

#[test]
fn feature_numbers() {
    let wp = ChessPiece(Side::White, PieceType::Pawn);
    let bk = ChessPiece(Side::Black, PieceType::King);
    assert_eq!(index(wp, Square::A1, Side::White), 0);
    assert_eq!(index(wp, Square::E2, Side::White), 12);
    assert_eq!(index(bk, Square::E8, Side::White), 384 + 5 * 64 + 60);
    assert_eq!(index(bk, Square::E8, Side::Black), 5 * 64 + 4);
    assert_eq!(index(wp, Square::E2, Side::Black), 384 + 52);
    assert_eq!(
        castle_index(Castling::Kingside(Side::White), Side::White),
        [5 * 64 + 4, 5 * 64 + 6, 3 * 64 + 7, 3 * 64 + 5]
    );
    assert_eq!(
        castle_index(Castling::Queenside(Side::Black), Side::Black),
        [5 * 64 + 4, 5 * 64 + 2, 3 * 64, 3 * 64 + 3]
    );
}

#[test]
fn fingerprint_keys_differ() {
    let mut keys = vec![ZobristHash::side_hash().0];
    for c in [
        Castling::Kingside(Side::White),
        Castling::Queenside(Side::White),
        Castling::Kingside(Side::Black),
        Castling::Queenside(Side::Black),
    ] {
        keys.push(ZobristHash::castle_hash(c).0);
    }
    for file in 0..8 {
        keys.push(ZobristHash::enpassant_hash(Bitboard(1 << (16 + file))).0);
    }
    for s in Square::iter() {
        for p in ChessPiece::iter() {
            keys.push(ZobristHash::piece_hash(s, p).0);
        }
    }
    assert_eq!(keys.len(), 1 + 4 + 8 + 768);
    let mut sorted = keys.clone();
    sorted.sort();
    sorted.dedup();
    assert_eq!(sorted.len(), keys.len());
    assert_eq!(ZobristHash::enpassant_hash(Bitboard(0)).0, 0);
    assert_eq!(
        ZobristHash::enpassant_hash(Bitboard(1 << 20)),
        ZobristHash::enpassant_hash(Bitboard(1 << 44))
    );
    assert_eq!(ZobristHash::piece_hash(Square::A1, ChessPiece(Side::White, PieceType::Pawn)).0, 0xe220a8397b1dcdaf);
    assert_eq!(ZobristHash::new(6).bit_xor(ZobristHash::new(3)).to_u64(), 5);
    assert_eq!(ZobristHash::new(6).bit_and(ZobristHash::new(3)).0, 2);
    assert_eq!(ZobristHash::new(6).bit_or(ZobristHash::new(3)).0, 7);
    assert_eq!(ZobristHash::new(6).bit_not().0, !6u64);
}

#[test]
fn fingerprint_history() {
    let mut table = ZobristTable::new(ZobristHash(7));
    table.push(ZobristHash(9));
    table.push(ZobristHash(7));
    assert_eq!(table.count_hash(ZobristHash(7)), 2);
    assert_eq!(table.count_hash(ZobristHash(9)), 1);
    assert_eq!(table.count_hash(ZobristHash(1)), 0);
    table.remove_last(ZobristHash(7));
    assert_eq!(table.count_hash(ZobristHash(7)), 1);
}

#[test]
fn fixed_vector() {
    let mut v: FixedVec<u32, 4> = FixedVec::new(0);
    assert!(v.is_empty());
    assert_eq!(v.pop(), None);
    v.push(5);
    v.push(6);
    assert_eq!(v.len(), 2);
    assert_eq!(v.head(), 5);
    assert_eq!(v.tail(), 6);
    assert_eq!(v.nth(1), 6);
    assert_eq!(v.nth(3), 0);
    assert_eq!(v.pop(), Some(6));
    assert_eq!(v.len(), 2);
    let w = v.append(7).append(8);
    assert!(w.is_full());
    assert_eq!(w.data(), [5, 6, 7, 8]);
    assert_eq!(w.const_clone().data(), [5, 6, 7, 8]);
    let (u, last) = w.unappend();
    assert_eq!(last, Some(8));
    assert_eq!(u.len(), 3);
    assert_eq!(u.data(), [5, 6, 7, 0]);
    let empty: FixedVec<u32, 4> = FixedVec::new(0);
    let (same, nothing) = empty.unappend();
    assert_eq!(nothing, None);
    assert_eq!(same.len(), 0);
}

#[test]
fn material_is_counted() {
    let t = AttackTables::new().expect("tables");
    assert_eq!(material(ChessPiece(Side::White, PieceType::Queen)), 900);
    assert_eq!(material(ChessPiece(Side::Black, PieceType::Knight)), -320);
    assert_eq!(material(ChessPiece(Side::Black, PieceType::King)), -20000);
    let start = ChessGame::start_pos(&t);
    assert_eq!(MaterialEvaluator::total(&start), 0);
    assert_eq!(MaterialEvaluator.eval(&start), 0);
    assert_eq!(StaticEvaluator::total(&start), 0);
    assert_eq!(StaticEvaluator.checked_eval(&start), Some(0));
    let up = ChessGame::from_fen(&t, "4k3/8/8/8/8/8/P7/R3K3 w Q - 0 1");
    assert_eq!(MaterialEvaluator::total(&up), 600);
    assert_eq!(MaterialEvaluator.eval(&up), 600);
    assert_eq!(MaterialEvaluator.checked_eval(&up), Some(600));
    let down = ChessGame::from_fen(&t, "4k3/8/8/8/8/8/P7/R3K3 b Q - 0 1");
    assert_eq!(MaterialEvaluator.eval(&down), -600);
    assert!(StaticEvaluator::is_end_game(&up));
    assert!(!StaticEvaluator::is_end_game(&start));
    assert_eq!(StaticEvaluator::total(&up), 605);
    assert_eq!(StaticEvaluator.eval(&up), 605);
    assert_eq!(StaticEvaluator.eval(&down), -StaticEvaluator.eval(&up));
    let heavy =
        ChessGame::from_fen(&t, "kn6/pp6/QQQQQQQQ/QQQQQQQQ/QQQQQQQQ/QQQQQQQQ/8/4K3 w - - 0 1");
    assert_eq!(MaterialEvaluator::total(&heavy), 32 * 900 - 520);
    assert_eq!(MaterialEvaluator.checked_eval(&heavy), Some(28280));
    let heavier = ChessGame::from_fen(
        &t,
        "kn6/pp6/QQQQQQQQ/QQQQQQQQ/QQQQQQQQ/QQQQQQQQ/QQQQQQQQ/4K3 w - - 0 1",
    );
    assert_eq!(MaterialEvaluator::total(&heavier), 40 * 900 - 520);
    assert_eq!(MaterialEvaluator.checked_eval(&heavier), None);
    assert_eq!(StaticEvaluator.checked_eval(&heavier), None);
}

#[test]
fn remembered_positions() {
    assert_eq!(PositionData::value_type(5, 5, 9), NodeType::Beta);
    assert_eq!(PositionData::value_type(4, 5, 9), NodeType::Beta);
    assert_eq!(PositionData::value_type(9, 5, 9), NodeType::Alpha);
    assert_eq!(PositionData::value_type(10, 5, 9), NodeType::Alpha);
    assert_eq!(PositionData::value_type(7, 5, 9), NodeType::Exact);
    assert_eq!(PositionData::value_type(7, 9, 5), NodeType::Beta);
    let m = ChessMove::new(Square::E2, Square::E4, MoveType::Normal);
    let d = PositionData::new(ZobristHash(77), 3, -12, NodeType::Exact, Some(m));
    assert!(d.is_valid(ZobristHash(77)));
    assert!(!d.is_valid(ZobristHash(78)));
    assert_eq!(d.key().0, 77);
    assert_eq!(d.depth(), 3);
    assert_eq!(d.eval(), -12);
    assert_eq!(d.ty(), NodeType::Exact);
    assert_eq!(d.best(), Some(m));
    assert!(!PositionData::empty().is_valid(ZobristHash(0)));
    let nothing = PositionData::new(ZobristHash(77), 3, 0, NodeType::Empty, None);
    assert!(!nothing.is_valid(ZobristHash(77)));
}

#[test]
fn budgets_of_a_search() {
    assert_eq!(NodeLimit::new(3, 9), NodeLimit { soft_limit: 3, hard_limit: 9 });
    assert_eq!(NodeLimit::checked_new(3, 9), Some(NodeLimit { soft_limit: 3, hard_limit: 9 }));
    assert_eq!(NodeLimit::checked_new(0, 9), None);
    assert_eq!(NodeLimit::checked_new(3, 0), None);
    assert_eq!(SearchLimit::depth(4), SearchLimit::Depth(4));
    assert_eq!(SearchLimit::checked_depth(4), Some(SearchLimit::Depth(4)));
    assert_eq!(SearchLimit::checked_depth(0), None);
    assert_eq!(SearchLimit::node(3, 9), SearchLimit::Nodes(NodeLimit::new(3, 9)));
    let soft = Duration::from_millis(5);
    let hard = Duration::from_millis(50);
    assert_eq!(SearchLimit::time(soft, hard), SearchLimit::Time(TimeLimit::new(soft, hard)));
    assert_eq!(TimeLimit::new(soft, hard).hard_limit, hard);
}
