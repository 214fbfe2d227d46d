use chessbb::chessboard::check::compute_check_state;
use chessbb::{
    AttackTables, Bitboard, Castling, ChessBoard, ChessGame, ChessMove, ChessPiece, FenError,
    GameResult, GameState, MoveType, PieceType, Side, Square, ZobristHash,
};

const START: &str = "rnbqkbnr/pppppppp/8/8/8/8/PPPPPPPP/RNBQKBNR w KQkq - 0 1";
const KIWIPETE: &str = "r3k2r/p1ppqpb1/bn2pnp1/3PN3/1p2P3/2N2Q1p/PPPBBPPP/R3K2R w KQkq - 0 1";

fn tables() -> AttackTables {
    AttackTables::new().expect("the multipliers in use serve every square")
}

fn notations(board: &ChessBoard, t: &AttackTables) -> Vec<String> {
    let mut v: Vec<String> = board
        .generate_moves(t)
        .expect("the moves fit")
        .to_vec()
        .iter()
        .map(|m| m.print_move())
        .collect();
    v.sort();
    v
}

fn find(board: &ChessBoard, t: &AttackTables, text: &str) -> ChessMove {
    let moves = board.generate_moves(t).expect("the moves fit").to_vec();
    *moves.iter().find(|m| m.print_move() == text).expect("the move is legal")
}

fn consistent(board: &ChessBoard, t: &AttackTables) {
    let mut union = 0u64;
    for p in ChessPiece::iter() {
        let bb = board.piece_bitboard(p).0;
        assert_eq!(union & bb, 0);
        union |= bb;
        for s in Square::iter() {
            assert_eq!(bb & (1 << s.as_usize()) != 0, board.square_index(s) == Some(p));
        }
    }
    for s in Square::iter() {
        assert_eq!(board.square_index(s).is_some(), union & (1 << s.as_usize()) != 0);
    }
    let fresh = ZobristHash::compute_hash(
        board.side(),
        &board.mailbox(),
        board.data.castle_bools,
        board.data.enpassant_bb,
    );
    assert_eq!(board.hash(), fresh);
    let c = compute_check_state(t, &board.bitboards, board.side());
    assert_eq!(c.checkers, board.data.check_bb.0);
    assert_eq!(c.mask, board.data.check_mask.0);
    assert_eq!(c.pinned, board.data.pinned_bb.0);
    assert_eq!(c.pinners, board.data.pinner_bb.0);
    assert_eq!(board.data.pinned_bb.count_ones(), board.data.pinner_bb.count_ones());
    assert!(board.data.check_bb.count_ones() <= 2);
    assert!(board.data.enpassant_bb.count_ones() <= 1);
    assert_eq!(board.piece_bitboard(ChessPiece(Side::White, PieceType::King)).count_ones(), 1);
    assert_eq!(board.piece_bitboard(ChessPiece(Side::Black, PieceType::King)).count_ones(), 1);
}

fn walk(board: &ChessBoard, t: &AttackTables, depth: usize) {
    consistent(board, t);
    if depth == 0 {
        return;
    }
    let moves = board.generate_moves(t).expect("the moves fit").to_vec();
    let checkers = board.data.check_bb.count_ones();
    let king = board.king_square(board.side());
    for m in moves {
        if checkers >= 2 {
            assert_eq!(m.source(), king);
        }
        if checkers == 1 && m.source() != king && m.move_type() != MoveType::EnPassant {
            assert!(board.data.check_mask.nth_is_not_zero(m.target()));
        }
        let mut next = *board;
        next.update_state(t, &m);
        walk(&next, t, depth - 1);
    }
}

#[test]
fn start_position() {
    let t = tables();
    let b = ChessBoard::start_pos(&t);
    assert_eq!(b.side(), Side::White);
    assert_eq!(b.square_index(Square::E1), Some(ChessPiece(Side::White, PieceType::King)));
    assert_eq!(b.square_index(Square::D1), Some(ChessPiece(Side::White, PieceType::Queen)));
    assert_eq!(b.square_index(Square::E8), Some(ChessPiece(Side::Black, PieceType::King)));
    assert_eq!(b.square_index(Square::E4), None);
    assert_eq!(b.piece_bitboard(ChessPiece(Side::White, PieceType::Pawn)).0, 0xff00);
    assert_eq!(b.bitboards.blockers().0, 0xffff_0000_0000_ffff);
    assert_eq!(b.bitboards.white_blockers().0, 0xffff);
    assert_eq!(b.bitboards.black_blockers().0, 0xffff_0000_0000_0000);
    assert_eq!(b.bitboards.colour_blockers(Side::Black).0, 0xffff_0000_0000_0000);
    assert_eq!(b.data.castle_bools, [true; 4]);
    assert_eq!(b.data.check_bb.0, 0);
    assert_eq!(b.data.check_mask.0, u64::MAX);
    assert_eq!(b.data.pinned_bb.0, 0);
    assert!(!b.is_fifty_move_rule());
    assert_eq!(b.king_square(Side::White), Square::E1);
    assert_eq!(b.king_square(Side::Black), Square::E8);
    assert_eq!(b.to_fen(), "rnbqkbnr/pppppppp/8/8/8/8/PPPPPPPP/RNBQKBNR w KQkq - 0 0");
    assert_eq!(b.hash(), ChessBoard::from_fen(&t, START).hash());
    assert_eq!(b.perft_count(&t, 3, false), Some(8902));
    consistent(&b, &t);
}

#[test]
fn twenty_moves_from_the_start() {
    let t = tables();
    let b = ChessBoard::from_fen(&t, START);
    let got = notations(&b, &t);
    let mut expected: Vec<String> = Vec::new();
    for file in "abcdefgh".chars() {
        expected.push(format!("{file}2{file}3"));
        expected.push(format!("{file}2{file}4"));
    }
    for m in ["b1a3", "b1c3", "g1f3", "g1h3"] {
        expected.push(m.to_string());
    }
    expected.sort();
    assert_eq!(got, expected);
}

#[test]
fn text_round_trip() {
    let t = tables();
    for fen in [
        START,
        KIWIPETE,
        "8/2p5/3p4/KP5r/1R3p1k/8/4P1P1/8 w - - 0 1",
        "rnbqkbnr/pppp1ppp/8/8/3Pp3/8/PPP1PPPP/RNBQKBNR b KQkq d3 0 3",
        "r3k2r/8/8/8/8/8/8/R3K2R b Kq - 99 65535",
        "4k3/8/8/8/8/8/8/4K2R w K - 12 34",
    ] {
        let b = ChessBoard::from_fen(&t, fen);
        assert_eq!(b.to_fen(), fen);
        assert_eq!(b.to_fen_bytes(), fen.as_bytes().to_vec());
        let again = ChessBoard::parse_fen(&t, &b.to_fen_bytes()).expect("the text is read");
        assert_eq!(again.hash(), b.hash());
        assert_eq!(again.to_fen(), fen);
        for s in Square::iter() {
            assert_eq!(again.square_index(s), b.square_index(s));
        }
    }
}

#[test]
fn text_is_read_leniently_between_fields() {
    let t = tables();
    let b = ChessBoard::parse_fen(&t, b"  4k3/8/8/8/8/8/8/4K3 \t w\n-   -  ").expect("read");
    assert_eq!(b.to_fen(), "4k3/8/8/8/8/8/8/4K3 w - - 0 0");
    let c = ChessBoard::parse_fen(&t, b"4k3/8/8/8/8/8/8/4K3 b - - 7").expect("read");
    assert_eq!(c.to_fen(), "4k3/8/8/8/8/8/8/4K3 b - - 7 0");
    let d = ChessBoard::parse_fen(&t, b"4k3/8/8/8/8/8/8/4K3 b - - 7 9 extra words").expect("read");
    assert_eq!(d.to_fen(), "4k3/8/8/8/8/8/8/4K3 b - - 7 9");
    let e = ChessBoard::parse_fen(&t, b"r3k2r/8/8/8/8/8/8/R3K2R w qK-k - 0 1").expect("read");
    assert_eq!(e.data.castle_bools, [true, false, true, true]);
}

fn refused(text: &str) -> FenError {
    let t = tables();
    match ChessBoard::parse_fen(&t, text.as_bytes()) {
        Ok(_) => panic!("the text was accepted"),
        Err(e) => e,
    }
}

#[test]
fn texts_that_are_refused() {
    assert_eq!(refused(""), FenError::MissingField);
    assert_eq!(refused("   "), FenError::MissingField);
    assert_eq!(refused("4k3/8/8/8/8/8/8/4K3"), FenError::MissingField);
    assert_eq!(refused("4k3/8/8/8/8/8/8/4K3 w"), FenError::MissingField);
    assert_eq!(refused("4k3/8/8/8/8/8/8/4K3 w -"), FenError::MissingField);
    assert_eq!(refused("4k3/8/8/8/8/8/8/4X3 w - - 0 1"), FenError::InvalidPieceChar);
    assert_eq!(refused("4k3/8/8/8/8/8/8/4K30 w - - 0 1"), FenError::InvalidPieceChar);
    assert_eq!(refused("4k3/8/8/8/8/8/8/4K4 w - - 0 1"), FenError::InvalidPlacement);
    assert_eq!(refused("4k3/8/8/8/8/8/4K3 w - - 0 1"), FenError::InvalidPlacement);
    assert_eq!(refused("4k3/8/8/8/8/8/8/8/4K3 w - - 0 1"), FenError::InvalidPlacement);
    assert_eq!(refused("4k3/8/8/8/8/8/8/4K2 w - - 0 1"), FenError::InvalidPlacement);
    assert_eq!(refused("4k3/8/8/8/8/8/8/4KPPPP w - - 0 1"), FenError::InvalidPlacement);
    assert_eq!(refused("4k3/8/8/8/8/8/8/4K3 x - - 0 1"), FenError::InvalidSide);
    assert_eq!(refused("4k3/8/8/8/8/8/8/4K3 white - - 0 1"), FenError::InvalidSide);
    assert_eq!(refused("4k3/8/8/8/8/8/8/4K3 w KX - 0 1"), FenError::InvalidCastling);
    assert_eq!(refused("4k3/8/8/8/8/8/8/4K3 w K - 0 1"), FenError::InvalidCastling);
    assert_eq!(refused("r3k2r/8/8/8/8/8/8/R4K1R w KQkq - 0 1"), FenError::InvalidCastling);
    assert_eq!(refused("4k3/8/8/8/8/8/8/4K3 w - e9 0 1"), FenError::InvalidEnPassant);
    assert_eq!(refused("4k3/8/8/8/8/8/8/4K3 w - e6 0 1"), FenError::InvalidEnPassant);
    assert_eq!(refused("4k3/8/8/4p3/8/8/8/4K3 w - e3 0 1"), FenError::InvalidEnPassant);
    assert_eq!(refused("4k3/8/8/4p3/8/8/8/4K3 b - e6 0 1"), FenError::InvalidEnPassant);
    assert_eq!(refused("4k3/8/8/8/8/8/8/4K3 w - - x 1"), FenError::InvalidCounter);
    assert_eq!(refused("4k3/8/8/8/8/8/8/4K3 w - - 0 65536"), FenError::InvalidCounter);
    assert_eq!(refused("4k3/8/8/8/8/8/8/4K3 w - - 0 -1"), FenError::InvalidCounter);
    assert_eq!(refused("8/8/8/8/8/8/8/4K3 w - - 0 1"), FenError::InvalidKings);
    assert_eq!(refused("4k3/8/8/8/8/8/8/8 w - - 0 1"), FenError::InvalidKings);
    assert_eq!(refused("4k3/8/8/8/8/8/8/3KK3 w - - 0 1"), FenError::InvalidKings);
}

#[test]
fn en_passant_target_after_double_push() {
    let t = tables();
    let mut b = ChessBoard::from_fen(&t, "4k3/8/8/8/3p4/8/4P3/4K3 w - - 0 1");
    let m = find(&b, &t, "e2e4");
    b.update_state(&t, &m);
    assert_eq!(b.data.enpassant_bb.0, 1 << Square::E3.as_usize());
    assert_eq!(b.to_fen(), "4k3/8/8/8/3pP3/8/8/4K3 b - e3 0 1");
    let capture = find(&b, &t, "d4e3");
    assert_eq!(capture.move_type(), MoveType::EnPassant);
    b.update_state(&t, &capture);
    assert_eq!(b.to_fen(), "4k3/8/8/8/8/4p3/8/4K3 w - - 0 2");
    consistent(&b, &t);
    let mut c = ChessBoard::from_fen(&t, "4k3/8/8/8/8/8/4P3/4K3 w - - 0 1");
    let m = find(&c, &t, "e2e4");
    c.update_state(&t, &m);
    assert_eq!(c.data.enpassant_bb.0, 0);
}

#[test]
fn castling_moves_the_rook_and_forfeits_rights() {
    let t = tables();
    let mut b = ChessBoard::from_fen(&t, "r3k2r/8/8/8/8/8/8/R3K2R w KQkq - 0 1");
    assert!(b.is_castling_legal(&t, Castling::Kingside(Side::White)));
    assert!(b.is_castling_legal(&t, Castling::Queenside(Side::White)));
    let m = find(&b, &t, "e1g1");
    assert_eq!(m.move_type(), MoveType::Castle(Castling::Kingside(Side::White)));
    b.update_state(&t, &m);
    assert_eq!(b.to_fen(), "r3k2r/8/8/8/8/8/8/R4RK1 b kq - 1 1");
    let m = find(&b, &t, "a8a1");
    b.update_state(&t, &m);
    assert_eq!(b.to_fen(), "4k2r/8/8/8/8/8/8/r4RK1 w k - 0 2");
    consistent(&b, &t);
    let mut c = ChessBoard::from_fen(&t, "r3k2r/8/8/8/8/8/8/R3K2R b KQkq - 0 1");
    let m = find(&c, &t, "e8c8");
    c.update_state(&t, &m);
    assert_eq!(c.to_fen(), "2kr3r/8/8/8/8/8/8/R3K2R w KQ - 1 2");
    let m = find(&c, &t, "h1h8");
    c.update_state(&t, &m);
    assert_eq!(c.to_fen(), "2kr3R/8/8/8/8/8/8/R3K3 b Q - 0 2");
}

#[test]
fn castling_is_refused_through_attack_or_pieces() {
    let t = tables();
    let through = ChessBoard::from_fen(&t, "4k3/8/8/8/8/8/5r2/R3K2R w KQ - 0 1");
    assert!(!through.is_castling_legal(&t, Castling::Kingside(Side::White)));
    assert!(through.is_castling_legal(&t, Castling::Queenside(Side::White)));
    let blocked = ChessBoard::from_fen(&t, "4k3/8/8/8/8/8/8/RN2K1NR w KQ - 0 1");
    assert!(!blocked.is_castling_legal(&t, Castling::Kingside(Side::White)));
    assert!(!blocked.is_castling_legal(&t, Castling::Queenside(Side::White)));
    let b_file = ChessBoard::from_fen(&t, "4k3/8/8/8/8/8/1r6/R3K2R w KQ - 0 1");
    assert!(b_file.is_castling_legal(&t, Castling::Queenside(Side::White)));
    let no_right = ChessBoard::from_fen(&t, "4k3/8/8/8/8/8/8/R3K2R w Q - 0 1");
    assert!(!no_right.is_castling_legal(&t, Castling::Kingside(Side::White)));
    let in_check = ChessBoard::from_fen(&t, "4k3/8/8/8/8/8/4r3/R3K2R w KQ - 0 1");
    let moves = notations(&in_check, &t);
    assert!(!moves.contains(&"e1g1".to_string()));
    assert!(!moves.contains(&"e1c1".to_string()));
}

#[test]
fn promotion_replaces_the_pawn() {
    let t = tables();
    let mut b = ChessBoard::from_fen(&t, "1r2k3/P7/8/8/8/8/8/4K3 w - - 5 1");
    let moves = notations(&b, &t);
    for m in ["a7a8q", "a7a8n", "a7a8b", "a7a8r", "a7b8q", "a7b8n", "a7b8b", "a7b8r"] {
        assert!(moves.contains(&m.to_string()));
    }
    let m = find(&b, &t, "a7b8n");
    b.update_state(&t, &m);
    assert_eq!(b.to_fen(), "1N2k3/8/8/8/8/8/8/4K3 b - - 0 1");
    consistent(&b, &t);
}

#[test]
fn counters() {
    let t = tables();
    let mut b = ChessBoard::from_fen(&t, "4k3/8/8/8/8/8/8/R3K3 w - - 98 10");
    let m = find(&b, &t, "a1a2");
    b.update_state(&t, &m);
    assert_eq!((b.data.fifty_move_rule_counter, b.data.full_move_counter), (99, 10));
    assert!(!b.is_fifty_move_rule());
    let m = find(&b, &t, "e8d8");
    b.update_state(&t, &m);
    assert_eq!((b.data.fifty_move_rule_counter, b.data.full_move_counter), (100, 11));
    assert!(b.is_fifty_move_rule());
    let mut c = ChessBoard::from_fen(&t, "4k3/8/8/8/8/8/8/R3K3 b - - 65535 65535");
    let m = find(&c, &t, "e8d8");
    c.update_state(&t, &m);
    assert_eq!((c.data.fifty_move_rule_counter, c.data.full_move_counter), (65535, 65535));
}

#[test]
fn checks_and_pins() {
    let t = tables();
    let pinned = ChessBoard::from_fen(&t, "4k3/8/8/8/4r3/8/4N3/4K3 w - - 0 1");
    assert_eq!(pinned.data.check_bb.0, 0);
    assert_eq!(pinned.data.pinned_bb.0, 1 << Square::E2.as_usize());
    assert_eq!(pinned.data.pinner_bb.0, 1 << Square::E4.as_usize());
    assert_eq!(notations(&pinned, &t), vec!["e1d1", "e1d2", "e1f1", "e1f2"]);
    let slide = ChessBoard::from_fen(&t, "4k3/8/8/8/4r3/8/4R3/4K3 w - - 0 1");
    assert_eq!(
        notations(&slide, &t),
        vec!["e1d1", "e1d2", "e1f1", "e1f2", "e2e3", "e2e4"]
    );
    let check = ChessBoard::from_fen(&t, "4k3/8/8/8/4r3/8/3N4/4K3 w - - 0 1");
    assert_eq!(check.data.check_bb.0, 1 << Square::E4.as_usize());
    assert_eq!(
        check.data.check_mask.0,
        (1 << Square::E4.as_usize()) | (1 << Square::E3.as_usize()) | (1 << Square::E2.as_usize())
    );
    assert!(check.is_king_in_check(&t, Side::White));
    assert!(!check.is_king_in_check(&t, Side::Black));
    assert_eq!(notations(&check, &t), vec!["d2e4", "e1d1", "e1f1", "e1f2"]);
    let double = ChessBoard::from_fen(&t, "4k3/8/8/8/4r3/5n2/3N4/4K3 w - - 0 1");
    assert_eq!(double.data.check_bb.count_ones(), 2);
    assert_eq!(double.data.check_mask.0, 0);
    assert_eq!(notations(&double, &t), vec!["e1d1", "e1f1", "e1f2"]);
    let two_blockers = ChessBoard::from_fen(&t, "4k3/8/8/4r3/4p3/8/4N3/4K3 w - - 0 1");
    assert_eq!(two_blockers.data.pinned_bb.0, 0);
    assert_eq!(two_blockers.data.pinner_bb.0, 0);
}

#[test]
fn king_does_not_step_along_the_checking_line() {
    let t = tables();
    let b = ChessBoard::from_fen(&t, "4k3/8/8/8/8/8/8/r3K3 w - - 0 1");
    assert_eq!(notations(&b, &t), vec!["e1d2", "e1e2", "e1f2"]);
}

#[test]
fn en_passant_that_would_open_the_rank_is_left_out() {
    let t = tables();
    let b = ChessBoard::from_fen(&t, "8/8/8/K2Pp2r/8/8/8/4k3 w - e6 0 1");
    let moves = notations(&b, &t);
    assert!(!moves.contains(&"d5e6".to_string()));
    assert!(moves.contains(&"d5d6".to_string()));
    let free = ChessBoard::from_fen(&t, "8/8/8/K2Pp3/8/8/8/4k3 w - e6 0 1");
    assert!(notations(&free, &t).contains(&"d5e6".to_string()));
}

#[test]
fn en_passant_of_a_pinned_pawn() {
    let t = tables();
    let off_line = ChessBoard::from_fen(&t, "b3k3/8/8/3Pp3/8/8/8/7K w - e6 0 1");
    assert_eq!(off_line.data.pinned_bb.0, 1 << Square::D5.as_usize());
    assert!(!notations(&off_line, &t).contains(&"d5e6".to_string()));
    let other = ChessBoard::from_fen(&t, "4k3/b7/8/2Pp4/8/4K3/8/8 w - d6 0 1");
    assert_eq!(other.data.pinned_bb.0, 1 << Square::C5.as_usize());
    assert!(!notations(&other, &t).contains(&"c5d6".to_string()));
    let on_line = ChessBoard::from_fen(&t, "b3k3/8/8/2pP4/8/8/8/7K w - c6 0 1");
    assert_eq!(on_line.data.pinned_bb.0, 1 << Square::D5.as_usize());
    assert!(notations(&on_line, &t).contains(&"d5c6".to_string()));
    assert!(!notations(&on_line, &t).contains(&"d5d6".to_string()));
}

#[test]
fn en_passant_takes_the_checking_pawn() {
    let t = tables();
    let b = ChessBoard::from_fen(&t, "8/8/8/2k5/3Pp3/8/8/4K3 b - d3 0 1");
    assert_eq!(b.data.check_bb.0, 1 << Square::D4.as_usize());
    assert_eq!(b.data.check_mask.0, 1 << Square::D4.as_usize());
    let capture = find(&b, &t, "e4d3");
    assert_eq!(capture.move_type(), MoveType::EnPassant);
    assert!(b.data.check_mask.nth_is_zero(capture.target()));
    let mut next = b;
    next.update_state(&t, &capture);
    assert_eq!(next.to_fen(), "8/8/8/2k5/8/3p4/8/4K3 w - - 0 2");
}

#[test]
fn invariants_hold_along_all_lines_of_play() {
    let t = tables();
    walk(&ChessBoard::from_fen(&t, START), &t, 2);
    walk(&ChessBoard::from_fen(&t, KIWIPETE), &t, 2);
    walk(&ChessBoard::from_fen(&t, "8/2p5/3p4/KP5r/1R3p1k/8/4P1P1/8 w - - 0 1"), &t, 3);
    walk(&ChessBoard::from_fen(&t, "rnbq1k1r/pp1Pbppp/2p5/8/2B5/8/PPP1NnPP/RNBQK2R w KQ - 1 8"), &t, 2);
    walk(&ChessBoard::from_fen(&t, "4k3/8/8/8/4r3/5n2/3N4/4K3 w - - 0 1"), &t, 3);
}

#[test]
fn attacked_squares() {
    let t = tables();
    let b = ChessBoard::from_fen(&t, START);
    let occ = b.bitboards.blockers();
    assert!(b.is_square_attacked(&t, Square::E3, Side::White, occ));
    assert!(b.is_square_attacked(&t, Square::A3, Side::White, occ));
    assert!(!b.is_square_attacked(&t, Square::E4, Side::White, occ));
    assert!(b.is_square_attacked(&t, Square::F6, Side::Black, occ));
    assert!(!b.is_square_attacked(&t, Square::E3, Side::Black, occ));
    for s in Square::iter() {
        for side in [Side::White, Side::Black] {
            assert_eq!(
                b.is_square_attacked(&t, s, side, occ),
                b.is_square_attacked_conditional(&t, s, side, occ)
            );
        }
    }
    let without = Bitboard(occ.0 & !(1 << Square::E2.as_usize()));
    assert!(b.is_square_attacked(&t, Square::E2, Side::White, without));
}

#[test]
fn undo_restores_everything() {
    let t = tables();
    let mut g = ChessGame::from_fen(&t, KIWIPETE);
    let before_fen = g.chessboard.to_fen();
    let before_hash = g.hash();
    let before_boards = g.chessboard.bitboards.0;
    let before_mailbox = g.mailbox().0;
    let moves = g.chessboard.generate_moves(&t).expect("the moves fit").to_vec();
    for m in moves {
        let snapshot = g.explore_state(&t, &m);
        assert_ne!(g.hash(), before_hash);
        assert_eq!(g.zobrist_table.data.len(), 2);
        assert_eq!(snapshot.hash, g.hash());
        g.restore_state(snapshot);
        assert_eq!(g.hash(), before_hash);
        assert_eq!(g.chessboard.to_fen(), before_fen);
        assert_eq!(g.chessboard.bitboards.0, before_boards);
        assert_eq!(g.mailbox().0, before_mailbox);
        assert_eq!(g.zobrist_table.data.len(), 1);
        assert_eq!(g.repetition(), 1);
    }
}

#[test]
fn game_states() {
    let t = tables();
    let start = ChessGame::start_pos(&t);
    let (moves, state) = start.try_generate_moves(&t).expect("the moves fit");
    assert_eq!(moves.len(), 20);
    assert_eq!(state, GameState::Ongoing);
    assert_eq!(start.side(), Side::White);
    assert_eq!(start.king_square(Side::Black), Square::E8);
    assert_eq!(start.square_index(Square::A1), Some(ChessPiece(Side::White, PieceType::Rook)));
    assert_eq!(start.piece_bitboard(ChessPiece(Side::Black, PieceType::Pawn)).0, 0xff << 48);
    let mate = ChessGame::from_fen(&t, "rnb1kbnr/pppp1ppp/8/4p3/6Pq/5P2/PPPPP2P/RNBQKBNR w KQkq - 1 3");
    let (moves, state) = mate.try_generate_moves(&t).expect("the moves fit");
    assert_eq!(moves.len(), 0);
    assert_eq!(state, GameState::Finished(GameResult::Win(Side::Black)));
    let stale = ChessGame::from_fen(&t, "7k/5Q2/6K1/8/8/8/8/8 b - - 0 1");
    let (moves, state) = stale.try_generate_moves(&t).expect("the moves fit");
    assert_eq!(moves.len(), 0);
    assert_eq!(state, GameState::Finished(GameResult::Draw));
    let fifty = ChessGame::from_fen(&t, "4k3/8/8/8/8/8/8/R3K3 w - - 100 80");
    let (moves, state) = fifty.try_generate_moves(&t).expect("the moves fit");
    assert_eq!(moves.len(), 0);
    assert_eq!(state, GameState::Finished(GameResult::Draw));
}

#[test]
fn threefold_repetition_is_a_draw() {
    let t = tables();
    let mut g = ChessGame::from_fen(&t, "4k3/8/8/8/8/8/8/R3K3 w - - 0 1");
    for round in 0..2 {
        for text in ["a1a2", "e8d8", "a2a1", "d8e8"] {
            let (_, state) = g.try_generate_moves(&t).expect("the moves fit");
            assert_eq!(state, GameState::Ongoing);
            let m = find(&g.chessboard, &t, text);
            g.update_state(&t, &m);
        }
        assert_eq!(g.repetition(), round + 2);
    }
    let (moves, state) = g.try_generate_moves(&t).expect("the moves fit");
    assert_eq!(moves.len(), 0);
    assert_eq!(state, GameState::Finished(GameResult::Draw));
}

#[test]
fn picture_of_the_start() {
    let t = tables();
    let b = ChessBoard::from_fen(&t, START);
    assert_eq!(
        b.print_board(),
        "rnbqkbnr\npppppppp\n........\n........\n........\n........\nPPPPPPPP\nRNBQKBNR\n"
    );
}

#[test]
fn timed_count() {
    let t = tables();
    let b = ChessBoard::from_fen(&t, START);
    let (count, _elapsed) = b.perft_count_timed(&t, 2, false);
    assert_eq!(count, Some(400));
}

#[test]
fn more_moves_than_a_list_holds() {
    let t = tables();
    let b = ChessBoard::from_fen(&t, "QQQQQQQQ/Q6Q/Q6Q/Q2k3Q/Q6Q/Q6Q/Q6Q/QQQQQQKQ w - - 0 1");
    assert!(b.generate_moves(&t).is_none());
    assert_eq!(b.perft_count(&t, 1, true), None);
    assert_eq!(b.perft_count(&t, 0, true), Some(1));
}

#[test]
fn en_passant_can_take_the_only_shield_of_a_diagonal() {
    let t = tables();
    let b = ChessBoard::from_fen(&t, "K7/8/8/3pP3/8/8/8/k6b w - d6 0 1");
    assert!(b.data.pinned_bb.nth_is_not_zero(Square::D5));
    assert_eq!(b.data.pinner_bb.0, 1 << Square::H1.as_usize());
    let capture = find(&b, &t, "e5d6");
    let mut next = b;
    next.update_state(&t, &capture);
    assert!(next.is_king_in_check(&t, Side::White));
    let shielded = ChessBoard::from_fen(&t, "K7/8/8/3pP3/8/8/6P1/k6b w - d6 0 1");
    assert_eq!(shielded.data.pinned_bb.0, 0);
    let capture = find(&shielded, &t, "e5d6");
    let mut next = shielded;
    next.update_state(&t, &capture);
    assert!(!next.is_king_in_check(&t, Side::White));
}

#[test]
fn no_generated_move_leaves_the_king_in_check() {
    let t = tables();
    for fen in [
        START,
        KIWIPETE,
        "8/2p5/3p4/KP5r/1R3p1k/8/4P1P1/8 w - - 0 1",
        "r3k2r/Pppp1ppp/1b3nbN/nP6/BBP1P3/q4N2/Pp1P2PP/R2Q1RK1 w kq - 0 1",
        "rnbq1k1r/pp1Pbppp/2p5/8/2B5/8/PPP1NnPP/RNBQK2R w KQ - 1 8",
        "4k3/8/8/8/4r3/5n2/3N4/4K3 w - - 0 1",
        "8/8/8/2k5/3Pp3/8/8/4K3 b - d3 0 1",
    ] {
        let b = ChessBoard::from_fen(&t, fen);
        let side = b.side();
        for m in b.generate_moves(&t).expect("the moves fit").to_vec() {
            let mut next = b;
            next.update_state(&t, &m);
            assert!(!next.is_king_in_check(&t, side), "{fen}: {}", m.print_move());
            for reply in next.generate_moves(&t).expect("the moves fit").to_vec() {
                let mut after = next;
                after.update_state(&t, &reply);
                assert!(!after.is_king_in_check(&t, next.side()));
            }
        }
    }
}

#[test]
fn checkers_are_the_attackers_of_the_king() {
    let t = tables();
    for fen in [
        "4k3/8/8/8/4r3/5n2/3N4/4K3 w - - 0 1",
        "4k3/8/8/8/8/8/3p4/4K3 w - - 0 1",
        "4k3/8/8/8/7b/8/8/4K3 w - - 0 1",
        "4k3/8/8/8/7b/6P1/8/4K3 w - - 0 1",
        "q3k3/8/8/8/8/8/8/q3K2q w - - 0 1",
    ] {
        let b = ChessBoard::from_fen(&t, fen);
        let king = b.king_square(Side::White);
        let occ = b.bitboards.blockers();
        let mut expected = 0u64;
        for s in Square::iter() {
            if let Some(ChessPiece(Side::Black, kind)) = b.square_index(s) {
                let from_king = match kind {
                    PieceType::Pawn => chessbb::attack::get_pawn_attack(&t, Side::White, king),
                    PieceType::Knight => chessbb::attack::get_knight_attack(&t, king),
                    PieceType::Bishop => chessbb::attack::get_bishop_attack(&t, king, occ),
                    PieceType::Rook => chessbb::attack::get_rook_attack(&t, king, occ),
                    PieceType::Queen => chessbb::attack::get_queen_attack(&t, king, occ),
                    PieceType::King => Bitboard(0),
                };
                if from_king.nth_is_not_zero(s) {
                    expected |= 1 << s.as_usize();
                }
            }
        }
        assert_eq!(b.data.check_bb.0, expected, "{fen}");
    }
}

#[test]
fn attacked_mask_holds_the_attacked_squares() {
    let t = tables();
    for fen in [
        START,
        KIWIPETE,
        "8/2p5/3p4/KP5r/1R3p1k/8/4P1P1/8 w - - 0 1",
        "r3k2r/Pppp1ppp/1b3nbN/nP6/BBP1P3/q4N2/Pp1P2PP/R2Q1RK1 b kq - 0 1",
        "4k3/8/8/8/4r3/5n2/3N4/4K3 w - - 0 1",
    ] {
        let b = ChessBoard::from_fen(&t, fen);
        let enemy = b.side().update();
        for blockers in [
            b.bitboards.blockers(),
            b.bitboards.blockers().bit_xor(&Bitboard::nth(b.king_square(b.side()))),
            Bitboard(0),
        ] {
            let mask = b.calculate_attacked_mask(&t, blockers);
            for s in Square::iter() {
                assert_eq!(
                    mask.nth_is_not_zero(s),
                    b.is_square_attacked(&t, s, enemy, blockers),
                    "{fen}: {s:?}"
                );
            }
        }
    }
    let b = ChessBoard::from_fen(&t, "4k3/8/8/8/8/8/8/R3K3 b - - 0 1");
    let mask = b.calculate_attacked_mask(&t, b.bitboards.blockers());
    assert_eq!(mask.0, 0x0101_0101_0101_393e);
}

#[test]
fn pawn_attack_masks() {
    let t = tables();
    let b = ChessBoard::from_fen(&t, START);
    assert_eq!(b.calculate_pawn_attack_mask(Side::White).0, 0x0000_0000_00ff_0000);
    assert_eq!(b.calculate_pawn_attack_mask(Side::Black).0, 0x0000_ff00_0000_0000);
    assert_eq!(b.calculate_attacking_pawns().0, 0);
    let b = ChessBoard::from_fen(&t, "4k3/8/8/p6p/P6P/8/8/4K3 w - - 0 1");
    assert_eq!(
        b.calculate_pawn_attack_mask(Side::White).0,
        (1 << Square::B5.as_usize()) | (1 << Square::G5.as_usize())
    );
    assert_eq!(
        b.calculate_pawn_attack_mask(Side::Black).0,
        (1 << Square::B4.as_usize()) | (1 << Square::G4.as_usize())
    );
    assert_eq!(b.calculate_attacking_pawns().0, 0);
    let b = ChessBoard::from_fen(&t, "4k3/8/8/3pPp2/2P5/8/8/4K3 w - f6 0 1");
    assert_eq!(
        b.calculate_attacking_pawns().0,
        (1 << Square::C4.as_usize()) | (1 << Square::E5.as_usize())
    );
    let b = ChessBoard::from_fen(&t, "4k3/8/8/3p4/2P1P3/8/8/4K3 b - - 0 1");
    assert_eq!(b.calculate_attacking_pawns().0, 1 << Square::D5.as_usize());
}

#[test]
fn features_of_a_position() {
    let t = tables();
    let g = ChessGame::from_fen(&t, "4k3/8/8/8/8/8/P7/R3K3 w Q - 0 1");
    assert_eq!(g.to_sparse_vec_white(), vec![192, 324, 8, 764]);
    assert_eq!(g.to_sparse_vec_black(), vec![632, 764, 432, 324]);
    assert_eq!(g.sparse_features(Side::White), g.to_sparse_vec_white());
    assert_eq!(g.sparse_features(Side::Black), g.to_sparse_vec_black());
    let start = ChessGame::start_pos(&t);
    let white = start.to_sparse_vec_white();
    let black = start.to_sparse_vec_black();
    assert_eq!(white.len(), 32);
    assert_eq!(black.len(), 32);
    let mut expected = Vec::new();
    for s in Square::iter() {
        if let Some(p) = start.square_index(s) {
            expected.push(chessbb::index(p, s, Side::White));
        }
    }
    assert_eq!(white, expected);
    let mut sorted = black.clone();
    sorted.sort();
    let mut mirrored = white.clone();
    mirrored.sort();
    assert_eq!(sorted, mirrored);
}

#[test]
fn features_change_with_the_move() {
    let t = tables();
    for fen in [
        START,
        KIWIPETE,
        "r3k2r/Pppp1ppp/1b3nbN/nP6/BBP1P3/q4N2/Pp1P2PP/R2Q1RK1 w kq - 0 1",
        "8/8/8/2k5/3Pp3/8/8/4K3 b - d3 0 1",
        "4k3/1P6/8/8/8/8/6p1/4K2R b K - 0 1",
    ] {
        let g = ChessGame::from_fen(&t, fen);
        let (moves, _) = g.try_generate_moves(&t).expect("the moves fit");
        for m in moves.to_vec() {
            for side in [Side::White, Side::Black] {
                let d = g.feature_changes(&m, side);
                let mut expected = g.sparse_features(side);
                for f in &d.removed {
                    let at = expected.iter().position(|x| x == f).expect("a feature that leaves");
                    expected.remove(at);
                }
                for f in &d.added {
                    assert!(!expected.contains(f));
                    expected.push(*f);
                }
                expected.sort();
                let mut next = ChessGame::from_fen(&t, fen);
                next.update_state(&t, &m);
                let mut after = next.sparse_features(side);
                after.sort();
                assert_eq!(after, expected, "{fen}: {}", m.print_move());
            }
        }
    }
    let g = ChessGame::from_fen(&t, "8/8/8/2k5/3Pp3/8/8/4K3 b - d3 0 1");
    let capture = ChessMove::new(Square::E4, Square::D3, MoveType::EnPassant);
    let d = g.feature_changes(&capture, Side::White);
    assert_eq!(d.added, vec![384 + 19]);
    assert_eq!(d.removed, vec![384 + 28, 27]);
    let g = ChessGame::from_fen(&t, "4k3/8/8/8/8/8/8/R3K2R w KQ - 0 1");
    let d = g.feature_changes(&ChessMove::queenside_castle(Side::White), Side::White);
    assert_eq!(d.added, vec![5 * 64 + 2, 3 * 64 + 3]);
    assert_eq!(d.removed, vec![5 * 64 + 4, 3 * 64]);
    let g = ChessGame::from_fen(&t, "3rk3/4P3/8/8/8/8/8/4K3 w - - 0 1");
    let promotion =
        ChessMove::new(Square::E7, Square::D8, MoveType::Promotion(PieceType::Knight));
    let d = g.feature_changes(&promotion, Side::Black);
    assert_eq!(d.added, vec![384 + 64 + 3]);
    assert_eq!(d.removed, vec![384 + 12, 3 * 64 + 3]);
}

#[test]
fn moves_that_can_be_made() {
    let t = tables();
    for fen in [START, KIWIPETE, "8/8/8/2k5/3Pp3/8/8/4K3 b - d3 0 1"] {
        let b = ChessBoard::from_fen(&t, fen);
        for m in b.generate_moves(&t).expect("the moves fit").to_vec() {
            assert!(b.can_apply(&m), "{fen}: {}", m.print_move());
        }
    }
    let b = ChessBoard::from_fen(&t, START);
    let normal = |s, t| ChessMove::new(s, t, MoveType::Normal);
    assert!(b.can_apply(&normal(Square::E2, Square::E4)));
    assert!(b.can_apply(&normal(Square::G1, Square::F3)));
    assert!(!b.can_apply(&normal(Square::E3, Square::E4)));
    assert!(!b.can_apply(&normal(Square::E7, Square::E5)));
    assert!(!b.can_apply(&normal(Square::E1, Square::E2)));
    assert!(!b.can_apply(&ChessMove::new(Square::E2, Square::D3, MoveType::EnPassant)));
    assert!(!b.can_apply(&ChessMove::kingside_castle(Side::White)));
    assert!(!b.can_apply(&ChessMove::kingside_castle(Side::Black)));
    assert!(!b.can_apply(&ChessMove::new(
        Square::G1,
        Square::F3,
        MoveType::Promotion(PieceType::Queen)
    )));
    let blocked = ChessBoard::from_fen(&t, "4k3/8/8/8/8/4n3/4P3/4K3 w - - 0 1");
    assert!(!blocked.can_apply(&normal(Square::E2, Square::E4)));
    let far = ChessBoard::from_fen(&t, "4k3/8/8/8/8/4P3/8/4K3 w - - 0 1");
    assert!(!far.can_apply(&normal(Square::E3, Square::E5)));
    let kings = ChessBoard::from_fen(&t, "4k3/4Q3/8/8/8/8/8/4K3 w - - 0 1");
    assert!(!kings.can_apply(&normal(Square::E7, Square::E8)));
    let castle = ChessBoard::from_fen(&t, "4k3/8/8/8/8/8/8/R3K2R w KQ - 0 1");
    assert!(castle.can_apply(&ChessMove::kingside_castle(Side::White)));
    assert!(castle.can_apply(&ChessMove::queenside_castle(Side::White)));
    let ep = ChessBoard::from_fen(&t, "8/8/8/2k5/3Pp3/8/8/4K3 b - d3 0 1");
    assert!(ep.can_apply(&ChessMove::new(Square::E4, Square::D3, MoveType::EnPassant)));
    assert!(!ep.can_apply(&ChessMove::new(Square::E4, Square::F3, MoveType::EnPassant)));
}

#[test]
fn en_passant_target_only_where_a_pawn_can_take() {
    let t = tables();
    let mut g = ChessGame::from_fen(&t, "8/8/8/8/1k3p1R/8/4P3/4K3 w - - 0 1");
    let push = ChessMove::new(Square::E2, Square::E4, MoveType::Normal);
    let expected = ChessBoard::from_fen(&t, "8/8/8/8/1k3p1R/8/4P3/4K3 w - - 0 1")
        .next_enpassant(&t, &push);
    assert_eq!(expected.0, 0);
    g.update_state(&t, &push);
    let same = ChessGame::from_fen(&t, "8/8/8/8/1k2Pp1R/8/8/4K3 b - - 0 1");
    assert_eq!(g.hash(), same.hash());
    assert_eq!(g.side(), Side::Black);
    assert_eq!(g.chessboard.data.enpassant_bb.0, 0);
    assert_eq!(g.chessboard.to_fen(), "8/8/8/8/1k2Pp1R/8/8/4K3 b - - 0 1");

    let mut marked = ChessBoard::from_fen(&t, "8/8/8/8/1k3p1R/8/4P3/4K3 w - - 0 1");
    marked.make_marked(&t, &push);
    assert_eq!(marked.data.enpassant_bb.0, 1 << Square::E3.as_usize());
    assert!(!marked.enpassant_takable(&t));
    assert_ne!(marked.hash(), same.hash());

    let mut free = ChessBoard::from_fen(&t, "8/8/8/8/1k3p2/8/4P3/4K3 w - - 0 1");
    assert_eq!(free.next_enpassant(&t, &push).0, 1 << Square::E3.as_usize());
    free.update_state(&t, &push);
    assert_eq!(free.data.enpassant_bb.0, 1 << Square::E3.as_usize());
    assert!(free.enpassant_takable(&t));
    assert_eq!(free.to_fen(), "8/8/8/8/1k2Pp2/8/8/4K3 b - e3 0 1");
    assert_eq!(free.hash(), ChessBoard::from_fen(&t, "8/8/8/8/1k2Pp2/8/8/4K3 b - e3 0 1").hash());

    let mut alone = ChessBoard::from_fen(&t, "4k3/8/8/8/8/8/4P3/4K3 w - - 0 1");
    alone.update_state(&t, &push);
    assert_eq!(alone.data.enpassant_bb.0, 0);
    assert!(!alone.enpassant_takable(&t));
}

#[test]
fn no_en_passant_target_behind_the_only_shield_of_a_diagonal() {
    let t = tables();
    let mut b = ChessBoard::from_fen(&t, "K7/3p4/8/4P3/8/8/8/k6b b - - 0 1");
    let push = ChessMove::new(Square::D7, Square::D5, MoveType::Normal);
    b.update_state(&t, &push);
    assert_eq!(b.data.enpassant_bb.0, 0);
    assert_eq!(b.to_fen(), "K7/8/8/3pP3/8/8/8/k6b w - - 0 2");
    for m in b.generate_moves(&t).expect("the moves fit").to_vec() {
        assert_ne!(m.move_type(), MoveType::EnPassant);
        let mut next = b;
        next.update_state(&t, &m);
        assert!(!next.is_king_in_check(&t, Side::White));
    }
    let mut shielded = ChessBoard::from_fen(&t, "K7/3p4/8/4P3/8/8/6P1/k6b b - - 0 1");
    shielded.update_state(&t, &push);
    assert_eq!(shielded.data.enpassant_bb.0, 1 << Square::D6.as_usize());
    let mut file = ChessBoard::from_fen(&t, "3r3k/3p4/8/4P3/8/8/8/3K4 b - - 0 1");
    file.update_state(&t, &push);
    assert_eq!(file.data.enpassant_bb.0, 1 << Square::D6.as_usize());
}

#[test]
fn games_start_from_orderly_positions_only() {
    let t = tables();
    let refused = |text: &str| ChessGame::parse_fen(&t, text.as_bytes()).err();
    assert_eq!(refused(START), None);
    assert_eq!(refused(KIWIPETE), None);
    assert_eq!(refused("8/8/8/2k5/3Pp3/8/8/4K3 b - d3 0 1"), None);
    // the kings stand next to each other
    assert_eq!(refused("8/8/8/8/8/8/4k3/4K3 w - - 0 1"), Some(FenError::ImpossiblePosition));
    // the side that has moved is in check
    assert_eq!(refused("4k3/8/8/8/8/8/8/4RK2 w - - 0 1"), Some(FenError::ImpossiblePosition));
    // three pieces give check
    assert_eq!(refused("4k3/4q3/8/8/8/8/8/q3K2q w - - 0 1"), Some(FenError::ImpossiblePosition));
    assert_eq!(refused("q3k3/8/8/8/8/8/8/q3K2q w - - 0 1"), None);
    // the pawn behind the target is the only shield of a diagonal
    assert_eq!(
        refused("K7/8/8/3pP3/8/8/8/k6b w - d6 0 1"),
        Some(FenError::ImpossiblePosition)
    );
    // the target lies between the king and a piece that gives check
    assert_eq!(
        refused("1K6/8/8/2Ppb3/8/8/8/7k w - d6 0 1"),
        Some(FenError::ImpossiblePosition)
    );
    // what the text of a position is refused for comes first
    assert_eq!(refused("8/8/8/8/8/8/8/4K3 w - - 0 1"), Some(FenError::InvalidKings));
    assert_eq!(refused("4k3/8/8/8/8/8/8/4K3 x - - 0 1"), Some(FenError::InvalidSide));

    for (fen, orderly) in [
        (START, true),
        ("8/8/8/8/8/8/4k3/4K3 w - - 0 1", false),
        ("4k3/8/8/8/8/8/8/4RK2 w - - 0 1", false),
        ("4k3/8/8/8/8/8/8/4RK2 b - - 0 1", true),
        ("4k3/4q3/8/8/8/8/8/q3K2q w - - 0 1", false),
        ("q3k3/8/8/8/8/8/8/q3K2q w - - 0 1", true),
        ("q3k3/8/8/8/8/8/8/4K2q w - - 0 1", true),
        ("K7/8/8/3pP3/8/8/8/k6b w - d6 0 1", false),
        ("K7/8/8/3pP3/8/8/8/k6b w - - 0 1", true),
        ("1K6/8/8/2Ppb3/8/8/8/7k w - d6 0 1", false),
        ("3r3k/8/8/3pP3/8/8/8/3K4 w - d6 0 1", true),
    ] {
        let b = ChessBoard::from_fen(&t, fen);
        assert_eq!(b.is_orderly(&t), orderly, "{fen}");
    }
    let shield = ChessBoard::from_fen(&t, "K7/8/8/3pP3/8/8/8/k6b w - d6 0 1");
    assert!(!shield.enpassant_shielded());
    assert!(shield.enpassant_plain(&t));
    assert!(!shield.enpassant_takable(&t));
    let block = ChessBoard::from_fen(&t, "1K6/8/8/2Ppb3/8/8/8/7k w - d6 0 1");
    assert!(block.enpassant_shielded());
    assert!(!block.enpassant_plain(&t));
    let file = ChessBoard::from_fen(&t, "3r3k/8/8/3pP3/8/8/8/3K4 w - d6 0 1");
    assert!(file.enpassant_shielded());
    assert!(file.enpassant_plain(&t));
    assert!(file.enpassant_takable(&t));
}

#[test]
fn games_stay_orderly() {
    let t = tables();
    fn play(g: &mut ChessGame, t: &AttackTables, depth: usize) {
        assert!(g.chessboard.is_orderly(t));
        assert!(g.chessboard.data.check_bb.count_ones() <= 2);
        assert_eq!(
            g.chessboard.data.pinned_bb.count_ones(),
            g.chessboard.data.pinner_bb.count_ones()
        );
        if depth == 0 {
            return;
        }
        let moves = g.chessboard.generate_moves(t).expect("the moves fit").to_vec();
        for m in moves {
            let side = g.side();
            let before = g.chessboard;
            let snapshot = g.explore_state(t, &m);
            assert_eq!(snapshot.bitboards.0, before.bitboards.0);
            assert_eq!(snapshot.mailbox.0, before.mailbox.0);
            assert!(!g.chessboard.is_king_in_check(t, side));
            play(g, t, depth - 1);
            g.restore_state(snapshot);
            assert_eq!(g.hash(), before.hash());
        }
    }
    for fen in [
        START,
        KIWIPETE,
        "8/2p5/3p4/KP5r/1R3p1k/8/4P1P1/8 w - - 0 1",
        "8/8/8/8/1k3p1R/8/4P3/4K3 w - - 0 1",
        "rnbq1k1r/pp1Pbppp/2p5/8/2B5/8/PPP1NnPP/RNBQK2R w KQ - 1 8",
    ] {
        let mut g = ChessGame::from_fen(&t, fen);
        play(&mut g, &t, 2);
    }
}
