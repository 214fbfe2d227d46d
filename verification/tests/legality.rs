use chessbb::attack::init::{naive_bishop_attack, naive_rook_attack};
use chessbb::{
    AttackTables, Bitboard, Castling, ChessBoard, ChessMove, ChessPiece, MoveType, PieceType, Side,
    Square,
};

fn attack_tables() -> AttackTables {
    AttackTables::new().expect("the multipliers in use serve every square")
}

fn square(row: i32, col: i32) -> Option<Square> {
    if (0..8).contains(&row) && (0..8).contains(&col) {
        Some(Square::nth((row * 8 + col) as usize))
    } else {
        None
    }
}

fn steps(from: Square, deltas: &[(i32, i32)]) -> Vec<Square> {
    let row = from.as_row_usize() as i32;
    let col = from.as_col_usize() as i32;
    deltas.iter().filter_map(|(dr, dc)| square(row + dr, col + dc)).collect()
}

fn squares_of(b: Bitboard) -> Vec<Square> {
    Square::iter().into_iter().filter(|s| b.nth_is_not_zero(*s)).collect()
}

/// The moves that follow the rules, the king's safety left aside, found
/// square by square.
fn moves_by_the_rules(b: &ChessBoard, t: &AttackTables) -> Vec<ChessMove> {
    let side = b.side();
    let occ = b.bitboards.blockers();
    let forward: i32 = if side == Side::White { 1 } else { -1 };
    let mut found = Vec::new();
    for s in Square::iter() {
        let Some(ChessPiece(owner, kind)) = b.square_index(s) else { continue };
        if owner != side {
            continue;
        }
        let free = |target: &Square| match b.square_index(*target) {
            Some(ChessPiece(o, k)) => o != side && k != PieceType::King,
            None => true,
        };
        let row = s.as_row_usize() as i32;
        let col = s.as_col_usize() as i32;
        match kind {
            PieceType::Pawn => {
                let mut targets = Vec::new();
                if let Some(one) = square(row + forward, col) {
                    if b.square_index(one).is_none() {
                        targets.push(one);
                        let home = if side == Side::White { 1 } else { 6 };
                        if row == home {
                            let two = square(row + 2 * forward, col).unwrap();
                            if b.square_index(two).is_none() {
                                targets.push(two);
                            }
                        }
                    }
                }
                for target in steps(s, &[(forward, -1), (forward, 1)]) {
                    if b.square_index(target).is_some() && free(&target) {
                        targets.push(target);
                    }
                    if b.data.enpassant_bb.nth_is_not_zero(target) {
                        found.push(ChessMove::new(s, target, MoveType::EnPassant));
                    }
                }
                for target in targets {
                    if target.as_row_usize() == 0 || target.as_row_usize() == 7 {
                        for p in
                            [PieceType::Queen, PieceType::Knight, PieceType::Bishop, PieceType::Rook]
                        {
                            found.push(ChessMove::new(s, target, MoveType::Promotion(p)));
                        }
                    } else {
                        found.push(ChessMove::new(s, target, MoveType::Normal));
                    }
                }
            }
            PieceType::Knight => {
                let jumps =
                    [(2, 1), (2, -1), (1, 2), (1, -2), (-1, 2), (-1, -2), (-2, 1), (-2, -1)];
                for target in steps(s, &jumps).iter().filter(|x| free(x)) {
                    found.push(ChessMove::new(s, *target, MoveType::Normal));
                }
            }
            PieceType::King => {
                let around = [(1, 0), (-1, 0), (0, 1), (0, -1), (1, 1), (1, -1), (-1, 1), (-1, -1)];
                for target in steps(s, &around).iter().filter(|x| free(x)) {
                    found.push(ChessMove::new(s, *target, MoveType::Normal));
                }
                if !b.is_king_in_check(t, side) {
                    if b.is_castling_legal(t, Castling::Kingside(side)) {
                        found.push(ChessMove::kingside_castle(side));
                    }
                    if b.is_castling_legal(t, Castling::Queenside(side)) {
                        found.push(ChessMove::queenside_castle(side));
                    }
                }
            }
            _ => {
                let diagonal = naive_bishop_attack(s.as_usize(), occ);
                let straight = naive_rook_attack(s.as_usize(), occ);
                let reach = match kind {
                    PieceType::Bishop => diagonal,
                    PieceType::Rook => straight,
                    _ => diagonal.bit_or(&straight),
                };
                for target in squares_of(reach).iter().filter(|x| free(x)) {
                    found.push(ChessMove::new(s, *target, MoveType::Normal));
                }
            }
        }
    }
    found
}

/// The moves that follow the rules and do not leave the mover's king attacked.
fn moves_that_are_legal(b: &ChessBoard, t: &AttackTables) -> Vec<u16> {
    let mut legal: Vec<u16> = moves_by_the_rules(b, t)
        .into_iter()
        .filter(|m| {
            let mut next = *b;
            next.update_state(t, m);
            !next.is_king_in_check(t, b.side())
        })
        .map(|m| m.data())
        .collect();
    legal.sort();
    legal
}

fn moves_that_are_generated(b: &ChessBoard, t: &AttackTables) -> Vec<u16> {
    let mut generated: Vec<u16> =
        b.generate_moves(t).expect("the moves fit").to_vec().iter().map(|m| m.data()).collect();
    generated.sort();
    generated
}

fn compare(b: &ChessBoard, t: &AttackTables, depth: usize) {
    assert_eq!(moves_that_are_generated(b, t), moves_that_are_legal(b, t), "{}", b.to_fen());
    if depth > 0 {
        for m in b.generate_moves(t).expect("the moves fit").to_vec() {
            let mut next = *b;
            next.update_state(t, &m);
            compare(&next, t, depth - 1);
        }
    }
}

#[test]
fn generated_moves_are_the_legal_moves() {
    let t = attack_tables();
    for fen in [
        "rnbqkbnr/pppppppp/8/8/8/8/PPPPPPPP/RNBQKBNR w KQkq - 0 1",
        "r3k2r/p1ppqpb1/bn2pnp1/3PN3/1p2P3/2N2Q1p/PPPBBPPP/R3K2R w KQkq - 0 1",
        "8/2p5/3p4/KP5r/1R3p1k/8/4P1P1/8 w - - 0 1",
        "r3k2r/Pppp1ppp/1b3nbN/nP6/BBP1P3/q4N2/Pp1P2PP/R2Q1RK1 w kq - 0 1",
        "rnbq1k1r/pp1Pbppp/2p5/8/2B5/8/PPP1NnPP/RNBQK2R w KQ - 1 8",
        "r4rk1/1pp1qppp/p1np1n2/2b1p1B1/2B1P1b1/P1NP1N2/1PP1QPPP/R4RK1 w - - 0 10",
    ] {
        compare(&ChessBoard::from_fen(&t, fen), &t, 2);
    }
}

#[test]
fn generated_moves_are_the_legal_moves_under_check_and_pin() {
    let t = attack_tables();
    for fen in [
        "4k3/8/8/8/4r3/5n2/3N4/4K3 w - - 0 1",
        "4k3/8/8/8/7b/6P1/8/4K3 w - - 0 1",
        "q3k3/8/8/8/8/8/8/q3K2q w - - 0 1",
        "4k3/8/8/b7/8/2N5/8/4K3 w - - 0 1",
        "4k3/4r3/8/8/8/8/4R3/4K3 w - - 0 1",
        "4k3/8/8/8/1b6/8/3P4/4K3 w - - 0 1",
        "4k3/8/8/8/8/8/3p4/R3K2R w KQ - 0 1",
        "r3k2r/8/8/8/8/8/8/R3K1R1 b kq - 0 1",
        "8/8/8/2k5/3Pp3/8/8/4K3 b - d3 0 1",
        "b3k3/8/8/3Pp3/8/8/8/7K w - e6 0 1",
        "b3k3/8/8/2pP4/8/8/8/7K w - c6 0 1",
        "8/8/8/K2pP2r/8/8/8/4k3 w - d6 0 1",
        "4k3/8/8/8/3pP3/8/8/3K3q b - e3 0 1",
        "3k4/8/8/3pP3/8/8/8/3RK3 b - - 0 1",
        "3r3k/8/8/3pP3/8/8/8/3K4 w - d6 0 1",
        "3r3k/8/8/2Pp4/8/8/8/3K4 w - d6 0 1",
        "7k/8/8/r2pP2K/8/8/8/8 w - d6 0 1",
    ] {
        compare(&ChessBoard::from_fen(&t, fen), &t, 1);
    }
}

#[test]
fn en_passant_that_would_stop_a_check_is_left_out() {
    let t = attack_tables();
    let b = ChessBoard::from_fen(&t, "1K6/8/8/2Ppb3/8/8/8/7k w - d6 0 1");
    assert_eq!(b.data.check_bb.0, 1 << Square::E5.as_usize());
    assert!(b.data.check_mask.nth_is_not_zero(Square::D6));
    let capture = ChessMove::new(Square::C5, Square::D6, MoveType::EnPassant);
    assert!(moves_that_are_legal(&b, &t).contains(&capture.data()));
    assert!(!moves_that_are_generated(&b, &t).contains(&capture.data()));
    let mut others = moves_that_are_legal(&b, &t);
    others.retain(|m| *m != capture.data());
    assert_eq!(moves_that_are_generated(&b, &t), others);
}

#[test]
fn en_passant_that_takes_the_only_shield_is_generated() {
    let t = attack_tables();
    let b = ChessBoard::from_fen(&t, "K7/8/8/3pP3/8/8/8/k6b w - d6 0 1");
    let capture = ChessMove::new(Square::E5, Square::D6, MoveType::EnPassant);
    assert!(!moves_that_are_legal(&b, &t).contains(&capture.data()));
    assert!(moves_that_are_generated(&b, &t).contains(&capture.data()));
    let mut others = moves_that_are_generated(&b, &t);
    others.retain(|m| *m != capture.data());
    assert_eq!(others, moves_that_are_legal(&b, &t));
}

#[test]
fn en_passant_takes_a_shield_of_a_file() {
    let t = attack_tables();
    let b = ChessBoard::from_fen(&t, "3r3k/8/8/3pP3/8/8/8/3K4 w - d6 0 1");
    assert!(b.data.pinned_bb.nth_is_not_zero(Square::D5));
    let capture = ChessMove::new(Square::E5, Square::D6, MoveType::EnPassant);
    assert!(moves_that_are_generated(&b, &t).contains(&capture.data()));
    assert!(moves_that_are_legal(&b, &t).contains(&capture.data()));
}
