use chessbb::{AttackTables, ChessBoard};

fn count(fen: &str, depth: usize, bulk: bool) -> u64 {
    let tables = AttackTables::new().expect("the multipliers in use serve every square");
    let board = ChessBoard::from_fen(&tables, fen);
    board.perft_count(&tables, depth, bulk).expect("the count can be computed")
}

const START: &str = "rnbqkbnr/pppppppp/8/8/8/8/PPPPPPPP/RNBQKBNR w KQkq - 0 1";
const KIWIPETE: &str = "r3k2r/p1ppqpb1/bn2pnp1/3PN3/1p2P3/2N2Q1p/PPPBBPPP/R3K2R w KQkq - 0 1";
const ENDGAME: &str = "8/2p5/3p4/KP5r/1R3p1k/8/4P1P1/8 w - - 0 1";
const PROMOTIONS: &str = "r3k2r/Pppp1ppp/1b3nbN/nP6/BBP1P3/q4N2/Pp1P2PP/R2Q1RK1 w kq - 0 1";
const TRICKY: &str = "rnbq1k1r/pp1Pbppp/2p5/8/2B5/8/PPP1NnPP/RNBQK2R w KQ - 1 8";
const MIDDLE: &str = "r4rk1/1pp1qppp/p1np1n2/2b1p1B1/2B1P1b1/P1NP1N2/1PP1QPPP/R4RK1 w - - 0 10";

#[test]
fn perft_start_depth_0() {
    assert_eq!(count(START, 0, false), 1);
}

#[test]
fn perft_start_depth_1() {
    assert_eq!(count(START, 1, false), 20);
}

#[test]
fn perft_start_depth_2() {
    assert_eq!(count(START, 2, false), 400);
}

#[test]
fn perft_start_depth_3() {
    assert_eq!(count(START, 3, false), 8902);
}

#[test]
fn perft_start_depth_4() {
    assert_eq!(count(START, 4, true), 197281);
}

#[test]
fn perft_kiwipete() {
    assert_eq!(count(KIWIPETE, 1, false), 48);
    assert_eq!(count(KIWIPETE, 2, false), 2039);
    assert_eq!(count(KIWIPETE, 3, true), 97862);
}

#[test]
fn perft_endgame_with_pins_through_en_passant() {
    assert_eq!(count(ENDGAME, 1, false), 14);
    assert_eq!(count(ENDGAME, 2, false), 191);
    assert_eq!(count(ENDGAME, 3, false), 2812);
    assert_eq!(count(ENDGAME, 4, true), 43238);
}

#[test]
fn perft_promotions() {
    assert_eq!(count(PROMOTIONS, 1, false), 6);
    assert_eq!(count(PROMOTIONS, 2, false), 264);
    assert_eq!(count(PROMOTIONS, 3, true), 9467);
}

#[test]
fn perft_castling_edge_cases() {
    assert_eq!(count(TRICKY, 1, false), 44);
    assert_eq!(count(TRICKY, 2, false), 1486);
    assert_eq!(count(TRICKY, 3, true), 62379);
}

#[test]
fn perft_middle_game() {
    assert_eq!(count(MIDDLE, 1, false), 46);
    assert_eq!(count(MIDDLE, 2, false), 2079);
    assert_eq!(count(MIDDLE, 3, true), 89890);
}

#[test]
fn bulk_counting_equals_full_counting() {
    for depth in 0..4 {
        assert_eq!(count(START, depth, true), count(START, depth, false));
        assert_eq!(count(KIWIPETE, depth.min(2), true), count(KIWIPETE, depth.min(2), false));
    }
}
