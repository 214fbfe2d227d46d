//! Two evaluations by counting: the material on the board, and the material
//! together with what each piece is worth on its square.

use vstd::prelude::*;
use crate::bits::popcount;
use crate::chessboard::game::ChessGame;
use crate::chessboard::position::Position;
use crate::chesspiece::{ChessPiece, PieceType, Side};

verus! {

/// What a black pawn is worth on each square, beyond its material.
pub const B_PAWN_PSQT: [i16; 64] = [
    0, 0, 0, 0, 0, 0, 0, 0,
    50, 50, 50, 50, 50, 50, 50, 50,
    10, 10, 20, 30, 30, 20, 10, 10,
    5, 5, 10, 25, 25, 10, 5, 5,
    0, 0, 0, 20, 20, 0, 0, 0,
    5, -5, -10, 0, 0, -10, -5, 5,
    5, 10, 10, -20, -20, 10, 10, 5,
    0, 0, 0, 0, 0, 0, 0, 0,
];

/// What a white pawn is worth on each square, beyond its material.
pub const W_PAWN_PSQT: [i16; 64] = [
    0, 0, 0, 0, 0, 0, 0, 0,
    5, 10, 10, -20, -20, 10, 10, 5,
    5, -5, -10, 0, 0, -10, -5, 5,
    5, 5, 10, 25, 25, 10, 5, 5,
    10, 10, 20, 30, 30, 20, 10, 10,
    0, 0, 0, 20, 20, 0, 0, 0,
    50, 50, 50, 50, 50, 50, 50, 50,
    0, 0, 0, 0, 0, 0, 0, 0,
];

/// What a black knight is worth on each square, beyond its material.
pub const B_KNIGHT_PSQT: [i16; 64] = [
    -50, -40, -30, -30, -30, -30, -40, -50,
    -40, -20, 0, 0, 0, 0, -20, -40,
    -30, 0, 10, 15, 15, 10, 0, -30,
    -30, 5, 15, 20, 20, 15, 5, -30,
    -30, 0, 15, 20, 20, 15, 0, -30,
    -30, 5, 10, 15, 15, 10, 5, -30,
    -40, -20, 0, 5, 5, 0, -20, -40,
    -50, -40, -30, -30, -30, -30, -40, -50,
];

/// What a white knight is worth on each square, beyond its material.
pub const W_KNIGHT_PSQT: [i16; 64] = [
    -50, -40, -30, -30, -30, -30, -40, -50,
    -40, -20, 0, 5, 5, 0, -20, -40,
    -30, 5, 10, 15, 15, 10, 5, -30,
    -30, 0, 15, 20, 20, 15, 0, -30,
    -30, 5, 15, 20, 20, 15, 5, -30,
    -30, 0, 10, 15, 15, 10, 0, -30,
    -40, -20, 0, 0, 0, 0, -20, -40,
    -50, -40, -30, -30, -30, -30, -40, -50,
];

/// What a black bishop is worth on each square, beyond its material.
pub const B_BISHOP_PSQT: [i16; 64] = [
    -20, -10, -10, -10, -10, -10, -10, -20,
    -10, 0, 0, 0, 0, 0, 0, -10,
    -10, 0, 5, 10, 10, 5, 0, -10,
    -10, 5, 5, 10, 10, 5, 5, -10,
    -10, 0, 10, 10, 10, 10, 0, -10,
    -10, 10, 10, 10, 10, 10, 10, -10,
    -10, 5, 0, 0, 0, 0, 5, -10,
    -20, -10, -10, -10, -10, -10, -10, -20,
];

/// What a white bishop is worth on each square, beyond its material.
pub const W_BISHOP_PSQT: [i16; 64] = [
    -20, -10, -10, -10, -10, -10, -10, -20,
    -10, 5, 0, 0, 0, 0, 5, -10,
    -10, 10, 10, 10, 10, 10, 10, -10,
    -10, 0, 10, 10, 10, 10, 0, -10,
    -10, 5, 5, 10, 10, 5, 5, -10,
    -10, 0, 5, 10, 10, 5, 0, -10,
    -10, 0, 0, 0, 0, 0, 0, -10,
    -20, -10, -10, -10, -10, -10, -10, -20,
];

/// What a black rook is worth on each square, beyond its material.
pub const B_ROOK_PSQT: [i16; 64] = [
    0, 0, 0, 0, 0, 0, 0, 0,
    5, 10, 10, 10, 10, 10, 10, 5,
    -5, 0, 0, 0, 0, 0, 0, -5,
    -5, 0, 0, 0, 0, 0, 0, -5,
    -5, 0, 0, 0, 0, 0, 0, -5,
    -5, 0, 0, 0, 0, 0, 0, -5,
    -5, 0, 0, 0, 0, 0, 0, -5,
    0, 0, 0, 5, 5, 0, 0, 0,
];

/// What a white rook is worth on each square, beyond its material.
pub const W_ROOK_PSQT: [i16; 64] = [
    0, 0, 0, 5, 5, 0, 0, 0,
    -5, 0, 0, 0, 0, 0, 0, -5,
    -5, 0, 0, 0, 0, 0, 0, -5,
    -5, 0, 0, 0, 0, 0, 0, -5,
    -5, 0, 0, 0, 0, 0, 0, -5,
    -5, 0, 0, 0, 0, 0, 0, -5,
    5, 10, 10, 10, 10, 10, 10, 5,
    0, 0, 0, 0, 0, 0, 0, 0,
];

/// What a black queen is worth on each square, beyond its material.
pub const B_QUEEN_PSQT: [i16; 64] = [
    -20, -10, -10, -5, -5, -10, -10, -20,
    -10, 0, 0, 0, 0, 0, 0, -10,
    -10, 0, 5, 5, 5, 5, 0, -10,
    -5, 0, 5, 5, 5, 5, 0, -5,
    -5, 0, 5, 5, 5, 5, 0, 0,
    -10, 0, 5, 5, 5, 5, 5, -10,
    -10, 0, 0, 0, 0, 5, 0, -10,
    -20, -10, -10, -5, -5, -10, -10, -20,
];

/// What a white queen is worth on each square, beyond its material.
pub const W_QUEEN_PSQT: [i16; 64] = [
    -20, -10, -10, -5, -5, -10, -10, -20,
    -10, 0, 0, 0, 0, 5, 0, -10,
    -10, 0, 5, 5, 5, 5, 5, -10,
    -5, 0, 5, 5, 5, 5, 0, 0,
    -5, 0, 5, 5, 5, 5, 0, -5,
    -10, 0, 5, 5, 5, 5, 0, -10,
    -10, 0, 0, 0, 0, 0, 0, -10,
    -20, -10, -10, -5, -5, -10, -10, -20,
];

/// What a black king in the middle game is worth on each square, beyond its material.
pub const B_KING_MIDDLE_GAME_PSQT: [i16; 64] = [
    -30, -40, -40, -50, -50, -40, -40, -30,
    -30, -40, -40, -50, -50, -40, -40, -30,
    -30, -40, -40, -50, -50, -40, -40, -30,
    -30, -40, -40, -50, -50, -40, -40, -30,
    -20, -30, -30, -40, -40, -30, -30, -20,
    -10, -20, -20, -20, -20, -20, -20, -10,
    20, 20, 0, 0, 0, 0, 20, 20,
    20, 30, 10, 0, 0, 10, 30, 20,
];

/// What a white king in the middle game is worth on each square, beyond its material.
pub const W_KING_MIDDLE_GAME_PSQT: [i16; 64] = [
    20, 30, 10, 0, 0, 10, 30, 20,
    20, 20, 0, 0, 0, 0, 20, 20,
    -10, -20, -20, -20, -20, -20, -20, -10,
    -20, -30, -30, -40, -40, -30, -30, -20,
    -30, -40, -40, -50, -50, -40, -40, -30,
    -30, -40, -40, -50, -50, -40, -40, -30,
    -30, -40, -40, -50, -50, -40, -40, -30,
    -30, -40, -40, -50, -50, -40, -40, -30,
];

/// What a black king in the end game is worth on each square, beyond its material.
pub const B_KING_END_GAME_PSQT: [i16; 64] = [
    -50, -40, -30, -20, -20, -30, -40, -50,
    -30, -20, -10, 0, 0, -10, -20, -30,
    -30, -10, 20, 30, 30, 20, -10, -30,
    -30, -10, 30, 40, 40, 30, -10, -30,
    -30, -10, 30, 40, 40, 30, -10, -30,
    -30, -10, 20, 30, 30, 20, -10, -30,
    -30, -30, 0, 0, 0, 0, -30, -30,
    -50, -30, -30, -30, -30, -30, -30, -50,
];

/// What a white king in the end game is worth on each square, beyond its material.
pub const W_KING_END_GAME_PSQT: [i16; 64] = [
    -50, -30, -30, -30, -30, -30, -30, -50,
    -30, -30, 0, 0, 0, 0, -30, -30,
    -30, -10, 20, 30, 30, 20, -10, -30,
    -30, -10, 30, 40, 40, 30, -10, -30,
    -30, -10, 30, 40, 40, 30, -10, -30,
    -30, -10, 20, 30, 30, 20, -10, -30,
    -30, -20, -10, 0, 0, -10, -20, -30,
    -50, -40, -30, -20, -20, -30, -40, -50,
];

/// What a piece is worth: positive for white, negative for black.
pub open spec fn material_of(p: ChessPiece) -> int {
    let worth: int = match p.1 {
        PieceType::King => 20000,
        PieceType::Queen => 900,
        PieceType::Knight => 320,
        PieceType::Bishop => 330,
        PieceType::Rook => 500,
        PieceType::Pawn => 100,
    };
    match p.0 {
        Side::White => worth,
        Side::Black => -worth,
    }
}

/// What a piece is worth: positive for white, negative for black.
pub fn material(chesspiece: ChessPiece) -> (r: i16)
    ensures
        r == material_of(chesspiece),
{
    match chesspiece {
        ChessPiece(Side::White, PieceType::King) => 20000,
        ChessPiece(Side::White, PieceType::Queen) => 900,
        ChessPiece(Side::White, PieceType::Knight) => 320,
        ChessPiece(Side::White, PieceType::Bishop) => 330,
        ChessPiece(Side::White, PieceType::Rook) => 500,
        ChessPiece(Side::White, PieceType::Pawn) => 100,
        ChessPiece(Side::Black, PieceType::King) => -20000,
        ChessPiece(Side::Black, PieceType::Queen) => -900,
        ChessPiece(Side::Black, PieceType::Knight) => -320,
        ChessPiece(Side::Black, PieceType::Bishop) => -330,
        ChessPiece(Side::Black, PieceType::Rook) => -500,
        ChessPiece(Side::Black, PieceType::Pawn) => -100,
    }
}

/// The material on the squares below `n`, white's counted up and black's down.
pub open spec fn material_below(board: Seq<Option<ChessPiece>>, n: int) -> int
    decreases n,
{
    if n <= 0 {
        0
    } else {
        material_below(board, n - 1) + match board[n - 1] {
            Some(p) => material_of(p),
            None => 0,
        }
    }
}

/// What `side` makes of a count that is taken from white's point of view.
pub open spec fn seen_by(side: Side, total: int) -> int {
    match side {
        Side::White => total,
        Side::Black => -total,
    }
}

/// Whether a count can be returned from either point of view.
pub open spec fn in_range(total: int) -> bool {
    -32767 <= total <= 32767
}

/// The count as `side` sees it, if it can be returned.
pub fn as_seen(side: Side, total: i32) -> (r: Option<i16>)
    ensures
        r is Some <==> in_range(total as int),
        r matches Some(v) ==> v == seen_by(side, total as int),
{
    if total < -32767 || total > 32767 {
        None
    } else {
        match side {
            Side::White => Some(total as i16),
            Side::Black => Some((-total) as i16),
        }
    }
}

/// The evaluation that counts the material.
#[derive(Debug, Clone, PartialEq, Eq)]
pub struct MaterialEvaluator;

impl MaterialEvaluator {
    /// The material on the board, white's counted up and black's down.
    #[verifier::rlimit(30)]
    pub fn total(cg: &ChessGame) -> (r: i32)
        ensures
            r == material_below(cg.chessboard@.board, 64),
    {
        let mailbox = cg.mailbox();
        let mut total: i32 = 0;
        let mut i: usize = 0;
        while i < 64
            invariant
                i <= 64,
                mailbox@ == cg.chessboard@.board,
                total == material_below(mailbox@, i as int),
                -20000 * i <= total <= 20000 * i,
            decreases 64 - i,
        {
            match mailbox.index(i) {
                Some(p) => {
                    total = total + material(p) as i32;
                },
                None => {},
            }
            i += 1;
        }
        total
    }

    /// The material on the board as the side to move sees it; `None` if the
    /// count does not fit.
    pub fn checked_eval(&self, cg: &ChessGame) -> (r: Option<i16>)
        ensures
            r is Some <==> in_range(material_below(cg.chessboard@.board, 64)),
            r matches Some(v) ==> v == seen_by(
                cg.chessboard@.side,
                material_below(cg.chessboard@.board, 64),
            ),
    {
        as_seen(cg.side(), MaterialEvaluator::total(cg))
    }

    /// The material on the board as the side to move sees it.
    pub fn eval(&self, cg: &ChessGame) -> (r: i16)
        requires
            in_range(material_below(cg.chessboard@.board, 64)),
        ensures
            r == seen_by(cg.chessboard@.side, material_below(cg.chessboard@.board, 64)),
    {
        match self.checked_eval(cg) {
            Some(v) => v,
            None => vstd::pervasive::unreached(),
        }
    }
}

/// Whether both sides are in the end game: each has no queen, or exactly
/// one square that its knights, bishops and rooks share.
pub open spec fn end_game(pos: Position) -> bool {
    (pos.pieces(ChessPiece(Side::White, PieceType::Queen)) == 0 || popcount(
        pos.pieces(ChessPiece(Side::White, PieceType::Knight)) & (pos.pieces(
            ChessPiece(Side::White, PieceType::Bishop),
        ) & pos.pieces(ChessPiece(Side::White, PieceType::Rook))),
    ) == 1) && (pos.pieces(ChessPiece(Side::Black, PieceType::Queen)) == 0 || popcount(
        pos.pieces(ChessPiece(Side::Black, PieceType::Knight)) & (pos.pieces(
            ChessPiece(Side::Black, PieceType::Bishop),
        ) & pos.pieces(ChessPiece(Side::Black, PieceType::Rook))),
    ) == 1)
}

/// What a piece is worth on square `i` beyond its material: positive for
/// white, negative for black. The king has one table for the end game and
/// one for the rest.
pub open spec fn place_of(p: ChessPiece, i: int, ending: bool) -> int {
    match p {
        ChessPiece(Side::White, PieceType::King) => if ending {
            W_KING_END_GAME_PSQT@[i] as int
        } else {
            W_KING_MIDDLE_GAME_PSQT@[i] as int
        },
        ChessPiece(Side::White, PieceType::Queen) => W_QUEEN_PSQT@[i] as int,
        ChessPiece(Side::White, PieceType::Knight) => W_KNIGHT_PSQT@[i] as int,
        ChessPiece(Side::White, PieceType::Bishop) => W_BISHOP_PSQT@[i] as int,
        ChessPiece(Side::White, PieceType::Rook) => W_ROOK_PSQT@[i] as int,
        ChessPiece(Side::White, PieceType::Pawn) => W_PAWN_PSQT@[i] as int,
        ChessPiece(Side::Black, PieceType::King) => if ending {
            -(B_KING_END_GAME_PSQT@[i] as int)
        } else {
            -(B_KING_MIDDLE_GAME_PSQT@[i] as int)
        },
        ChessPiece(Side::Black, PieceType::Queen) => -(B_QUEEN_PSQT@[i] as int),
        ChessPiece(Side::Black, PieceType::Knight) => -(B_KNIGHT_PSQT@[i] as int),
        ChessPiece(Side::Black, PieceType::Bishop) => -(B_BISHOP_PSQT@[i] as int),
        ChessPiece(Side::Black, PieceType::Rook) => -(B_ROOK_PSQT@[i] as int),
        ChessPiece(Side::Black, PieceType::Pawn) => -(B_PAWN_PSQT@[i] as int),
    }
}

/// What a piece is worth on square `i` beyond its material.
pub fn place(p: ChessPiece, i: usize, ending: bool) -> (r: i32)
    requires
        i < 64,
    ensures
        r == place_of(p, i as int, ending),
        -32768 <= r <= 32768,
{
    match p {
        ChessPiece(Side::White, PieceType::King) => if ending {
            W_KING_END_GAME_PSQT[i] as i32
        } else {
            W_KING_MIDDLE_GAME_PSQT[i] as i32
        },
        ChessPiece(Side::White, PieceType::Queen) => W_QUEEN_PSQT[i] as i32,
        ChessPiece(Side::White, PieceType::Knight) => W_KNIGHT_PSQT[i] as i32,
        ChessPiece(Side::White, PieceType::Bishop) => W_BISHOP_PSQT[i] as i32,
        ChessPiece(Side::White, PieceType::Rook) => W_ROOK_PSQT[i] as i32,
        ChessPiece(Side::White, PieceType::Pawn) => W_PAWN_PSQT[i] as i32,
        ChessPiece(Side::Black, PieceType::King) => if ending {
            -(B_KING_END_GAME_PSQT[i] as i32)
        } else {
            -(B_KING_MIDDLE_GAME_PSQT[i] as i32)
        },
        ChessPiece(Side::Black, PieceType::Queen) => -(B_QUEEN_PSQT[i] as i32),
        ChessPiece(Side::Black, PieceType::Knight) => -(B_KNIGHT_PSQT[i] as i32),
        ChessPiece(Side::Black, PieceType::Bishop) => -(B_BISHOP_PSQT[i] as i32),
        ChessPiece(Side::Black, PieceType::Rook) => -(B_ROOK_PSQT[i] as i32),
        ChessPiece(Side::Black, PieceType::Pawn) => -(B_PAWN_PSQT[i] as i32),
    }
}

/// The material and the places of the pieces on the squares below `n`,
/// white's counted up and black's down.
pub open spec fn worth_below(board: Seq<Option<ChessPiece>>, ending: bool, n: int) -> int
    decreases n,
{
    if n <= 0 {
        0
    } else {
        worth_below(board, ending, n - 1) + match board[n - 1] {
            Some(p) => material_of(p) + place_of(p, n - 1, ending),
            None => 0,
        }
    }
}

/// The evaluation that counts the material and the places of the pieces.
#[derive(Debug, Clone, PartialEq, Eq)]
pub struct StaticEvaluator;

impl StaticEvaluator {
    /// Whether both sides are in the end game.
    pub fn is_end_game(cg: &ChessGame) -> (r: bool)
        requires
            cg.chessboard.wf(),
        ensures
            r == end_game(cg.chessboard@),
    {
        let wq = cg.piece_bitboard(ChessPiece(Side::White, PieceType::Queen));
        let wn = cg.piece_bitboard(ChessPiece(Side::White, PieceType::Knight));
        let wb = cg.piece_bitboard(ChessPiece(Side::White, PieceType::Bishop));
        let wr = cg.piece_bitboard(ChessPiece(Side::White, PieceType::Rook));
        let bq = cg.piece_bitboard(ChessPiece(Side::Black, PieceType::Queen));
        let bn = cg.piece_bitboard(ChessPiece(Side::Black, PieceType::Knight));
        let bb = cg.piece_bitboard(ChessPiece(Side::Black, PieceType::Bishop));
        let br = cg.piece_bitboard(ChessPiece(Side::Black, PieceType::Rook));
        let white = wq.is_zero() || wn.bit_and(&wb.bit_and(&wr)).count_ones() == 1;
        let black = bq.is_zero() || bn.bit_and(&bb.bit_and(&br)).count_ones() == 1;
        white && black
    }

    /// The material and the places of the pieces, white's counted up and
    /// black's down.
    #[verifier::rlimit(30)]
    pub fn total(cg: &ChessGame) -> (r: i32)
        requires
            cg.chessboard.wf(),
        ensures
            r == worth_below(cg.chessboard@.board, end_game(cg.chessboard@), 64),
    {
        let ending = StaticEvaluator::is_end_game(cg);
        let mailbox = cg.mailbox();
        let mut total: i32 = 0;
        let mut i: usize = 0;
        while i < 64
            invariant
                i <= 64,
                mailbox@ == cg.chessboard@.board,
                total == worth_below(mailbox@, ending, i as int),
                -60000 * i <= total <= 60000 * i,
            decreases 64 - i,
        {
            match mailbox.index(i) {
                Some(p) => {
                    total = total + material(p) as i32 + place(p, i, ending);
                },
                None => {},
            }
            i += 1;
        }
        total
    }

    /// The material and the places of the pieces as the side to move sees
    /// them; `None` if the count does not fit.
    pub fn checked_eval(&self, cg: &ChessGame) -> (r: Option<i16>)
        requires
            cg.chessboard.wf(),
        ensures
            r is Some <==> in_range(
                worth_below(cg.chessboard@.board, end_game(cg.chessboard@), 64),
            ),
            r matches Some(v) ==> v == seen_by(
                cg.chessboard@.side,
                worth_below(cg.chessboard@.board, end_game(cg.chessboard@), 64),
            ),
    {
        as_seen(cg.side(), StaticEvaluator::total(cg))
    }

    /// The material and the places of the pieces as the side to move sees them.
    pub fn eval(&self, cg: &ChessGame) -> (r: i16)
        requires
            cg.chessboard.wf(),
            in_range(worth_below(cg.chessboard@.board, end_game(cg.chessboard@), 64)),
        ensures
            r == seen_by(
                cg.chessboard@.side,
                worth_below(cg.chessboard@.board, end_game(cg.chessboard@), 64),
            ),
    {
        match self.checked_eval(cg) {
            Some(v) => v,
            None => vstd::pervasive::unreached(),
        }
    }
}

} // verus!
