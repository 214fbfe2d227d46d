//! Positions: what stands where, whose move it is, and what follows from it.

pub mod attackmask;
pub mod castle_safe;
pub mod check;
pub mod complete;
pub mod checks;
pub mod display;
pub mod ep_listed;
pub mod ep_safe;
pub mod exposed;
pub mod fen;
pub mod fen_laws;
pub mod game;
pub mod laws;
pub mod legality;
pub mod listed;
pub mod mailbox;
pub mod movegen;
pub mod once;
pub mod perft;
pub mod pieceboard;
pub mod pinned;
pub mod pins;
pub mod updatestate;
pub mod position;
pub mod reached;
pub mod ruled;
pub mod rules;
pub mod safety;
pub mod soundness;
pub mod start;
pub mod twofold;
pub mod zobrist;

use vstd::prelude::*;
use crate::attack::init::{
    bishop_attacks, king_attacks, knight_attacks, pawn_attacks, queen_attacks, rook_attacks,
};
use crate::attack::{
    between, get_bishop_attack, get_king_attack, get_knight_attack, get_pawn_attack,
    get_queen_attack, get_rook_attack, rays, AttackTables,
};
use crate::bitboard::Bitboard;
use crate::bits::{
    is_single, lemma_is_single, lemma_lowest, lemma_or_zero, lemma_readd, lemma_xor_assoc, lowest,
    single,
};
use crate::chessboard::check::{agrees, check_state, compute_check_state, lemma_agree, CheckState};
use crate::chessboard::mailbox::OptionMailbox;
use crate::chessboard::pieceboard::PieceBoard;
use crate::chessboard::position::{lemma_occ_member, lemma_occ_update, occ_upto, Position};
use crate::chessboard::zobrist::{
    lemma_pieces_hash_update, pieces_hash, square_key, zobrist_of, ZobristHash,
};
use crate::chessmove::Castling;
use crate::chesspiece::{ChessPiece, FenError, PieceType, Side};
use crate::square::{row_of, Square};

verus! {

/// What a position holds besides the pieces.
#[derive(Debug, Copy, Clone)]
pub struct ChessData {
    /// The castling rights: white king side, white queen side, black king side, black queen side.
    pub castle_bools: [bool; 4],
    /// The en-passant target square, if there is one.
    pub enpassant_bb: Bitboard,
    /// The enemy pieces that give check.
    pub check_bb: Bitboard,
    /// The squares on which a move of a piece other than the king answers the check.
    pub check_mask: Bitboard,
    /// The pieces that stand alone between the king and an enemy slider.
    pub pinned_bb: Bitboard,
    /// The enemy sliders behind such a piece.
    pub pinner_bb: Bitboard,
    pub side_to_move: Side,
    pub full_move_counter: u16,
    pub fifty_move_rule_counter: u16,
    pub zobrist_hash: ZobristHash,
}

/// A position.
#[derive(Debug, Copy, Clone)]
pub struct ChessBoard {
    pub bitboards: PieceBoard,
    pub mailbox: OptionMailbox,
    pub data: ChessData,
}

/// Whether a game goes on.
#[derive(Debug, Copy, Clone, PartialEq, Eq, Structural)]
pub enum GameState {
    Finished(GameResult),
    Ongoing,
}

/// How a game ended.
#[derive(Debug, Copy, Clone, PartialEq, Eq, Structural)]
pub enum GameResult {
    Win(Side),
    Draw,
}

/// The home square of the king of `side`.
pub open spec fn king_home(side: Side) -> int {
    match side {
        Side::White => 4,
        Side::Black => 60,
    }
}

/// The home square of the rook of a castle.
pub open spec fn rook_home(c: Castling) -> int {
    match c {
        Castling::Kingside(Side::White) => 7,
        Castling::Queenside(Side::White) => 0,
        Castling::Kingside(Side::Black) => 63,
        Castling::Queenside(Side::Black) => 56,
    }
}

/// The square on which the rook of a castle lands.
pub open spec fn rook_target(c: Castling) -> int {
    match c {
        Castling::Kingside(Side::White) => 5,
        Castling::Queenside(Side::White) => 3,
        Castling::Kingside(Side::Black) => 61,
        Castling::Queenside(Side::Black) => 59,
    }
}

/// The square on which the king of a castle lands.
pub open spec fn king_target(c: Castling) -> int {
    match c {
        Castling::Kingside(Side::White) => 6,
        Castling::Queenside(Side::White) => 2,
        Castling::Kingside(Side::Black) => 62,
        Castling::Queenside(Side::Black) => 58,
    }
}

/// The square next to the king that it crosses in a castle.
pub open spec fn king_crossing(c: Castling) -> int {
    rook_target(c)
}

/// Whether each side has exactly one king.
pub open spec fn kings_ok(pos: Position) -> bool {
    is_single(pos.pieces(ChessPiece(Side::White, PieceType::King))) && is_single(
        pos.pieces(ChessPiece(Side::Black, PieceType::King)),
    )
}

/// Whether a castling right, if it is held, has king and rook on their home squares.
pub open spec fn right_ok(pos: Position, c: Castling) -> bool {
    pos.castle[c.idx()] ==> pos.board[king_home(c.side())] == Some(
        ChessPiece(c.side(), PieceType::King),
    ) && pos.board[rook_home(c)] == Some(ChessPiece(c.side(), PieceType::Rook))
}

/// Whether every castling right that is held has king and rook on their home squares.
pub open spec fn rights_ok(pos: Position) -> bool {
    right_ok(pos, Castling::Kingside(Side::White)) && right_ok(
        pos,
        Castling::Queenside(Side::White),
    ) && right_ok(pos, Castling::Kingside(Side::Black)) && right_ok(
        pos,
        Castling::Queenside(Side::Black),
    )
}

/// Whether the en-passant target, if there is one, is one empty square behind
/// an enemy pawn that can have just advanced two ranks.
pub open spec fn ep_ok(pos: Position) -> bool {
    pos.ep == 0 || (is_single(pos.ep) && pos.board[lowest(pos.ep)] is None && match pos.side {
        Side::White => row_of(lowest(pos.ep)) == 5 && pos.board[lowest(pos.ep) - 8] == Some(
            ChessPiece(Side::Black, PieceType::Pawn),
        ),
        Side::Black => row_of(lowest(pos.ep)) == 2 && pos.board[lowest(pos.ep) + 8] == Some(
            ChessPiece(Side::White, PieceType::Pawn),
        ),
    })
}

/// Whether the model describes a position that the rules can work on.
pub open spec fn valid(pos: Position) -> bool {
    pos.shaped() && kings_ok(pos) && rights_ok(pos) && ep_ok(pos)
}

/// Why a model is not valid, if it is not: the kings are looked at first, then
/// the castling rights, then the en-passant target.
pub open spec fn validity_error(pos: Position) -> Option<FenError> {
    if !kings_ok(pos) {
        Some(FenError::InvalidKings)
    } else if !rights_ok(pos) {
        Some(FenError::InvalidCastling)
    } else if !ep_ok(pos) {
        Some(FenError::InvalidEnPassant)
    } else {
        None
    }
}

/// Whether `by` attacks square `s` when the squares of `occ` are occupied.
pub open spec fn attacked(pos: Position, s: int, by: Side, occ: u64) -> bool {
    ||| pawn_attacks(by.flip(), s) & pos.pieces(ChessPiece(by, PieceType::Pawn)) != 0
    ||| knight_attacks(s) & pos.pieces(ChessPiece(by, PieceType::Knight)) != 0
    ||| bishop_attacks(s, occ) & pos.pieces(ChessPiece(by, PieceType::Bishop)) != 0
    ||| rook_attacks(s, occ) & pos.pieces(ChessPiece(by, PieceType::Rook)) != 0
    ||| queen_attacks(s, occ) & pos.pieces(ChessPiece(by, PieceType::Queen)) != 0
    ||| king_attacks(s) & pos.pieces(ChessPiece(by, PieceType::King)) != 0
}

/// Whether the side to move may castle: it holds the right, the king's path
/// and the squares between king and rook are empty, and the enemy attacks
/// neither square of the king's path.
pub open spec fn castle_legal(pos: Position, c: Castling) -> bool {
    &&& pos.castle[c.idx()]
    &&& (single(king_crossing(c)) | single(king_target(c))) & pos.occ() == 0
    &&& between(pos.king_idx(c.side()), rook_home(c)) & pos.occ() == 0
    &&& !attacked(pos, king_crossing(c), pos.side.flip(), pos.occ())
    &&& !attacked(pos, king_target(c), pos.side.flip(), pos.occ())
}

/// The model with the given parts.
pub open spec fn position_of(
    board: Seq<Option<ChessPiece>>,
    castle: Seq<bool>,
    ep: u64,
    side: Side,
    halfmove: int,
    fullmove: int,
) -> Position {
    Position { board, castle, ep, side, halfmove, fullmove }
}

impl View for ChessBoard {
    type V = Position;

    open spec fn view(&self) -> Position {
        Position {
            board: self.mailbox@,
            castle: self.data.castle_bools@,
            ep: self.data.enpassant_bb.0,
            side: self.data.side_to_move,
            halfmove: self.data.fifty_move_rule_counter as int,
            fullmove: self.data.full_move_counter as int,
        }
    }
}

/// Puts `x` on `square` in both tables and returns the change of the
/// fingerprint: the key of what stood there combined with the key of `x`.
pub fn place(
    bitboards: &mut PieceBoard,
    mailbox: &mut OptionMailbox,
    x: Option<ChessPiece>,
    square: Square,
) -> (delta: u64)
    requires
        agrees(*old(bitboards), old(mailbox)@),
    ensures
        agrees(*final(bitboards), final(mailbox)@),
        final(mailbox)@ == old(mailbox)@.update(square.idx(), x),
        delta == square_key(square.idx(), old(mailbox)@[square.idx()]) ^ square_key(square.idx(), x),
        pieces_hash(final(mailbox)@, 64) == pieces_hash(old(mailbox)@, 64) ^ delta,
{
    let prev = mailbox.square_index(square);
    let ghost board = mailbox@;
    let ghost s = square.idx();
    let ghost before = *bitboards;
    let a: u64 = match prev {
        Some(p) => {
            bitboards.pop_bit(p, square);
            ZobristHash::piece_hash(square, p).0
        },
        None => 0,
    };
    let ghost middle = *bitboards;
    let b: u64 = match x {
        Some(p) => {
            bitboards.set_bit(p, square);
            ZobristHash::piece_hash(square, p).0
        },
        None => 0,
    };
    mailbox.set(x, square);
    proof {
        square.lemma_idx();
        lemma_pieces_hash_update(board, s, x, 64);
        lemma_xor_assoc(pieces_hash(board, 64), a, b);
        assert forall|j: int| 0 <= j < 12 implies (#[trigger] bitboards.0@[j]).0
            == crate::chessboard::position::occ_of(mailbox@, ChessPiece::of(j)) by {
            let q = ChessPiece::of(j);
            lemma_occ_update(board, s, x, q);
            assert(before.0@[j].0 == crate::chessboard::position::occ_of(board, q));
            if prev is Some {
                prev->0.lemma_idx();
            }
            if x is Some {
                x->0.lemma_idx();
            }
            lemma_readd(before.0@[j].0, single(s));
        }
    }
    a ^ b
}

impl ChessBoard {
    /// The check and pin state that the position records.
    pub open spec fn check(&self) -> CheckState {
        CheckState {
            checkers: self.data.check_bb.0,
            mask: self.data.check_mask.0,
            pinned: self.data.pinned_bb.0,
            pinners: self.data.pinner_bb.0,
        }
    }

    /// Whether everything that the position records agrees with what stands
    /// where: the sets of squares with the pieces on the squares, the
    /// fingerprint with the position, and the check and pin state with what
    /// the position gives.
    pub open spec fn wf(&self) -> bool {
        &&& agrees(self.bitboards, self.mailbox@)
        &&& valid(self@)
        &&& self.data.zobrist_hash.0 == zobrist_of(self@)
        &&& self.check() == check_state(self@)
    }

    /// In a well-formed position the sets of squares are those of the model.
    pub proof fn lemma_wf(&self)
        requires
            self.wf(),
        ensures
            forall|p: ChessPiece| #[trigger] self.bitboards.bb(p) == self@.pieces(p),
            forall|s: Side| #[trigger] self.bitboards.side_occ(s) == self@.side_occ(s),
            self.bitboards.occ() == self@.occ(),
            0 <= self@.king_idx(Side::White) < 64,
            0 <= self@.king_idx(Side::Black) < 64,
            self@.pieces(ChessPiece(Side::White, PieceType::King)) != 0,
            self@.pieces(ChessPiece(Side::Black, PieceType::King)) != 0,
    {
        lemma_agree(self.bitboards, self@);
        lemma_lowest(self@.pieces(ChessPiece(Side::White, PieceType::King)));
        lemma_lowest(self@.pieces(ChessPiece(Side::Black, PieceType::King)));
    }

    /// In a well-formed position a square holds a piece exactly when it is
    /// among the squares of some piece, and then among those of that piece only.
    pub proof fn lemma_mailbox_agrees(&self, s: int, p: ChessPiece)
        requires
            self.wf(),
            0 <= s < 64,
        ensures
            (self.mailbox@[s] is Some) == crate::bits::member(self.bitboards.occ(), s),
            (self.mailbox@[s] == Some(p)) == crate::bits::member(self.bitboards.bb(p), s),
    {
        self.lemma_wf();
        self@.lemma_occ(s);
        lemma_occ_member(self@.board, p, s);
    }

    /// Builds a position from what stands where, the side to move, the
    /// castling rights, the en-passant target and the counters. Everything
    /// else is computed. A model that is not valid is refused.
    pub fn from_parts(
        t: &AttackTables,
        mailbox: OptionMailbox,
        side: Side,
        castle: [bool; 4],
        ep: Bitboard,
        halfmove: u16,
        fullmove: u16,
    ) -> (r: Result<ChessBoard, FenError>)
        requires
            t.wf(),
        ensures
            match r {
                Ok(b) => b.wf() && b@ == position_of(
                    mailbox@,
                    castle@,
                    ep.0,
                    side,
                    halfmove as int,
                    fullmove as int,
                ),
                Err(e) => validity_error(
                    position_of(mailbox@, castle@, ep.0, side, halfmove as int, fullmove as int),
                ) == Some(e),
            },
    {
        let ghost pos = position_of(
            mailbox@,
            castle@,
            ep.0,
            side,
            halfmove as int,
            fullmove as int,
        );
        let mut bitboards = PieceBoard::empty();
        let mut i: usize = 0;
        while i < 64
            invariant
                i <= 64,
                forall|j: int|
                    0 <= j < 12 ==> (#[trigger] bitboards.0@[j]).0 == occ_upto(
                        mailbox@,
                        ChessPiece::of(j),
                        i as int,
                    ),
            decreases 64 - i,
        {
            let ghost before = bitboards;
            match mailbox.index(i) {
                Some(p) => {
                    bitboards.set_bit(p, Square::nth(i));
                    proof {
                        p.lemma_idx();
                    }
                },
                None => {},
            }
            proof {
                assert forall|j: int| 0 <= j < 12 implies (#[trigger] bitboards.0@[j]).0
                    == occ_upto(mailbox@, ChessPiece::of(j), i + 1) by {
                    lemma_or_zero(before.0@[j].0);
                }
            }
            i += 1;
        }
        assert(agrees(bitboards, mailbox@));
        proof {
            lemma_agree(bitboards, pos);
        }
        let wk = bitboards.piece_bitboard(ChessPiece(Side::White, PieceType::King)).0;
        let bk = bitboards.piece_bitboard(ChessPiece(Side::Black, PieceType::King)).0;
        if wk == 0 || wk & (wk - 1) != 0 || bk == 0 || bk & (bk - 1) != 0 {
            return Err(FenError::InvalidKings);
        }
        let wking = Some(ChessPiece(Side::White, PieceType::King));
        let bking = Some(ChessPiece(Side::Black, PieceType::King));
        let wrook = Some(ChessPiece(Side::White, PieceType::Rook));
        let brook = Some(ChessPiece(Side::Black, PieceType::Rook));
        let w_home = same_piece(mailbox.index(4), wking);
        let b_home = same_piece(mailbox.index(60), bking);
        if (castle[0] && !(w_home && same_piece(mailbox.index(7), wrook))) || (castle[1] && !(w_home
            && same_piece(mailbox.index(0), wrook))) || (castle[2] && !(b_home && same_piece(
            mailbox.index(63),
            brook,
        ))) || (castle[3] && !(b_home && same_piece(mailbox.index(56), brook))) {
            return Err(FenError::InvalidCastling);
        }
        if ep.0 != 0 {
            if ep.0 & (ep.0 - 1) != 0 {
                return Err(FenError::InvalidEnPassant);
            }
            proof {
                lemma_lowest(ep.0);
            }
            let e = ep.0.trailing_zeros() as usize;
            let fine = mailbox.index(e).is_none() && match side {
                Side::White => e / 8 == 5 && same_piece(
                    mailbox.index(e - 8),
                    Some(ChessPiece(Side::Black, PieceType::Pawn)),
                ),
                Side::Black => e / 8 == 2 && same_piece(
                    mailbox.index(e + 8),
                    Some(ChessPiece(Side::White, PieceType::Pawn)),
                ),
            };
            if !fine {
                return Err(FenError::InvalidEnPassant);
            }
        }
        let zobrist_hash = ZobristHash::compute_hash(side, &mailbox, castle, ep);
        let c = compute_check_state(t, &bitboards, side);
        let b = ChessBoard {
            bitboards,
            mailbox,
            data: ChessData {
                castle_bools: castle,
                enpassant_bb: ep,
                check_bb: Bitboard(c.checkers),
                check_mask: Bitboard(c.mask),
                pinned_bb: Bitboard(c.pinned),
                pinner_bb: Bitboard(c.pinners),
                side_to_move: side,
                full_move_counter: fullmove,
                fifty_move_rule_counter: halfmove,
                zobrist_hash,
            },
        };
        assert(b@ == pos);
        Ok(b)
    }

    /// The side to move.
    pub fn side(&self) -> (s: Side)
        ensures
            s == self@.side,
    {
        self.data.side_to_move
    }

    /// The fingerprint of the position.
    pub fn hash(&self) -> (h: ZobristHash)
        ensures
            h == self.data.zobrist_hash,
    {
        self.data.zobrist_hash
    }

    /// What stands on each square.
    pub fn mailbox(&self) -> (m: OptionMailbox)
        ensures
            m@ == self@.board,
    {
        self.mailbox
    }

    /// The squares of a piece.
    pub fn piece_bitboard(&self, chess_piece: ChessPiece) -> (b: Bitboard)
        ensures
            b.0 == self.bitboards.bb(chess_piece),
            self.wf() ==> b.0 == self@.pieces(chess_piece),
    {
        proof {
            if self.wf() {
                self.lemma_wf();
            }
        }
        self.bitboards.piece_bitboard(chess_piece)
    }

    /// The piece on a square.
    pub fn square_index(&self, square: Square) -> (p: Option<ChessPiece>)
        ensures
            p == self@.board[square.idx()],
    {
        self.mailbox.square_index(square)
    }

    /// Whether a hundred half moves have passed without a capture or a pawn move.
    pub fn is_fifty_move_rule(&self) -> (r: bool)
        ensures
            r == (self@.halfmove >= 100),
    {
        self.data.fifty_move_rule_counter >= 100
    }

    /// The square of the king of `side`.
    pub fn king_square(&self, side: Side) -> (s: Square)
        requires
            self.wf(),
        ensures
            s.idx() == self@.king_idx(side),
            self@.pieces(ChessPiece(side, PieceType::King)) == single(s.idx()),
    {
        proof {
            self.lemma_wf();
            lemma_is_single(self@.pieces(ChessPiece(side, PieceType::King)));
        }
        match self.bitboards.piece_bitboard(ChessPiece(side, PieceType::King)).lsb_square() {
            Some(s) => s,
            None => vstd::pervasive::unreached(),
        }
    }

    /// Whether `attacker_side` attacks `square` when the squares of `blockers` are occupied.
    pub fn is_square_attacked(
        &self,
        t: &AttackTables,
        square: Square,
        attacker_side: Side,
        blockers: Bitboard,
    ) -> (r: bool)
        requires
            self.wf(),
            t.wf(),
        ensures
            r == attacked(self@, square.idx(), attacker_side, blockers.0),
    {
        proof {
            self.lemma_wf();
        }
        let friendly_side: Side = attacker_side.update();
        let pawn_attack_bb: Bitboard = get_pawn_attack(t, friendly_side, square);
        if (pawn_attack_bb.bit_and(
            &self.bitboards.piece_bitboard(ChessPiece(attacker_side, PieceType::Pawn)),
        )).is_not_zero() {
            return true;
        } else if (get_knight_attack(t, square).bit_and(
            &self.bitboards.piece_bitboard(ChessPiece(attacker_side, PieceType::Knight)),
        )).is_not_zero() {
            return true;
        } else if (get_bishop_attack(t, square, blockers).bit_and(
            &self.bitboards.piece_bitboard(ChessPiece(attacker_side, PieceType::Bishop)),
        )).is_not_zero() {
            return true;
        } else if (get_rook_attack(t, square, blockers).bit_and(
            &self.bitboards.piece_bitboard(ChessPiece(attacker_side, PieceType::Rook)),
        )).is_not_zero() {
            return true;
        } else if (get_queen_attack(t, square, blockers).bit_and(
            &self.bitboards.piece_bitboard(ChessPiece(attacker_side, PieceType::Queen)),
        )).is_not_zero() {
            return true;
        } else if (get_king_attack(t, square).bit_and(
            &self.bitboards.piece_bitboard(ChessPiece(attacker_side, PieceType::King)),
        )).is_not_zero() {
            return true;
        }
        false
    }

    /// Whether `attacker_side` attacks `square` when the squares of `blockers`
    /// are occupied, with the tests in another order.
    pub fn is_square_attacked_conditional(
        &self,
        t: &AttackTables,
        square: Square,
        attacker_side: Side,
        blockers: Bitboard,
    ) -> (r: bool)
        requires
            self.wf(),
            t.wf(),
        ensures
            r == attacked(self@, square.idx(), attacker_side, blockers.0),
    {
        proof {
            self.lemma_wf();
        }
        let pawn_attack_bb: Bitboard = get_pawn_attack(t, attacker_side.update(), square);
        (pawn_attack_bb.bit_and(
            &self.bitboards.piece_bitboard(ChessPiece(attacker_side, PieceType::Pawn)),
        )).is_not_zero() || (get_rook_attack(t, square, blockers).bit_and(
            &self.bitboards.piece_bitboard(ChessPiece(attacker_side, PieceType::Rook)),
        )).is_not_zero() || (get_bishop_attack(t, square, blockers).bit_and(
            &self.bitboards.piece_bitboard(ChessPiece(attacker_side, PieceType::Bishop)),
        )).is_not_zero() || (get_knight_attack(t, square).bit_and(
            &self.bitboards.piece_bitboard(ChessPiece(attacker_side, PieceType::Knight)),
        )).is_not_zero() || (get_queen_attack(t, square, blockers).bit_and(
            &self.bitboards.piece_bitboard(ChessPiece(attacker_side, PieceType::Queen)),
        )).is_not_zero() || (get_king_attack(t, square).bit_and(
            &self.bitboards.piece_bitboard(ChessPiece(attacker_side, PieceType::King)),
        )).is_not_zero()
    }

    /// Whether the enemy attacks the king of `king_side`.
    pub fn is_king_in_check(&self, t: &AttackTables, king_side: Side) -> (r: bool)
        requires
            self.wf(),
            t.wf(),
        ensures
            r == attacked(self@, self@.king_idx(king_side), king_side.flip(), self@.occ()),
    {
        proof {
            self.lemma_wf();
        }
        let square = self.king_square(king_side);
        self.is_square_attacked(t, square, king_side.update(), self.bitboards.blockers())
    }

    /// Whether the side to move may make the given castle.
    #[verifier::rlimit(40)]
    pub fn is_castling_legal(&self, t: &AttackTables, castling: Castling) -> (r: bool)
        requires
            self.wf(),
            t.wf(),
        ensures
            r == castle_legal(self@, castling),
    {
        proof {
            self.lemma_wf();
        }
        let blockers: Bitboard = self.bitboards.blockers();
        let (side, rook_square, crossing, landing) = match castling {
            Castling::Kingside(Side::White) => (Side::White, Square::H1, Square::F1, Square::G1),
            Castling::Queenside(Side::White) => (Side::White, Square::A1, Square::D1, Square::C1),
            Castling::Kingside(Side::Black) => (Side::Black, Square::H8, Square::F8, Square::G8),
            Castling::Queenside(Side::Black) => (Side::Black, Square::A8, Square::D8, Square::C8),
        };
        let king_square = self.king_square(side);
        let castling_mask = Bitboard::nth(crossing).bit_or(&Bitboard::nth(landing));
        if !self.data.castle_bools[castling.to_index()] || blockers.bit_and(
            &castling_mask,
        ).is_not_zero() {
            proof {
                lemma_and_comm(blockers.0, castling_mask.0);
            }
            return false;
        }
        proof {
            lemma_and_comm(blockers.0, castling_mask.0);
            lemma_and_comm(blockers.0, between(king_square.idx(), rook_square.idx()));
        }
        if rays(t, king_square, rook_square).bit_and(&blockers).is_not_zero() {
            return false;
        }
        let enemy = self.side().update();
        if self.is_square_attacked(t, crossing, enemy, blockers) {
            return false;
        }
        if self.is_square_attacked(t, landing, enemy, blockers) {
            return false;
        }
        true
    }
}

/// Whether two optional pieces are the same.
pub fn same_piece(a: Option<ChessPiece>, b: Option<ChessPiece>) -> (r: bool)
    ensures
        r == (a == b),
{
    match (a, b) {
        (Some(x), Some(y)) => x.0 == y.0 && x.1 == y.1,
        (None, None) => true,
        _ => false,
    }
}

/// Intersection does not depend on the order of its operands.
pub proof fn lemma_and_comm(a: u64, b: u64)
    ensures
        a & b == b & a,
{
    assert(a & b == b & a) by (bit_vector);
}

} // verus!
