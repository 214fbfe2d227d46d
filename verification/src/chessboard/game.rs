//! A game: a position together with the fingerprints of the positions that led to it.

use vstd::prelude::*;
use vstd::string::*;
use crate::attack::AttackTables;
use crate::bitboard::Bitboard;
use crate::chessboard::complete::lemma_legal_moves_exact;
use crate::chessboard::fen::{fen_error, fen_position};
use crate::chessboard::laws::lemma_legal_good;
use crate::chessboard::mailbox::OptionMailbox;
use crate::chessboard::movegen::legal_moves;
use crate::chessboard::pieceboard::PieceBoard;
use crate::chessboard::pins::lemma_board_pin_counts;
use crate::chessboard::position::Position;
use crate::chessboard::rules::legal;
use crate::chessboard::reached::{lemma_orderly_kept, orderly};
use crate::chessboard::updatestate::{applicable, apply};
use crate::chessboard::zobrist::{occurrences, ZobristHash, ZobristTable};
use crate::chessboard::{attacked, ChessBoard, ChessData, GameResult, GameState};
use crate::chessmove::{ChessMove, MoveList, SIZE};
use crate::chesspiece::{ChessPiece, FenError, Side};
use crate::square::Square;

verus! {

/// A position and the fingerprints of all positions of the game so far, its own last.
pub struct ChessGame {
    pub chessboard: ChessBoard,
    pub zobrist_table: ZobristTable,
}

/// What is needed to take a move back: the position before the move and the
/// fingerprint of the position after it.
pub struct ChessBoardSnapshot {
    pub bitboards: PieceBoard,
    pub mailbox: OptionMailbox,
    pub data: ChessData,
    pub hash: ZobristHash,
}

/// The state of a game whose position is `pos`, has occurred `repetition`
/// times and has the legal moves `moves`: drawn after three occurrences or a
/// hundred half moves without capture or pawn move; going on while there is a
/// legal move; else won by the enemy if the king is attacked, and drawn if not.
pub open spec fn game_state(pos: Position, repetition: nat, moves: Seq<ChessMove>) -> GameState {
    if repetition >= 3 || pos.halfmove >= 100 {
        GameState::Finished(GameResult::Draw)
    } else if moves.len() != 0 {
        GameState::Ongoing
    } else if attacked(pos, pos.king_idx(pos.side), pos.side.flip(), pos.occ()) {
        GameState::Finished(GameResult::Win(pos.side.flip()))
    } else {
        GameState::Finished(GameResult::Draw)
    }
}

/// The moves to go on with: none once the game is drawn by repetition or by
/// the hundred half moves.
pub open spec fn moves_to_play(pos: Position, repetition: nat) -> Seq<ChessMove> {
    if repetition >= 3 || pos.halfmove >= 100 {
        Seq::empty()
    } else {
        legal_moves(pos)
    }
}

/// Why the text of a game's position is refused, if it is: for the reason
/// for which the text of a position is refused, or because the position is
/// not orderly.
pub open spec fn game_fen_error(input: Seq<u8>) -> Option<FenError> {
    match fen_error(input) {
        Some(e) => Some(e),
        None => if orderly(fen_position(input)->Ok_0) {
            None
        } else {
            Some(FenError::ImpossiblePosition)
        },
    }
}

impl ChessBoardSnapshot {
    /// The position that the snapshot holds.
    pub open spec fn board(&self) -> ChessBoard {
        ChessBoard { bitboards: self.bitboards, mailbox: self.mailbox, data: self.data }
    }
}

impl ChessGame {
    /// Whether the position is well formed and orderly, and its fingerprint
    /// is the last of the history.
    pub open spec fn wf(&self) -> bool {
        &&& self.chessboard.wf()
        &&& orderly(self.chessboard@)
        &&& self.zobrist_table@.len() > 0
        &&& self.zobrist_table@.last() == self.chessboard.data.zobrist_hash
    }

    /// How often the position has occurred in the game.
    pub open spec fn times_seen(&self) -> nat {
        occurrences(self.zobrist_table@, self.chessboard.data.zobrist_hash)
    }

    /// A game that starts at the position that the text describes. The text
    /// is refused like that of a position, and also if the position is not
    /// orderly.
    pub fn parse_fen(t: &AttackTables, input: &[u8]) -> (r: Result<ChessGame, FenError>)
        requires
            t.wf(),
        ensures
            match r {
                Ok(g) => g.wf() && fen_position(input@) == Ok::<Position, FenError>(g.chessboard@)
                    && g.zobrist_table@.len() == 1 && game_fen_error(input@) is None,
                Err(e) => game_fen_error(input@) == Some(e),
            },
    {
        match ChessBoard::parse_fen(t, input) {
            Ok(chessboard) => {
                if !chessboard.is_orderly(t) {
                    return Err(FenError::ImpossiblePosition);
                }
                let zobrist_table = ZobristTable::new(chessboard.hash());
                Ok(ChessGame { chessboard, zobrist_table })
            },
            Err(e) => Err(e),
        }
    }

    /// A game that starts at the position that the text describes, which
    /// must be valid and orderly.
    pub fn from_fen(t: &AttackTables, input: &str) -> (g: ChessGame)
        requires
            t.wf(),
            game_fen_error(input.spec_bytes()) is None,
        ensures
            g.wf(),
            fen_position(input.spec_bytes()) == Ok::<Position, FenError>(g.chessboard@),
            g.zobrist_table@.len() == 1,
    {
        match ChessGame::parse_fen(t, input.as_bytes()) {
            Ok(g) => g,
            Err(_) => vstd::pervasive::unreached(),
        }
    }

    /// The square of the king of `side`.
    pub fn king_square(&self, side: Side) -> (s: Square)
        requires
            self.wf(),
        ensures
            s.idx() == self.chessboard@.king_idx(side),
    {
        self.chessboard.king_square(side)
    }

    /// The side to move.
    pub fn side(&self) -> (s: Side)
        ensures
            s == self.chessboard@.side,
    {
        self.chessboard.side()
    }

    /// The fingerprint of the position.
    pub fn hash(&self) -> (h: ZobristHash)
        ensures
            h == self.chessboard.data.zobrist_hash,
    {
        self.chessboard.hash()
    }

    /// What stands on each square.
    pub fn mailbox(&self) -> (m: OptionMailbox)
        ensures
            m@ == self.chessboard@.board,
    {
        self.chessboard.mailbox()
    }

    /// The squares of a piece.
    pub fn piece_bitboard(&self, chess_piece: ChessPiece) -> (b: Bitboard)
        ensures
            b.0 == self.chessboard.bitboards.bb(chess_piece),
            self.chessboard.wf() ==> b.0 == self.chessboard@.pieces(chess_piece),
    {
        self.chessboard.piece_bitboard(chess_piece)
    }

    /// The piece on a square.
    pub fn square_index(&self, square: Square) -> (p: Option<ChessPiece>)
        ensures
            p == self.chessboard@.board[square.idx()],
    {
        self.chessboard.square_index(square)
    }

    /// How often the position has occurred in the game.
    pub fn repetition(&self) -> (n: usize)
        ensures
            n == self.times_seen(),
    {
        self.zobrist_table.count_hash(self.hash())
    }

    /// The moves to go on with and the state of the game; `None` if there are
    /// more legal moves than the list can hold. The legal moves are exactly
    /// the moves that follow the rules and do not leave the king attacked.
    pub fn try_generate_moves(&self, t: &AttackTables) -> (r: Option<(MoveList, GameState)>)
        requires
            self.wf(),
            t.wf(),
        ensures
            r matches Some(x) ==> x.0@ == moves_to_play(self.chessboard@, self.times_seen())
                && x.1 == game_state(
                self.chessboard@,
                self.times_seen(),
                legal_moves(self.chessboard@),
            ),
            r is None <==> moves_to_play(self.chessboard@, self.times_seen()).len() > SIZE,
            forall|m: ChessMove| #[trigger]
                legal_moves(self.chessboard@).contains(m) <==> legal(self.chessboard@, m),
    {
        proof {
            assert forall|m: ChessMove| #[trigger]
                legal_moves(self.chessboard@).contains(m) <==> legal(self.chessboard@, m) by {
                lemma_legal_moves_exact(self.chessboard@, m);
            }
        }
        if self.repetition() >= 3 || self.chessboard.is_fifty_move_rule() {
            return Some((MoveList::new(), GameState::Finished(GameResult::Draw)));
        }
        let side = self.side();
        let moves = match self.chessboard.generate_moves(t) {
            Some(l) => l,
            None => {
                return None;
            },
        };
        proof {
            self.chessboard.lemma_wf();
        }
        if moves.len() != 0 {
            Some((moves, GameState::Ongoing))
        } else if self.chessboard.is_king_in_check(t, side) {
            Some((moves, GameState::Finished(GameResult::Win(side.update()))))
        } else {
            Some((moves, GameState::Finished(GameResult::Draw)))
        }
    }

    /// Makes a legal move and returns what is needed to take it back. After
    /// the move there are as many pinned pieces as pinners, and at most two
    /// pieces give check.
    pub fn explore_state(&mut self, t: &AttackTables, chess_move: &ChessMove) -> (snapshot:
        ChessBoardSnapshot)
        requires
            old(self).wf(),
            t.wf(),
            legal_moves(old(self).chessboard@).contains(*chess_move),
        ensures
            final(self).wf(),
            final(self).chessboard@ == apply(old(self).chessboard@, *chess_move),
            final(self).zobrist_table@ == old(self).zobrist_table@.push(snapshot.hash),
            snapshot.board() == old(self).chessboard,
            snapshot.hash == final(self).chessboard.data.zobrist_hash,
            final(self).chessboard.data.pinned_bb.count()
                == final(self).chessboard.data.pinner_bb.count(),
            final(self).chessboard.data.check_bb.count() <= 2,
    {
        let bitboards = self.chessboard.bitboards;
        let mailbox = self.chessboard.mailbox;
        let data = self.chessboard.data;
        self.update_state(t, chess_move);
        proof {
            lemma_board_pin_counts(self.chessboard);
        }
        ChessBoardSnapshot { bitboards, mailbox, data, hash: self.chessboard.hash() }
    }

    /// Takes the last move back: the position becomes the one of the snapshot
    /// and the last fingerprint leaves the history.
    pub fn restore_state(&mut self, snapshot: ChessBoardSnapshot)
        requires
            old(self).zobrist_table@.len() > 0,
            old(self).zobrist_table@.last() == snapshot.hash,
        ensures
            final(self).chessboard == snapshot.board(),
            final(self).zobrist_table@ == old(self).zobrist_table@.drop_last(),
    {
        self.chessboard.bitboards = snapshot.bitboards;
        self.chessboard.mailbox = snapshot.mailbox;
        self.chessboard.data = snapshot.data;
        self.zobrist_table.remove_last(snapshot.hash);
    }

    /// Makes a legal move and adds the fingerprint of the new position to
    /// the history. The new position is orderly: at most two pieces give
    /// check in it.
    pub fn update_state(&mut self, t: &AttackTables, chess_move: &ChessMove)
        requires
            old(self).wf(),
            t.wf(),
            legal_moves(old(self).chessboard@).contains(*chess_move),
        ensures
            final(self).wf(),
            final(self).chessboard@ == apply(old(self).chessboard@, *chess_move),
            final(self).zobrist_table@ == old(self).zobrist_table@.push(
                final(self).chessboard.data.zobrist_hash,
            ),
            final(self).chessboard.data.check_bb.count() <= 2,
    {
        proof {
            let pos = self.chessboard@;
            let ms = legal_moves(pos);
            let i = choose|i: int| 0 <= i < ms.len() && ms[i] == *chess_move;
            lemma_legal_good(pos);
            assert(applicable(pos, ms[i]));
            lemma_orderly_kept(pos, *chess_move);
        }
        self.chessboard.update_state(t, chess_move);
        self.zobrist_table.push(self.chessboard.hash());
    }
}

/// Making a move and taking it back with its snapshot restores the game: the
/// position, with its sets of squares, its mailbox and its fingerprint, and
/// the history are what they were.
pub proof fn lemma_undo(
    before: ChessGame,
    made: ChessGame,
    snapshot: ChessBoardSnapshot,
    after: ChessGame,
)
    requires
        made.zobrist_table@ == before.zobrist_table@.push(snapshot.hash),
        snapshot.board() == before.chessboard,
        after.chessboard == snapshot.board(),
        after.zobrist_table@ == made.zobrist_table@.drop_last(),
    ensures
        after.chessboard == before.chessboard,
        after.zobrist_table@ == before.zobrist_table@,
        before.wf() ==> after.wf(),
{
    assert(before.zobrist_table@.push(snapshot.hash).drop_last() =~= before.zobrist_table@);
}

} // verus!
