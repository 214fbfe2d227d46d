//! Making a move: the next position as a function of the position and the
//! move, and the update that computes it in place.

use vstd::prelude::*;
use crate::attack::AttackTables;
use crate::bitboard::Bitboard;
use crate::bits::{
    is_single, lemma_and_not_self, lemma_is_single, lemma_member_single, lemma_or_zero,
    lemma_single, lemma_xor_assoc, lemma_xor_merge, lemma_xor_swap, lemma_xor_undo, lowest,
    single,
};
use crate::chessboard::check::{agrees, check_state, compute_check_state};
use crate::chessboard::ep_safe::ep_shielded;
use crate::chessboard::mailbox::OptionMailbox;
use crate::chessboard::movegen::ep_moves;
use crate::chessboard::pieceboard::PieceBoard;
use crate::chessboard::position::{lemma_occ_member, lemma_occ_update, occ_of, Position};
use crate::chessboard::zobrist::{castle_hash, pieces_hash, side_hash, side_key, ZobristHash};
use crate::chessboard::{
    ep_ok, king_home, king_target, kings_ok, place, right_ok, rights_ok, rook_home, rook_target,
    same_piece, valid, ChessBoard,
};
use crate::chessmove::{Castling, ChessMove, MoveList, MoveType};
use crate::chesspiece::{ChessPiece, PieceType, Side};
use crate::square::{col_of, row_of, Square};

verus! {

/// Whether a move of this kind takes what stands on its target square.
pub open spec fn takes_target(kind: MoveType) -> bool {
    kind is Normal || kind is Promotion
}

/// Whether a move forfeits castling right `c`: the king of that side moves,
/// its rook leaves its home square, or its rook is taken on its home square.
pub open spec fn loses_right(
    piece: ChessPiece,
    s: int,
    captured: Option<ChessPiece>,
    t: int,
    kind: MoveType,
    c: Castling,
) -> bool {
    ||| piece == ChessPiece(c.side(), PieceType::King)
    ||| (piece == ChessPiece(c.side(), PieceType::Rook) && s == rook_home(c))
    ||| (takes_target(kind) && captured == Some(ChessPiece(c.side(), PieceType::Rook)) && t
        == rook_home(c))
}

/// The square of the pawn that an en-passant capture onto `t` takes.
pub open spec fn ep_victim(side: Side, t: int) -> int {
    match side {
        Side::White => t - 8,
        Side::Black => t + 8,
    }
}

/// Whether the move is a pawn's advance of two ranks from its starting rank
/// over an empty square onto an empty square.
pub open spec fn double_push(pos: Position, s: int, t: int) -> bool {
    match pos.side {
        Side::White => t == s + 16 && row_of(s) == 1 && pos.board[s + 8] is None
            && pos.board[t] is None,
        Side::Black => s == t + 16 && row_of(s) == 6 && pos.board[s - 8] is None
            && pos.board[t] is None,
    }
}

/// Whether the move can be made in the position: a piece of the side to move
/// stands on its source, its target holds neither a piece of that side nor a
/// king, and what its kind needs is there.
pub open spec fn applicable(pos: Position, mv: ChessMove) -> bool {
    let s = mv.source_idx();
    let t = mv.target_idx();
    &&& pos.board[s] is Some
    &&& pos.piece_at(s).0 == pos.side
    &&& (pos.board[t] matches Some(q) ==> q.0 != pos.side && q.1 != PieceType::King)
    &&& match mv.kind() {
        MoveType::Normal => pos.piece_at(s).1 == PieceType::Pawn && (t - s == 16 || s - t == 16)
            ==> double_push(pos, s, t),
        MoveType::Castle(c) => c.side() == pos.side && pos.castle[c.idx()] && s == king_home(
            pos.side,
        ) && t == king_target(c) && pos.board[t] is None && pos.board[rook_target(c)] is None,
        MoveType::EnPassant => pos.piece_at(s).1 == PieceType::Pawn && pos.ep == single(t),
        MoveType::Promotion(_) => pos.piece_at(s).1 == PieceType::Pawn,
    }
}

/// What stands where after a move of the piece on `s` to `t`.
pub open spec fn moved_board(
    board: Seq<Option<ChessPiece>>,
    side: Side,
    s: int,
    t: int,
    kind: MoveType,
) -> Seq<Option<ChessPiece>> {
    let moved = board.update(s, None).update(t, board[s]);
    match kind {
        MoveType::Normal => moved,
        MoveType::Castle(c) => moved.update(rook_home(c), None).update(
            rook_target(c),
            Some(ChessPiece(side, PieceType::Rook)),
        ),
        MoveType::EnPassant => moved.update(ep_victim(side, t), None),
        MoveType::Promotion(p) => board.update(s, None).update(t, Some(ChessPiece(side, p))),
    }
}

/// What stands where after the move.
pub open spec fn board_after(pos: Position, mv: ChessMove) -> Seq<Option<ChessPiece>> {
    moved_board(pos.board, pos.side, mv.source_idx(), mv.target_idx(), mv.kind())
}

/// The castling rights after the move.
pub open spec fn castle_after(pos: Position, mv: ChessMove) -> Seq<bool> {
    let s = mv.source_idx();
    let t = mv.target_idx();
    let piece = pos.board[s]->0;
    let x = pos.board[t];
    seq![
        pos.castle[0] && !loses_right(piece, s, x, t, mv.kind(), Castling::Kingside(Side::White)),
        pos.castle[1] && !loses_right(piece, s, x, t, mv.kind(), Castling::Queenside(Side::White)),
        pos.castle[2] && !loses_right(piece, s, x, t, mv.kind(), Castling::Kingside(Side::Black)),
        pos.castle[3] && !loses_right(piece, s, x, t, mv.kind(), Castling::Queenside(Side::Black)),
    ]
}

/// Whether an enemy pawn stands next to the target of a pawn's double advance.
pub open spec fn ep_relevant(pos: Position, s: int, t: int) -> bool {
    let enemy_pawn = Some(ChessPiece(pos.side.flip(), PieceType::Pawn));
    (col_of(s) != 7 && pos.board[t + 1] == enemy_pawn) || (col_of(s) != 0 && pos.board[t - 1]
        == enemy_pawn)
}

/// The square that a pawn passed in an advance of two ranks, if an enemy
/// pawn stands next to where it landed; nothing for every other move.
pub open spec fn ep_marked(pos: Position, mv: ChessMove) -> u64 {
    let s = mv.source_idx();
    let t = mv.target_idx();
    if mv.kind() is Normal && pos.piece_at(s).1 == PieceType::Pawn && (match pos.side {
        Side::White => s + 16 == t,
        Side::Black => s == t + 16,
    }) && ep_relevant(pos, s, t) {
        single(ep_victim(pos.side, t))
    } else {
        0
    }
}

/// A counter one higher, unless it is at its largest value.
pub open spec fn bump(n: int) -> int {
    if n < 65535 {
        n + 1
    } else {
        n
    }
}

/// The half-move counter after the move: zero after a pawn's move or a
/// capture, one more otherwise.
pub open spec fn halfmove_after(pos: Position, mv: ChessMove) -> int {
    if pos.piece_at(mv.source_idx()).1 == PieceType::Pawn || (takes_target(mv.kind())
        && pos.board[mv.target_idx()] is Some) {
        0
    } else {
        bump(pos.halfmove)
    }
}

/// The position after the move with the passed square of a pawn's advance
/// of two ranks as en-passant target wherever an enemy pawn stands next to
/// the pawn, whether or not that pawn can capture.
pub open spec fn marked(pos: Position, mv: ChessMove) -> Position {
    Position {
        board: board_after(pos, mv),
        castle: castle_after(pos, mv),
        ep: ep_marked(pos, mv),
        side: pos.side.flip(),
        halfmove: halfmove_after(pos, mv),
        fullmove: if pos.side == Side::Black {
            bump(pos.fullmove)
        } else {
            pos.fullmove
        },
    }
}

/// Whether a pawn of the side to move can take en passant: the position has
/// an en-passant target, some pawn beside the pawn that has passed it may
/// capture as the generator sees it, and the pawn that would be taken is
/// not the king's only shield on a diagonal, so that the capture does not
/// leave the king attacked.
pub open spec fn ep_takable(pos: Position) -> bool {
    pos.ep != 0 && ep_moves(pos, check_state(pos)).len() > 0 && ep_shielded(pos)
}

/// The en-passant target after the move: the square that a pawn passed in an
/// advance of two ranks, if an enemy pawn can take it there; nothing else.
pub open spec fn ep_after(pos: Position, mv: ChessMove) -> u64 {
    if ep_takable(marked(pos, mv)) {
        ep_marked(pos, mv)
    } else {
        0
    }
}

/// The position after the move.
pub open spec fn apply(pos: Position, mv: ChessMove) -> Position {
    Position {
        board: board_after(pos, mv),
        castle: castle_after(pos, mv),
        ep: ep_after(pos, mv),
        side: pos.side.flip(),
        halfmove: halfmove_after(pos, mv),
        fullmove: if pos.side == Side::Black {
            bump(pos.fullmove)
        } else {
            pos.fullmove
        },
    }
}

/// A change of one square that neither removes nor adds a king leaves each
/// side with exactly one king.
proof fn lemma_kings_keep(board: Seq<Option<ChessPiece>>, s: int, x: Option<ChessPiece>, k: ChessPiece)
    requires
        board.len() == 64,
        0 <= s < 64,
        x != Some(k),
        board[s] != Some(k),
    ensures
        occ_of(board.update(s, x), k) == occ_of(board, k),
{
    lemma_occ_update(board, s, x, k);
}

/// Moving the only piece of a kind from `s` to `t` leaves it the only one.
pub proof fn lemma_king_moved(board: Seq<Option<ChessPiece>>, s: int, t: int, k: ChessPiece)
    requires
        board.len() == 64,
        0 <= s < 64,
        0 <= t < 64,
        board[s] == Some(k),
        is_single(occ_of(board, k)),
    ensures
        occ_of(board.update(s, None).update(t, Some(k)), k) == single(t),
        is_single(occ_of(board.update(s, None).update(t, Some(k)), k)),
{
    let o = occ_of(board, k);
    lemma_is_single(o);
    lemma_occ_member(board, k, s);
    lemma_member_single(lowest(o), s);
    lemma_occ_update(board, s, None, k);
    lemma_and_not_self(single(s));
    lemma_occ_update(board.update(s, None), t, Some(k), k);
    lemma_or_zero(single(t));
    lemma_single(t);
}

/// A valid position stays valid under a move that can be made in it, with
/// the passed square marked.
pub proof fn lemma_marked_valid(pos: Position, mv: ChessMove)
    requires
        valid(pos),
        applicable(pos, mv),
    ensures
        valid(marked(pos, mv)),
{
    let s = mv.source_idx();
    let t = mv.target_idx();
    let piece = pos.board[s]->0;
    let next = marked(pos, mv);
    let b0 = pos.board;
    let b1 = b0.update(s, None);
    if pos.ep != 0 {
        lemma_is_single(pos.ep);
    }
    if mv.kind() is EnPassant {
        lemma_single(t);
        assert(ep_ok(pos));
        assert(0 <= ep_victim(pos.side, t) < 64);
    }
    assert(0 <= s < 64 && 0 <= t < 64);
    assert(b1.len() == 64);
    assert(b1.update(t, b0[s]).len() == 64);
    assert(next.board.len() == 64);
    assert(next.castle.len() == 4);
    assert(next.shaped());
    assert forall|side: Side|
        is_single(#[trigger] occ_of(next.board, ChessPiece(side, PieceType::King))) by {
        let k = ChessPiece(side, PieceType::King);
        assert(is_single(occ_of(b0, k)));
        match mv.kind() {
            MoveType::Normal => {
                if piece == k {
                    lemma_king_moved(b0, s, t, k);
                } else {
                    lemma_kings_keep(b0, s, None, k);
                    lemma_kings_keep(b1, t, Some(piece), k);
                }
            },
            MoveType::Castle(c) => {
                let b2 = b1.update(t, Some(piece));
                let b3 = b2.update(rook_home(c), None);
                assert(b0[s] == Some(piece));
                assert(right_ok(pos, c));
                if piece == k {
                    lemma_king_moved(b0, s, t, k);
                } else {
                    lemma_kings_keep(b0, s, None, k);
                    lemma_kings_keep(b1, t, Some(piece), k);
                }
                lemma_kings_keep(b2, rook_home(c), None, k);
                lemma_kings_keep(
                    b3,
                    rook_target(c),
                    Some(ChessPiece(c.side(), PieceType::Rook)),
                    k,
                );
            },
            MoveType::EnPassant => {
                let b2 = b1.update(t, Some(piece));
                assert(b0[s] == Some(piece));
                lemma_kings_keep(b0, s, None, k);
                lemma_kings_keep(b1, t, Some(piece), k);
                lemma_kings_keep(b2, ep_victim(pos.side, t), None, k);
            },
            MoveType::Promotion(p) => {
                lemma_kings_keep(b0, s, None, k);
                lemma_kings_keep(b1, t, Some(ChessPiece(pos.side, p)), k);
            },
        }
    }
    assert(kings_ok(next)) by {
        assert(is_single(occ_of(next.board, ChessPiece(Side::White, PieceType::King))));
        assert(is_single(occ_of(next.board, ChessPiece(Side::Black, PieceType::King))));
    }
    assert(rights_ok(pos));
    assert(right_ok(next, Castling::Kingside(Side::White))) by {
        assert(right_ok(pos, Castling::Kingside(Side::White)));
    }
    assert(right_ok(next, Castling::Queenside(Side::White))) by {
        assert(right_ok(pos, Castling::Queenside(Side::White)));
    }
    assert(right_ok(next, Castling::Kingside(Side::Black))) by {
        assert(right_ok(pos, Castling::Kingside(Side::Black)));
    }
    assert(right_ok(next, Castling::Queenside(Side::Black))) by {
        assert(right_ok(pos, Castling::Queenside(Side::Black)));
    }
    assert(ep_ok(next)) by {
        if next.ep != 0 {
            let e = ep_victim(pos.side, t);
            assert(double_push(pos, s, t));
            lemma_single(e);
            assert(piece == ChessPiece(pos.side, PieceType::Pawn));
            assert(next.board[e] is None);
            assert(next.board[t] == Some(piece));
        }
    }
}

/// A valid position stays valid under a move that can be made in it.
pub proof fn lemma_apply_valid(pos: Position, mv: ChessMove)
    requires
        valid(pos),
        applicable(pos, mv),
    ensures
        valid(apply(pos, mv)),
{
    lemma_marked_valid(pos, mv);
    let m = marked(pos, mv);
    let next = apply(pos, mv);
    assert(next.board == m.board && next.castle == m.castle && next.side == m.side);
    assert(next.ep == m.ep || next.ep == 0);
    assert(kings_ok(m));
    assert(rights_ok(m));
    assert(ep_ok(m));
    assert(right_ok(m, Castling::Kingside(Side::White)));
    assert(right_ok(m, Castling::Queenside(Side::White)));
    assert(right_ok(m, Castling::Kingside(Side::Black)));
    assert(right_ok(m, Castling::Queenside(Side::Black)));
}

/// The home square of the rook of a castle.
pub fn rook_home_square(c: Castling) -> (s: Square)
    ensures
        s.idx() == rook_home(c),
{
    match c {
        Castling::Kingside(Side::White) => Square::H1,
        Castling::Queenside(Side::White) => Square::A1,
        Castling::Kingside(Side::Black) => Square::H8,
        Castling::Queenside(Side::Black) => Square::A8,
    }
}

/// The square on which the rook of a castle lands.
pub fn rook_target_square(c: Castling) -> (s: Square)
    ensures
        s.idx() == rook_target(c),
{
    match c {
        Castling::Kingside(Side::White) => Square::F1,
        Castling::Queenside(Side::White) => Square::D1,
        Castling::Kingside(Side::Black) => Square::F8,
        Castling::Queenside(Side::Black) => Square::D8,
    }
}

/// Whether a move forfeits a castling right.
pub fn forfeits(
    piece: ChessPiece,
    source: Square,
    captured: Option<ChessPiece>,
    target: Square,
    kind: MoveType,
    c: Castling,
) -> (r: bool)
    ensures
        r == loses_right(piece, source.idx(), captured, target.idx(), kind, c),
{
    let side = match c {
        Castling::Kingside(s) => s,
        Castling::Queenside(s) => s,
    };
    let home = rook_home_square(c).as_usize();
    let takes = match kind {
        MoveType::Normal => true,
        MoveType::Promotion(_) => true,
        _ => false,
    };
    let king = ChessPiece(side, PieceType::King);
    let rook = ChessPiece(side, PieceType::Rook);
    same_piece(Some(piece), Some(king)) || (same_piece(Some(piece), Some(rook))
        && source.as_usize() == home) || (takes && same_piece(captured, Some(rook))
        && target.as_usize() == home)
}

/// A counter one higher, unless it is at its largest value.
pub fn bumped(n: u16) -> (r: u16)
    ensures
        r == bump(n as int),
{
    if n < 65535 {
        n + 1
    } else {
        n
    }
}

impl ChessBoard {
    /// Whether the move can be made in the position.
    pub fn can_apply(&self, chess_move: &ChessMove) -> (r: bool)
        ensures
            r == applicable(self@, *chess_move),
    {
        let source = chess_move.source();
        let target = chess_move.target();
        let s = source.as_usize();
        let t = target.as_usize();
        let side = self.data.side_to_move;
        let piece = match self.mailbox.index(s) {
            Some(p) => p,
            None => {
                return false;
            },
        };
        if piece.0 != side {
            return false;
        }
        match self.mailbox.index(t) {
            Some(q) => {
                if q.0 == side || q.1 == PieceType::King {
                    return false;
                }
            },
            None => {},
        }
        let is_pawn = piece.1 == PieceType::Pawn;
        match chess_move.move_type() {
            MoveType::Normal => {
                if is_pawn && (t == s + 16 || s == t + 16) {
                    match side {
                        Side::White => t == s + 16 && s / 8 == 1 && self.mailbox.index(
                            s + 8,
                        ).is_none() && self.mailbox.index(t).is_none(),
                        Side::Black => s == t + 16 && s / 8 == 6 && self.mailbox.index(
                            s - 8,
                        ).is_none() && self.mailbox.index(t).is_none(),
                    }
                } else {
                    true
                }
            },
            MoveType::Castle(c) => {
                let owner = match c {
                    Castling::Kingside(x) => x,
                    Castling::Queenside(x) => x,
                };
                let home: usize = match side {
                    Side::White => 4,
                    Side::Black => 60,
                };
                let landing: usize = match c {
                    Castling::Kingside(Side::White) => 6,
                    Castling::Queenside(Side::White) => 2,
                    Castling::Kingside(Side::Black) => 62,
                    Castling::Queenside(Side::Black) => 58,
                };
                owner == side && self.data.castle_bools[c.to_index()] && s == home && t
                    == landing && self.mailbox.index(t).is_none() && self.mailbox.index(
                    rook_target_square(c).as_usize(),
                ).is_none()
            },
            MoveType::EnPassant => {
                proof {
                    target.lemma_idx();
                }
                is_pawn && self.data.enpassant_bb.0 == Bitboard::nth(target).0
            },
            MoveType::Promotion(_) => is_pawn,
        }
    }

    /// Whether an enemy pawn stands next to the target of a pawn's advance of two ranks.
    pub fn is_pawn_move_enpassant_relevant(&self, source: &Square, target: &Square) -> (r: bool)
        ensures
            r == ((match self@.side {
                Side::White => source.idx() + 16 == target.idx(),
                Side::Black => source.idx() == target.idx() + 16,
            }) && ep_relevant(self@, source.idx(), target.idx())),
    {
        let s = source.as_usize();
        let t = target.as_usize();
        let double = match self.data.side_to_move {
            Side::White => s + 16 == t,
            Side::Black => s == t + 16,
        };
        if !double {
            return false;
        }
        let enemy_pawn = Some(ChessPiece(self.data.side_to_move.update(), PieceType::Pawn));
        (s % 8 != 7 && same_piece(self.mailbox.index(t + 1), enemy_pawn)) || (s % 8 != 0
            && same_piece(self.mailbox.index(t - 1), enemy_pawn))
    }

    /// The castling rights after a move.
    pub fn next_rights(&self, chess_move: &ChessMove) -> (castle: [bool; 4])
        requires
            self@.board[chess_move.source_idx()] is Some,
        ensures
            castle@ == castle_after(self@, *chess_move),
    {
        let source: Square = chess_move.source();
        let target: Square = chess_move.target();
        let kind = chess_move.move_type();
        let source_piece = match self.mailbox.square_index(source) {
            Some(p) => p,
            None => vstd::pervasive::unreached(),
        };
        let target_piece = self.mailbox.square_index(target);
        let mut castle = self.data.castle_bools;
        let c0 = castle[0] && !forfeits(
            source_piece,
            source,
            target_piece,
            target,
            kind,
            Castling::Kingside(Side::White),
        );
        let c1 = castle[1] && !forfeits(
            source_piece,
            source,
            target_piece,
            target,
            kind,
            Castling::Queenside(Side::White),
        );
        let c2 = castle[2] && !forfeits(
            source_piece,
            source,
            target_piece,
            target,
            kind,
            Castling::Kingside(Side::Black),
        );
        let c3 = castle[3] && !forfeits(
            source_piece,
            source,
            target_piece,
            target,
            kind,
            Castling::Queenside(Side::Black),
        );
        castle[0] = c0;
        castle[1] = c1;
        castle[2] = c2;
        castle[3] = c3;
        assert(castle@ =~= castle_after(self@, *chess_move));
        castle
    }

    /// The square that a pawn passes in an advance of two ranks, if an enemy
    /// pawn stands next to where it lands.
    pub fn marked_enpassant(&self, chess_move: &ChessMove) -> (ep: Bitboard)
        requires
            self@.board[chess_move.source_idx()] is Some,
        ensures
            ep.0 == ep_marked(self@, *chess_move),
    {
        let source: Square = chess_move.source();
        let target: Square = chess_move.target();
        let source_piece = match self.mailbox.square_index(source) {
            Some(p) => p,
            None => vstd::pervasive::unreached(),
        };
        let is_pawn = match source_piece.1 {
            PieceType::Pawn => true,
            _ => false,
        };
        let is_normal = match chess_move.move_type() {
            MoveType::Normal => true,
            _ => false,
        };
        if is_normal && is_pawn && self.is_pawn_move_enpassant_relevant(&source, &target) {
            match self.data.side_to_move {
                Side::White => Bitboard::nth(target.down()),
                Side::Black => Bitboard::nth(target.up()),
            }
        } else {
            Bitboard(0)
        }
    }

    /// The half-move counter after a move.
    pub fn next_halfmove(&self, chess_move: &ChessMove) -> (h: u16)
        requires
            self@.board[chess_move.source_idx()] is Some,
        ensures
            h == halfmove_after(self@, *chess_move),
    {
        let source_piece = match self.mailbox.square_index(chess_move.source()) {
            Some(p) => p,
            None => vstd::pervasive::unreached(),
        };
        let target_piece = self.mailbox.square_index(chess_move.target());
        let is_pawn = match source_piece.1 {
            PieceType::Pawn => true,
            _ => false,
        };
        let takes = match chess_move.move_type() {
            MoveType::Normal => true,
            MoveType::Promotion(_) => true,
            _ => false,
        };
        if is_pawn || (takes && target_piece.is_some()) {
            0
        } else {
            bumped(self.data.fifty_move_rule_counter)
        }
    }

    /// Whether a pawn of the side to move can take en passant.
    pub fn enpassant_takable(&self, t: &AttackTables) -> (r: bool)
        requires
            self.wf(),
            t.wf(),
        ensures
            r == ep_takable(self@),
    {
        let enpassant_square = match self.data.enpassant_bb.lsb_square() {
            Some(x) => x,
            None => {
                return false;
            },
        };
        proof {
            self.lemma_wf();
            lemma_is_single(self@.ep);
            assert(ep_ok(self@));
            enpassant_square.lemma_idx();
        }
        let mut captures = MoveList::new();
        let fits = self.enpassant_moves(t, &mut captures);
        if fits && captures.len() == 0 {
            return false;
        }
        self.enpassant_shielded()
    }

    /// The en-passant target after a move.
    pub fn next_enpassant(&self, t: &AttackTables, chess_move: &ChessMove) -> (ep: Bitboard)
        requires
            self.wf(),
            t.wf(),
            applicable(self@, *chess_move),
        ensures
            ep.0 == ep_after(self@, *chess_move),
    {
        let mut next = *self;
        next.update_state(t, chess_move);
        next.data.enpassant_bb
    }

    /// Makes the move: the position becomes the one that follows from it.
    /// Pieces, rights, en-passant target, counters and side change as the
    /// kind of the move says; the fingerprint changes by the keys of what
    /// changed; the check and pin state is computed anew. The square that a
    /// pawn has passed in an advance of two ranks stays as en-passant target
    /// only if an enemy pawn can take the pawn there.
    pub fn update_state(&mut self, t: &AttackTables, chess_move: &ChessMove)
        requires
            old(self).wf(),
            t.wf(),
            applicable(old(self)@, *chess_move),
        ensures
            final(self).wf(),
            final(self)@ == apply(old(self)@, *chess_move),
    {
        let ghost pos = self@;
        let ghost mv = *chess_move;
        self.make_marked(t, chess_move);
        if self.data.enpassant_bb.0 != 0 && !self.enpassant_takable(t) {
            let ghost before = self@;
            let key = ZobristHash::enpassant_hash(self.data.enpassant_bb).0;
            let hash = self.data.zobrist_hash.0;
            proof {
                let pieces = pieces_hash(before.board, 64) ^ castle_hash(before.castle);
                lemma_xor_swap(pieces, key, side_hash(before.side), key);
                lemma_xor_undo(pieces, key);
            }
            self.data.enpassant_bb = Bitboard(0);
            self.data.zobrist_hash = ZobristHash(hash ^ key);
            proof {
                let after = self@;
                assert(after.board == before.board && after.castle == before.castle && after.side
                    == before.side && after.ep == 0);
                assert(after == apply(pos, mv));
                lemma_apply_valid(pos, mv);
                assert(check_state(after) == check_state(before));
            }
        } else {
            assert(self@ == apply(pos, mv));
        }
    }

    /// Makes the move and marks the square that a pawn has passed in an
    /// advance of two ranks as en-passant target wherever an enemy pawn
    /// stands next to the pawn.
    pub fn make_marked(&mut self, t: &AttackTables, chess_move: &ChessMove)
        requires
            old(self).wf(),
            t.wf(),
            applicable(old(self)@, *chess_move),
        ensures
            final(self).wf(),
            final(self)@ == marked(old(self)@, *chess_move),
    {
        let ghost pos = self@;
        let ghost mv = *chess_move;
        let side = self.data.side_to_move;
        let source: Square = chess_move.source();
        let target: Square = chess_move.target();
        let kind = chess_move.move_type();
        proof {
            source.lemma_idx();
            target.lemma_idx();
            if kind is EnPassant {
                lemma_single(target.idx());
                lemma_is_single(pos.ep);
                assert(ep_ok(pos));
            }
        }
        let old_castle = ZobristHash::compute_castle_hash(&self.data.castle_bools).0;
        let old_ep = ZobristHash::enpassant_hash(self.data.enpassant_bb).0;
        let castle = self.next_rights(chess_move);
        let enpassant_bb = self.marked_enpassant(chess_move);
        let halfmove = self.next_halfmove(chess_move);
        let fullmove: u16 = match side {
            Side::Black => bumped(self.data.full_move_counter),
            Side::White => self.data.full_move_counter,
        };
        let ghost p0 = pieces_hash(self.mailbox@, 64);
        let delta = move_pieces(&mut self.bitboards, &mut self.mailbox, side, source, target, kind);
        let new_castle = ZobristHash::compute_castle_hash(&castle).0;
        let new_ep = ZobristHash::enpassant_hash(enpassant_bb).0;
        let side_toggle = ZobristHash::side_hash().0;
        let old_hash = self.data.zobrist_hash.0;
        let new_hash = old_hash ^ delta ^ (old_castle ^ new_castle) ^ (old_ep ^ new_ep)
            ^ side_toggle;
        proof {
            lemma_xor_merge(
                p0,
                old_castle,
                old_ep,
                side_hash(side),
                delta,
                old_castle ^ new_castle,
                old_ep ^ new_ep,
                side_toggle,
            );
            lemma_xor_undo(old_castle, new_castle);
            lemma_xor_undo(old_ep, new_ep);
            lemma_xor_undo(side_key(), 0);
        }
        self.data.castle_bools = castle;
        self.data.enpassant_bb = enpassant_bb;
        self.data.side_to_move = side.update();
        self.data.fifty_move_rule_counter = halfmove;
        self.data.full_move_counter = fullmove;
        self.data.zobrist_hash = ZobristHash(new_hash);
        proof {
            assert(self@ == marked(pos, mv));
            lemma_marked_valid(pos, mv);
            crate::chessboard::check::lemma_agree(self.bitboards, self@);
            lemma_is_single(self@.pieces(ChessPiece(side.flip(), PieceType::King)));
            lemma_single(lowest(self@.pieces(ChessPiece(side.flip(), PieceType::King))));
        }
        let c = compute_check_state(t, &self.bitboards, side.update());
        self.data.check_bb = Bitboard(c.checkers);
        self.data.check_mask = Bitboard(c.mask);
        self.data.pinned_bb = Bitboard(c.pinned);
        self.data.pinner_bb = Bitboard(c.pinners);
    }
}

/// Moves the pieces of a move in both tables and returns the change of the fingerprint.
pub fn move_pieces(
    bitboards: &mut PieceBoard,
    mailbox: &mut OptionMailbox,
    side: Side,
    source: Square,
    target: Square,
    kind: MoveType,
) -> (delta: u64)
    requires
        agrees(*old(bitboards), old(mailbox)@),
        old(mailbox)@[source.idx()] is Some,
        kind is EnPassant ==> 0 <= ep_victim(side, target.idx()) < 64,
    ensures
        agrees(*final(bitboards), final(mailbox)@),
        final(mailbox)@ == moved_board(old(mailbox)@, side, source.idx(), target.idx(), kind),
        pieces_hash(final(mailbox)@, 64) == pieces_hash(old(mailbox)@, 64) ^ delta,
{
    let ghost p0 = pieces_hash(mailbox@, 64);
    let moving = mailbox.square_index(source);
    let d1 = place(bitboards, mailbox, None, source);
    let mut delta: u64 = d1;
    match kind {
        MoveType::Normal => {
            let d2 = place(bitboards, mailbox, moving, target);
            proof {
                lemma_xor_assoc(p0, delta, d2);
            }
            delta = delta ^ d2;
        },
        MoveType::Castle(castling) => {
            let d2 = place(bitboards, mailbox, moving, target);
            proof {
                lemma_xor_assoc(p0, delta, d2);
            }
            delta = delta ^ d2;
            let d3 = place(bitboards, mailbox, None, rook_home_square(castling));
            proof {
                lemma_xor_assoc(p0, delta, d3);
            }
            delta = delta ^ d3;
            let d4 = place(
                bitboards,
                mailbox,
                Some(ChessPiece(side, PieceType::Rook)),
                rook_target_square(castling),
            );
            proof {
                lemma_xor_assoc(p0, delta, d4);
            }
            delta = delta ^ d4;
        },
        MoveType::EnPassant => {
            let d2 = place(bitboards, mailbox, moving, target);
            proof {
                lemma_xor_assoc(p0, delta, d2);
            }
            delta = delta ^ d2;
            let victim = match side {
                Side::White => target.down(),
                Side::Black => target.up(),
            };
            let d3 = place(bitboards, mailbox, None, victim);
            proof {
                lemma_xor_assoc(p0, delta, d3);
            }
            delta = delta ^ d3;
        },
        MoveType::Promotion(piece_type) => {
            let d2 = place(bitboards, mailbox, Some(ChessPiece(side, piece_type)), target);
            proof {
                lemma_xor_assoc(p0, delta, d2);
            }
            delta = delta ^ d2;
        },
    }
    delta
}

} // verus!
