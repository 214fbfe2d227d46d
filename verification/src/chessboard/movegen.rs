//! The legal moves of a position, found from its check and pin state.

use vstd::prelude::*;
use crate::attack::init::{
    bishop_attacks, king_attacks, knight_attacks, pawn_attacks, queen_attacks, rook_attacks,
};
use crate::attack::{
    get_king_attack, get_knight_attack, get_pawn_attack, get_pawn_quiet, get_rook_attack, long_line,
    long_rays, pawn_pushes, AttackTables,
};
use crate::bitboard::{row_mask, Bitboard, PROMOTION_SQUARES};
use crate::bits::{
    drop_lowest, is_single, lemma_drop_lowest, lemma_is_single, lemma_lowest, lowest, member,
    single,
};
use crate::chessboard::check::{check_state, CheckState};
use crate::chessboard::complete::{lemma_legal_moves_exact, regular};
use crate::chessboard::laws::{all_good, lemma_legal_good};
use crate::chessboard::ep_safe::ep_shielded;
use crate::chessboard::legality::{all_safe, lemma_legal_moves_safe};
use crate::chessboard::once::lemma_no_duplicates;
use crate::chessboard::position::Position;
use crate::chessboard::rules::legal;
use crate::chessboard::updatestate::ep_victim;
use crate::chessboard::{attacked, castle_legal, ep_ok, ChessBoard};
use crate::chessmove::{
    castle_move, make, promotion_moves, Castling, ChessMove, MoveList, MoveType, SIZE,
};
use crate::chesspiece::{ChessPiece, PieceType, Side, SliderType};
use crate::square::{row_of, Square};

verus! {

/// The normal moves from square `s` to each square of `targets`, lowest first.
pub open spec fn normal_moves(s: int, targets: u64) -> Seq<ChessMove>
    decreases targets,
{
    if targets == 0 {
        Seq::empty()
    } else {
        proof {
            lemma_drop_lowest(targets);
        }
        seq![make(Square::of(s), Square::of(lowest(targets)), MoveType::Normal)] + normal_moves(
            s,
            drop_lowest(targets),
        )
    }
}

/// The promotions from square `s` to each square of `targets`, lowest first,
/// four for each target.
pub open spec fn promotions_to(s: int, targets: u64) -> Seq<ChessMove>
    decreases targets,
{
    if targets == 0 {
        Seq::empty()
    } else {
        proof {
            lemma_drop_lowest(targets);
        }
        promotion_moves(Square::of(s), Square::of(lowest(targets))) + promotions_to(
            s,
            drop_lowest(targets),
        )
    }
}

/// The moves of a pawn from square `s` to the squares of `targets`: normal
/// moves to the squares that are not on the first or last rank, then
/// promotions to those that are.
pub open spec fn pawn_moves_to(s: int, targets: u64) -> Seq<ChessMove> {
    normal_moves(s, targets & !PROMOTION_SQUARES) + promotions_to(s, targets & PROMOTION_SQUARES)
}

/// The squares that a piece other than the king may move to: those that
/// answer the check, if there is one, without the squares of the own pieces
/// and of the enemy king.
pub open spec fn target_mask(pos: Position, cs: CheckState) -> u64 {
    cs.mask & !pos.side_occ(pos.side) & !pos.pieces(ChessPiece(pos.side.flip(), PieceType::King))
}

/// The squares that a piece of the side to move of kind `kind` on square `s`
/// reaches, own pieces not yet left out.
pub open spec fn reach(pos: Position, kind: PieceType, s: int) -> u64 {
    match kind {
        PieceType::Pawn => pawn_pushes(pos.side, s, pos.occ()) | (pawn_attacks(pos.side, s)
            & pos.side_occ(pos.side.flip())),
        PieceType::Knight => knight_attacks(s),
        PieceType::Bishop => bishop_attacks(s, pos.occ()),
        PieceType::Rook => rook_attacks(s, pos.occ()),
        PieceType::Queen => queen_attacks(s, pos.occ()),
        PieceType::King => king_attacks(s),
    }
}

/// The squares that the piece on square `s` may move to: for a pinned piece
/// only those on the line through the king and itself.
pub open spec fn allowed(pos: Position, cs: CheckState, s: int, pinned: bool) -> u64 {
    if pinned {
        target_mask(pos, cs) & long_line(pos.king_idx(pos.side), s)
    } else {
        target_mask(pos, cs)
    }
}

/// The moves of the piece of kind `kind` on square `s`.
pub open spec fn moves_from(pos: Position, cs: CheckState, kind: PieceType, s: int, pinned: bool) -> Seq<
    ChessMove,
> {
    if kind == PieceType::Pawn {
        pawn_moves_to(s, reach(pos, kind, s) & allowed(pos, cs, s, pinned))
    } else {
        normal_moves(s, reach(pos, kind, s) & allowed(pos, cs, s, pinned))
    }
}

/// The moves of the pieces of kind `kind` on the squares of `sources`, lowest square first.
pub open spec fn moves_over(
    pos: Position,
    cs: CheckState,
    kind: PieceType,
    sources: u64,
    pinned: bool,
) -> Seq<ChessMove>
    decreases sources,
{
    if sources == 0 {
        Seq::empty()
    } else {
        proof {
            lemma_drop_lowest(sources);
        }
        moves_from(pos, cs, kind, lowest(sources), pinned) + moves_over(
            pos,
            cs,
            kind,
            drop_lowest(sources),
            pinned,
        )
    }
}

/// The moves of the pinned pieces of kind `kind`: none while in check, and
/// none for knights, which cannot stay on a line.
pub open spec fn pinned_moves(pos: Position, cs: CheckState, kind: PieceType) -> Seq<ChessMove> {
    if cs.checkers == 0 && kind != PieceType::Knight {
        moves_over(pos, cs, kind, pos.pieces(ChessPiece(pos.side, kind)) & cs.pinned, true)
    } else {
        Seq::empty()
    }
}

/// The moves of the pieces of kind `kind`: first of those that are not
/// pinned, then of those that are.
pub open spec fn piece_moves(pos: Position, cs: CheckState, kind: PieceType) -> Seq<ChessMove> {
    moves_over(pos, cs, kind, pos.pieces(ChessPiece(pos.side, kind)) & !cs.pinned, false)
        + pinned_moves(pos, cs, kind)
}

/// Whether the en-passant capture by the pawn on `s` would lay the king open
/// along its rank: king and pawn share a rank with an enemy rook or queen,
/// and with both pawns gone such a piece attacks the king.
pub open spec fn ep_exposes(pos: Position, s: int) -> bool {
    let king = pos.king_idx(pos.side);
    let e = lowest(pos.ep);
    let enemy = pos.side.flip();
    let lateral = pos.pieces(ChessPiece(enemy, PieceType::Rook)) | pos.pieces(
        ChessPiece(enemy, PieceType::Queen),
    );
    (row_mask(row_of(s)) & row_mask(row_of(king))) & lateral != 0 && rook_attacks(
        king,
        ((pos.occ() ^ single(s)) ^ single(ep_victim(pos.side, e))) | single(e),
    ) & lateral != 0
}

/// Whether the pawn on `s` may capture en passant: without a check, the
/// target must lie on its pin line if it is pinned; in check, the pawn to be
/// taken must be the checker and the capturing pawn must not be pinned; and
/// the capture must not lay the king open along its rank.
pub open spec fn ep_allowed(pos: Position, cs: CheckState, s: int) -> bool {
    let e = lowest(pos.ep);
    &&& if cs.checkers == 0 {
        member((pawn_attacks(pos.side, s) & pos.ep) & allowed(pos, cs, s, member(cs.pinned, s)), e)
    } else {
        lowest(cs.checkers) == ep_victim(pos.side, e) && !member(cs.pinned, s)
    }
    &&& !ep_exposes(pos, s)
}

/// The en-passant captures by the pawns on the squares of `sources`, lowest square first.
pub open spec fn ep_moves_over(pos: Position, cs: CheckState, sources: u64) -> Seq<ChessMove>
    decreases sources,
{
    if sources == 0 {
        Seq::empty()
    } else {
        proof {
            lemma_drop_lowest(sources);
        }
        (if ep_allowed(pos, cs, lowest(sources)) {
            seq![
                make(Square::of(lowest(sources)), Square::of(lowest(pos.ep)), MoveType::EnPassant),
            ]
        } else {
            Seq::empty()
        }) + ep_moves_over(pos, cs, drop_lowest(sources))
    }
}

/// The en-passant captures of the position.
pub open spec fn ep_moves(pos: Position, cs: CheckState) -> Seq<ChessMove> {
    if pos.ep == 0 {
        Seq::empty()
    } else {
        ep_moves_over(
            pos,
            cs,
            pawn_attacks(pos.side.flip(), lowest(pos.ep)) & pos.pieces(
                ChessPiece(pos.side, PieceType::Pawn),
            ),
        )
    }
}

/// The occupied squares without the king of the side to move.
pub open spec fn kingless(pos: Position) -> u64 {
    pos.occ() ^ pos.pieces(ChessPiece(pos.side, PieceType::King))
}

/// The king's moves to those squares of `targets` that the enemy does not
/// attack once the king has left its square.
pub open spec fn king_steps(pos: Position, targets: u64) -> Seq<ChessMove>
    decreases targets,
{
    if targets == 0 {
        Seq::empty()
    } else {
        proof {
            lemma_drop_lowest(targets);
        }
        (if !attacked(pos, lowest(targets), pos.side.flip(), kingless(pos)) {
            seq![
                make(
                    Square::of(pos.king_idx(pos.side)),
                    Square::of(lowest(targets)),
                    MoveType::Normal,
                ),
            ]
        } else {
            Seq::empty()
        }) + king_steps(pos, drop_lowest(targets))
    }
}

/// The squares next to the king that hold neither an own piece nor the enemy king.
pub open spec fn king_targets(pos: Position) -> u64 {
    king_attacks(pos.king_idx(pos.side)) & !pos.side_occ(pos.side) & !pos.pieces(
        ChessPiece(pos.side.flip(), PieceType::King),
    )
}

/// The castle, if the side to move may make it.
pub open spec fn castle_if_legal(pos: Position, c: Castling) -> Seq<ChessMove> {
    if castle_legal(pos, c) {
        seq![castle_move(c)]
    } else {
        Seq::empty()
    }
}

/// The castles of the side to move: none while in check.
pub open spec fn castles(pos: Position, cs: CheckState) -> Seq<ChessMove> {
    if cs.checkers == 0 {
        castle_if_legal(pos, Castling::Kingside(pos.side)) + castle_if_legal(
            pos,
            Castling::Queenside(pos.side),
        )
    } else {
        Seq::empty()
    }
}

/// The moves of the king.
pub open spec fn king_moves(pos: Position, cs: CheckState) -> Seq<ChessMove> {
    king_steps(pos, king_targets(pos)) + castles(pos, cs)
}

/// The moves of the pawns, en-passant captures last.
pub open spec fn pawn_moves(pos: Position, cs: CheckState) -> Seq<ChessMove> {
    piece_moves(pos, cs, PieceType::Pawn) + ep_moves(pos, cs)
}

/// The legal moves of the position. With two or more checkers only the king
/// moves; otherwise pawns, knights, bishops, rooks, queens and the king, in
/// this order.
pub open spec fn legal_moves(pos: Position) -> Seq<ChessMove> {
    let cs = check_state(pos);
    if cs.checkers == 0 || is_single(cs.checkers) {
        pawn_moves(pos, cs) + piece_moves(pos, cs, PieceType::Knight) + piece_moves(
            pos,
            cs,
            PieceType::Bishop,
        ) + piece_moves(pos, cs, PieceType::Rook) + piece_moves(pos, cs, PieceType::Queen)
            + king_moves(pos, cs)
    } else {
        king_moves(pos, cs)
    }
}

/// Appends one move, if there is room.
pub fn add_move(m: ChessMove, moves: &mut MoveList) -> (ok: bool)
    ensures
        ok ==> final(moves)@ == old(moves)@ + seq![m],
        ok <==> old(moves)@.len() + 1 <= SIZE,
{
    let ok = moves.push(m);
    proof {
        if ok {
            assert(moves@ =~= old(moves)@ + seq![m]);
        }
    }
    ok
}

impl ChessMove {
    /// Appends the normal moves from `s` to each square of `ts`, as far as
    /// there is room, and says whether there was room for all.
    pub fn add_normal_moves(s: Square, ts: Bitboard, moves: &mut MoveList) -> (ok: bool)
        ensures
            ok ==> final(moves)@ == old(moves)@ + normal_moves(s.idx(), ts.0),
            ok <==> old(moves)@.len() + normal_moves(s.idx(), ts.0).len() <= SIZE,
    {
        let ghost all = normal_moves(s.idx(), ts.0);
        let mut left = ts;
        proof {
            s.lemma_idx();
        }
        while left.0 != 0
            invariant
                all == normal_moves(s.idx(), ts.0),
                moves@ + normal_moves(s.idx(), left.0) == old(moves)@ + all,
                moves@.len() + normal_moves(s.idx(), left.0).len() == old(moves)@.len() + all.len(),
                Square::of(s.idx()) == s,
            decreases left.0,
        {
            proof {
                lemma_lowest(left.0);
                lemma_drop_lowest(left.0);
            }
            let target = match left.lsb_square() {
                Some(x) => x,
                None => vstd::pervasive::unreached(),
            };
            proof {
                target.lemma_idx();
            }
            let ghost before = moves@;
            let ghost rest = normal_moves(s.idx(), drop_lowest(left.0));
            let m = ChessMove::pack(s, target, MoveType::Normal);
            assert(normal_moves(s.idx(), left.0) == seq![m] + rest);
            assert(normal_moves(s.idx(), left.0).len() == 1 + rest.len());
            if !add_move(m, moves) {
                return false;
            }
            left.pop_lsb();
            assert(moves@ + rest =~= before + (seq![m] + rest));
        }
        assert(moves@ + Seq::<ChessMove>::empty() =~= moves@);
        proof {
            use_type_invariant(&*moves);
        }
        true
    }

    /// Appends the promotions from `s` to each square of `ts`, four for each.
    pub fn add_promotions(s: Square, ts: Bitboard, moves: &mut MoveList) -> (ok: bool)
        ensures
            ok ==> final(moves)@ == old(moves)@ + promotions_to(s.idx(), ts.0),
            ok <==> old(moves)@.len() + promotions_to(s.idx(), ts.0).len() <= SIZE,
    {
        let ghost all = promotions_to(s.idx(), ts.0);
        let mut left = ts;
        proof {
            s.lemma_idx();
        }
        while left.0 != 0
            invariant
                all == promotions_to(s.idx(), ts.0),
                moves@ + promotions_to(s.idx(), left.0) == old(moves)@ + all,
                moves@.len() + promotions_to(s.idx(), left.0).len() == old(moves)@.len() + all.len(),
                Square::of(s.idx()) == s,
            decreases left.0,
        {
            proof {
                lemma_lowest(left.0);
                lemma_drop_lowest(left.0);
            }
            let target = match left.lsb_square() {
                Some(x) => x,
                None => vstd::pervasive::unreached(),
            };
            proof {
                target.lemma_idx();
            }
            let ghost before = moves@;
            let ghost rest = promotions_to(s.idx(), drop_lowest(left.0));
            let four = ChessMove::promotions(s, target);
            let ghost p = promotion_moves(s, target);
            assert(promotions_to(s.idx(), left.0) == p + rest);
            assert(promotions_to(s.idx(), left.0).len() == 4 + rest.len());
            if !add_move(four[0], moves) {
                return false;
            }
            if !add_move(four[1], moves) {
                return false;
            }
            if !add_move(four[2], moves) {
                return false;
            }
            if !add_move(four[3], moves) {
                return false;
            }
            left.pop_lsb();
            assert(moves@ =~= before + p);
            assert(moves@ + rest =~= before + (p + rest));
        }
        assert(moves@ + Seq::<ChessMove>::empty() =~= moves@);
        proof {
            use_type_invariant(&*moves);
        }
        true
    }

    /// Appends the moves of a pawn from `s` to the squares of `ts`.
    pub fn add_pawn_moves(s: Square, ts: Bitboard, moves: &mut MoveList) -> (ok: bool)
        ensures
            ok ==> final(moves)@ == old(moves)@ + pawn_moves_to(s.idx(), ts.0),
            ok <==> old(moves)@.len() + pawn_moves_to(s.idx(), ts.0).len() <= SIZE,
    {
        let ts_normal = Bitboard(ts.0 & !PROMOTION_SQUARES);
        let ts_promotion = Bitboard(ts.0 & PROMOTION_SQUARES);
        let ghost a = normal_moves(s.idx(), ts_normal.0);
        let ghost b = promotions_to(s.idx(), ts_promotion.0);
        if !ChessMove::add_normal_moves(s, ts_normal, moves) {
            return false;
        }
        if !ChessMove::add_promotions(s, ts_promotion, moves) {
            return false;
        }
        assert(moves@ =~= old(moves)@ + (a + b));
        proof {
            use_type_invariant(&*moves);
        }
        true
    }
}

impl ChessBoard {
    /// The squares that a piece other than the king may move to.
    pub fn target_mask(&self) -> (b: Bitboard)
        requires
            self.wf(),
        ensures
            b.0 == target_mask(self@, self.check()),
    {
        proof {
            self.lemma_wf();
        }
        let side = self.side();
        let own = self.bitboards.colour_blockers(side);
        let enemy_king = self.bitboards.piece_bitboard(ChessPiece(side.update(), PieceType::King));
        Bitboard(self.data.check_mask.0 & !own.0 & !enemy_king.0)
    }

    /// The squares that a piece of the side to move of kind `kind` on
    /// `source` reaches, own pieces not yet left out.
    pub fn reach(&self, t: &AttackTables, kind: PieceType, source: Square) -> (b: Bitboard)
        requires
            self.wf(),
            t.wf(),
        ensures
            b.0 == reach(self@, kind, source.idx()),
    {
        proof {
            self.lemma_wf();
        }
        let side = self.side();
        let blockers = self.bitboards.blockers();
        match kind {
            PieceType::Pawn => {
                let enemies = self.bitboards.colour_blockers(side.update());
                Bitboard(
                    get_pawn_quiet(side, source, &blockers).0 | (get_pawn_attack(t, side, source).0
                        & enemies.0),
                )
            },
            PieceType::Knight => get_knight_attack(t, source),
            PieceType::Bishop => SliderType::Bishop.get_attack(t, source, blockers),
            PieceType::Rook => SliderType::Rook.get_attack(t, source, blockers),
            PieceType::Queen => SliderType::Queen.get_attack(t, source, blockers),
            PieceType::King => get_king_attack(t, source),
        }
    }

    /// Appends the moves of the pieces of kind `kind` on the squares of `sources`.
    #[verifier::rlimit(30)]
    pub fn moves_over(
        &self,
        t: &AttackTables,
        kind: PieceType,
        sources: Bitboard,
        pinned: bool,
        moves: &mut MoveList,
    ) -> (ok: bool)
        requires
            self.wf(),
            t.wf(),
        ensures
            ok ==> final(moves)@ == old(moves)@ + moves_over(
                self@,
                self.check(),
                kind,
                sources.0,
                pinned,
            ),
            ok <==> old(moves)@.len() + moves_over(self@, self.check(), kind, sources.0, pinned).len()
                <= SIZE,
    {
        let ghost pos = self@;
        let ghost cs = self.check();
        let ghost all = moves_over(pos, cs, kind, sources.0, pinned);
        let side = self.side();
        let king_square = self.king_square(side);
        let mask = self.target_mask();
        let is_pawn = match kind {
            PieceType::Pawn => true,
            _ => false,
        };
        let mut left = sources;
        while left.0 != 0
            invariant
                all == moves_over(pos, cs, kind, sources.0, pinned),
                self.wf(),
                t.wf(),
                pos == self@,
                cs == self.check(),
                side == pos.side,
                king_square.idx() == pos.king_idx(side),
                mask.0 == target_mask(pos, cs),
                is_pawn == (kind == PieceType::Pawn),
                moves@ + moves_over(pos, cs, kind, left.0, pinned) == old(moves)@ + all,
                moves@.len() + moves_over(pos, cs, kind, left.0, pinned).len() == old(moves)@.len() + all.len(),
            decreases left.0,
        {
            proof {
                lemma_lowest(left.0);
                lemma_drop_lowest(left.0);
            }
            let source = match left.lsb_square() {
                Some(x) => x,
                None => vstd::pervasive::unreached(),
            };
            let ghost before = moves@;
            let ghost rest = moves_over(pos, cs, kind, drop_lowest(left.0), pinned);
            let ghost here = moves_from(pos, cs, kind, source.idx(), pinned);
            assert(moves_over(pos, cs, kind, left.0, pinned) == here + rest);
            assert(moves_over(pos, cs, kind, left.0, pinned).len() == here.len() + rest.len());
            let target_squares = if pinned {
                Bitboard(mask.0 & long_rays(t, king_square, source).0)
            } else {
                mask
            };
            let targets = Bitboard(self.reach(t, kind, source).0 & target_squares.0);
            let ok = if is_pawn {
                ChessMove::add_pawn_moves(source, targets, moves)
            } else {
                ChessMove::add_normal_moves(source, targets, moves)
            };
            if !ok {
                return false;
            }
            left.pop_lsb();
            assert(moves@ + rest =~= before + (here + rest));
        }
        assert(moves@ + Seq::<ChessMove>::empty() =~= moves@);
        proof {
            use_type_invariant(&*moves);
        }
        true
    }

    /// Appends the moves of the pieces of kind `kind`: first of those that
    /// are not pinned, then, unless the king is in check, of those that are.
    pub fn piece_moves(&self, t: &AttackTables, kind: PieceType, moves: &mut MoveList) -> (ok: bool)
        requires
            self.wf(),
            t.wf(),
        ensures
            ok ==> final(moves)@ == old(moves)@ + piece_moves(self@, self.check(), kind),
            ok <==> old(moves)@.len() + piece_moves(self@, self.check(), kind).len() <= SIZE,
    {
        proof {
            self.lemma_wf();
        }
        let side = self.side();
        let own = self.bitboards.piece_bitboard(ChessPiece(side, kind));
        let pinned = self.data.pinned_bb;
        let ghost a = moves_over(self@, self.check(), kind, own.0 & !pinned.0, false);
        let ghost b = pinned_moves(self@, self.check(), kind);
        if !self.moves_over(t, kind, Bitboard(own.0 & !pinned.0), false, moves) {
            return false;
        }
        let is_knight = match kind {
            PieceType::Knight => true,
            _ => false,
        };
        if self.data.check_bb.0 == 0 && !is_knight {
            if !self.moves_over(t, kind, Bitboard(own.0 & pinned.0), true, moves) {
                return false;
            }
        }
        assert(moves@ =~= old(moves)@ + (a + b));
        proof {
            use_type_invariant(&*moves);
        }
        true
    }

    /// Whether the en-passant capture by the pawn on `source` would lay the
    /// king open along its rank.
    pub fn enpassant_exposes(&self, t: &AttackTables, source: Square) -> (r: bool)
        requires
            self.wf(),
            t.wf(),
            self@.ep != 0,
        ensures
            r == ep_exposes(self@, source.idx()),
    {
        proof {
            self.lemma_wf();
            lemma_is_single(self@.ep);
            assert(ep_ok(self@));
        }
        let side = self.side();
        let enemy_side = side.update();
        let king_square = self.king_square(side);
        let enpassant_square = match self.data.enpassant_bb.lsb_square() {
            Some(x) => x,
            None => vstd::pervasive::unreached(),
        };
        let enemy_pawn_square = match side {
            Side::White => enpassant_square.down(),
            Side::Black => enpassant_square.up(),
        };
        let row_bb = Bitboard::rows(source.as_row_usize()).bit_and(
            &Bitboard::rows(king_square.as_row_usize()),
        );
        let horizontal_attackers = Bitboard(
            self.bitboards.piece_bitboard(ChessPiece(enemy_side, PieceType::Rook)).0
                | self.bitboards.piece_bitboard(ChessPiece(enemy_side, PieceType::Queen)).0,
        );
        if row_bb.bit_and(&horizontal_attackers).is_not_zero() {
            let resulting_blockers = Bitboard(
                ((self.bitboards.blockers().0 ^ Bitboard::nth(source).0) ^ Bitboard::nth(
                    enemy_pawn_square,
                ).0) | Bitboard::nth(enpassant_square).0,
            );
            if (get_rook_attack(t, king_square, resulting_blockers).0 & horizontal_attackers.0)
                != 0 {
                return true;
            }
        }
        false
    }

    /// Whether the pawn on `source` may capture en passant.
    pub fn enpassant_allowed(&self, t: &AttackTables, source: Square) -> (r: bool)
        requires
            self.wf(),
            t.wf(),
            self@.ep != 0,
        ensures
            r == ep_allowed(self@, self.check(), source.idx()),
    {
        proof {
            self.lemma_wf();
            lemma_is_single(self@.ep);
            assert(ep_ok(self@));
        }
        let side = self.side();
        let king_square = self.king_square(side);
        let pinned = self.data.pinned_bb;
        let enpassant_square = match self.data.enpassant_bb.lsb_square() {
            Some(x) => x,
            None => vstd::pervasive::unreached(),
        };
        let enemy_pawn_square = match side {
            Side::White => enpassant_square.down(),
            Side::Black => enpassant_square.up(),
        };
        let mask = self.target_mask();
        let is_pinned = pinned.nth_is_not_zero(source);
        if self.data.check_bb.0 == 0 {
            let target_squares = if is_pinned {
                Bitboard(mask.0 & long_rays(t, king_square, source).0)
            } else {
                mask
            };
            let targets = Bitboard(
                (get_pawn_attack(t, side, source).0 & self.data.enpassant_bb.0) & target_squares.0,
            );
            if targets.nth_is_zero(enpassant_square) {
                return false;
            }
        } else {
            proof {
                lemma_lowest(self.data.check_bb.0);
            }
            let checker = match self.data.check_bb.lsb_square() {
                Some(x) => x,
                None => vstd::pervasive::unreached(),
            };
            if checker.as_usize() != enemy_pawn_square.as_usize() || is_pinned {
                return false;
            }
        }
        !self.enpassant_exposes(t, source)
    }

    /// Appends the en-passant captures.
    pub fn enpassant_moves(&self, t: &AttackTables, moves: &mut MoveList) -> (ok: bool)
        requires
            self.wf(),
            t.wf(),
        ensures
            ok ==> final(moves)@ == old(moves)@ + ep_moves(self@, self.check()),
            ok <==> old(moves)@.len() + ep_moves(self@, self.check()).len() <= SIZE,
    {
        proof {
            self.lemma_wf();
        }
        let ghost pos = self@;
        let ghost cs = self.check();
        let enpassant_square = match self.data.enpassant_bb.lsb_square() {
            Some(x) => x,
            None => {
                assert(moves@ + Seq::<ChessMove>::empty() =~= moves@);
                proof {
                    use_type_invariant(&*moves);
                }
                return true;
            },
        };
        proof {
            enpassant_square.lemma_idx();
        }
        let side = self.side();
        let pawns = self.bitboards.piece_bitboard(ChessPiece(side, PieceType::Pawn));
        let mut sources = Bitboard(get_pawn_attack(t, side.update(), enpassant_square).0 & pawns.0);
        let ghost all = ep_moves_over(pos, cs, sources.0);
        while sources.0 != 0
            invariant
                self.wf(),
                t.wf(),
                pos == self@,
                cs == self.check(),
                pos.ep != 0,
                all == ep_moves(pos, cs),
                enpassant_square.idx() == lowest(pos.ep),
                Square::of(lowest(pos.ep)) == enpassant_square,
                moves@ + ep_moves_over(pos, cs, sources.0) == old(moves)@ + all,
                moves@.len() + ep_moves_over(pos, cs, sources.0).len() == old(moves)@.len() + all.len(),
            decreases sources.0,
        {
            proof {
                lemma_lowest(sources.0);
                lemma_drop_lowest(sources.0);
            }
            let source = match sources.lsb_square() {
                Some(x) => x,
                None => vstd::pervasive::unreached(),
            };
            proof {
                source.lemma_idx();
            }
            let ghost before = moves@;
            let ghost rest = ep_moves_over(pos, cs, drop_lowest(sources.0));
            if self.enpassant_allowed(t, source) {
                let m = ChessMove::pack(source, enpassant_square, MoveType::EnPassant);
                assert(ep_moves_over(pos, cs, sources.0) == seq![m] + rest);
                assert(ep_moves_over(pos, cs, sources.0).len() == 1 + rest.len());
                if !add_move(m, moves) {
                    return false;
                }
                assert(moves@ + rest =~= before + (seq![m] + rest));
            } else {
                assert(moves@ + rest =~= before + (Seq::<ChessMove>::empty() + rest));
            }
            sources.pop_lsb();
        }
        assert(moves@ + Seq::<ChessMove>::empty() =~= moves@);
        proof {
            use_type_invariant(&*moves);
        }
        true
    }

    /// Appends the moves of the pawns.
    pub fn pawn_moves(&self, t: &AttackTables, moves: &mut MoveList) -> (ok: bool)
        requires
            self.wf(),
            t.wf(),
        ensures
            ok ==> final(moves)@ == old(moves)@ + pawn_moves(self@, self.check()),
            ok <==> old(moves)@.len() + pawn_moves(self@, self.check()).len() <= SIZE,
    {
        let ghost a = piece_moves(self@, self.check(), PieceType::Pawn);
        let ghost b = ep_moves(self@, self.check());
        if !self.piece_moves(t, PieceType::Pawn, moves) {
            return false;
        }
        if !self.enpassant_moves(t, moves) {
            return false;
        }
        assert(moves@ =~= old(moves)@ + (a + b));
        proof {
            use_type_invariant(&*moves);
        }
        true
    }

    /// Appends the moves of the knights.
    pub fn knight_moves(&self, t: &AttackTables, moves: &mut MoveList) -> (ok: bool)
        requires
            self.wf(),
            t.wf(),
        ensures
            ok ==> final(moves)@ == old(moves)@ + piece_moves(
                self@,
                self.check(),
                PieceType::Knight,
            ),
            ok <==> old(moves)@.len() + piece_moves(self@, self.check(), PieceType::Knight).len()
                <= SIZE,
    {
        self.piece_moves(t, PieceType::Knight, moves)
    }

    /// Appends the moves of the sliders of one kind.
    pub fn slider_moves(&self, t: &AttackTables, moves: &mut MoveList, piece: SliderType) -> (ok:
        bool)
        requires
            self.wf(),
            t.wf(),
        ensures
            ok ==> final(moves)@ == old(moves)@ + piece_moves(
                self@,
                self.check(),
                piece.piece_type(),
            ),
            ok <==> old(moves)@.len() + piece_moves(self@, self.check(), piece.piece_type()).len()
                <= SIZE,
    {
        self.piece_moves(t, piece.to_piece_type(), moves)
    }

    /// Appends the king's moves to the squares of `targets` that the enemy does not attack.
    #[verifier::rlimit(30)]
    pub fn king_steps(&self, t: &AttackTables, targets: Bitboard, moves: &mut MoveList) -> (ok: bool)
        requires
            self.wf(),
            t.wf(),
        ensures
            ok ==> final(moves)@ == old(moves)@ + king_steps(self@, targets.0),
            ok <==> old(moves)@.len() + king_steps(self@, targets.0).len() <= SIZE,
    {
        proof {
            self.lemma_wf();
        }
        let ghost pos = self@;
        let ghost all = king_steps(pos, targets.0);
        let side = self.side();
        let king_square = self.king_square(side);
        proof {
            king_square.lemma_idx();
        }
        let kingless_blockers = self.bitboards.blockers().bit_xor(
            &self.bitboards.piece_bitboard(ChessPiece(side, PieceType::King)),
        );
        let mut left = targets;
        while left.0 != 0
            invariant
                all == king_steps(pos, targets.0),
                self.wf(),
                t.wf(),
                pos == self@,
                side == pos.side,
                king_square.idx() == pos.king_idx(side),
                Square::of(pos.king_idx(side)) == king_square,
                kingless_blockers.0 == kingless(pos),
                moves@ + king_steps(pos, left.0) == old(moves)@ + all,
                moves@.len() + king_steps(pos, left.0).len() == old(moves)@.len() + all.len(),
            decreases left.0,
        {
            proof {
                lemma_lowest(left.0);
                lemma_drop_lowest(left.0);
            }
            let target = match left.lsb_square() {
                Some(x) => x,
                None => vstd::pervasive::unreached(),
            };
            proof {
                target.lemma_idx();
            }
            let ghost before = moves@;
            let ghost rest = king_steps(pos, drop_lowest(left.0));
            if !self.is_square_attacked(t, target, side.update(), kingless_blockers) {
                let m = ChessMove::pack(king_square, target, MoveType::Normal);
                assert(king_steps(pos, left.0) == seq![m] + rest);
                assert(king_steps(pos, left.0).len() == 1 + rest.len());
                if !add_move(m, moves) {
                    return false;
                }
                assert(moves@ + rest =~= before + (seq![m] + rest));
            } else {
                assert(moves@ + rest =~= before + (Seq::<ChessMove>::empty() + rest));
            }
            left.pop_lsb();
        }
        assert(moves@ + Seq::<ChessMove>::empty() =~= moves@);
        proof {
            use_type_invariant(&*moves);
        }
        true
    }

    /// Appends the castles that the side to move may make.
    pub fn castle_moves(&self, t: &AttackTables, moves: &mut MoveList) -> (ok: bool)
        requires
            self.wf(),
            t.wf(),
        ensures
            ok ==> final(moves)@ == old(moves)@ + castles(self@, self.check()),
            ok <==> old(moves)@.len() + castles(self@, self.check()).len() <= SIZE,
    {
        let side = self.side();
        let ghost a = castle_if_legal(self@, Castling::Kingside(side));
        let ghost b = castle_if_legal(self@, Castling::Queenside(side));
        if self.data.check_bb.0 == 0 {
            if self.is_castling_legal(t, Castling::Kingside(side)) {
                if !add_move(ChessMove::kingside_castle(side), moves) {
                    return false;
                }
            }
            assert(moves@ =~= old(moves)@ + a);
            if self.is_castling_legal(t, Castling::Queenside(side)) {
                if !add_move(ChessMove::queenside_castle(side), moves) {
                    return false;
                }
            }
            assert(moves@ =~= old(moves)@ + (a + b));
        } else {
            assert(moves@ =~= old(moves)@ + Seq::<ChessMove>::empty());
        }
        proof {
            use_type_invariant(&*moves);
        }
        true
    }

    /// Appends the moves of the king.
    pub fn king_moves(&self, t: &AttackTables, moves: &mut MoveList) -> (ok: bool)
        requires
            self.wf(),
            t.wf(),
        ensures
            ok ==> final(moves)@ == old(moves)@ + king_moves(self@, self.check()),
            ok <==> old(moves)@.len() + king_moves(self@, self.check()).len() <= SIZE,
    {
        proof {
            self.lemma_wf();
        }
        let side = self.side();
        let king_square = self.king_square(side);
        let own = self.bitboards.colour_blockers(side);
        let enemy_king = self.bitboards.piece_bitboard(ChessPiece(side.update(), PieceType::King));
        let targets = Bitboard(get_king_attack(t, king_square).0 & !own.0 & !enemy_king.0);
        let ghost a = king_steps(self@, targets.0);
        let ghost b = castles(self@, self.check());
        if !self.king_steps(t, targets, moves) {
            return false;
        }
        if !self.castle_moves(t, moves) {
            return false;
        }
        assert(moves@ =~= old(moves)@ + (a + b));
        proof {
            use_type_invariant(&*moves);
        }
        true
    }

    /// The legal moves of the side to move; `None` if there are more than the
    /// list can hold. Every one of them can be made, and none of them leaves
    /// the king attacked by an enemy pawn, knight, bishop, rook or queen,
    /// unless a pawn that can be taken en passant is the king's only shield
    /// against an enemy slider on a diagonal. In a regular position they are
    /// exactly the moves that follow the rules and do not leave the king
    /// attacked. No move stands twice in the list.
    pub fn generate_moves(&self, t: &AttackTables) -> (r: Option<MoveList>)
        requires
            self.wf(),
            t.wf(),
        ensures
            r matches Some(l) ==> l@ == legal_moves(self@),
            r is None <==> legal_moves(self@).len() > SIZE,
            all_good(self@, check_state(self@), legal_moves(self@)),
            ep_shielded(self@) ==> all_safe(self@, legal_moves(self@)),
            regular(self@) ==> forall|m: ChessMove| #[trigger]
                legal_moves(self@).contains(m) <==> legal(self@, m),
            legal_moves(self@).no_duplicates(),
    {
        proof {
            lemma_legal_good(self@);
            lemma_no_duplicates(self@);
            if ep_shielded(self@) {
                lemma_legal_moves_safe(self@);
            }
            if regular(self@) {
                assert forall|m: ChessMove| #[trigger]
                    legal_moves(self@).contains(m) <==> legal(self@, m) by {
                    lemma_legal_moves_exact(self@, m);
                }
            }
        }
        let mut moves = MoveList::new();
        let ghost cs = self.check();
        let ghost pos = self@;
        let checkers = self.data.check_bb.0;
        if checkers == 0 || checkers & (checkers - 1) == 0 {
            let ghost a = pawn_moves(pos, cs);
            let ghost b = piece_moves(pos, cs, PieceType::Knight);
            let ghost c = piece_moves(pos, cs, PieceType::Bishop);
            let ghost d = piece_moves(pos, cs, PieceType::Rook);
            let ghost e = piece_moves(pos, cs, PieceType::Queen);
            let ghost f = king_moves(pos, cs);
            if !self.pawn_moves(t, &mut moves) {
                return None;
            }
            assert(moves@ =~= a);
            if !self.knight_moves(t, &mut moves) {
                return None;
            }
            if !self.slider_moves(t, &mut moves, SliderType::Bishop) {
                return None;
            }
            if !self.slider_moves(t, &mut moves, SliderType::Rook) {
                return None;
            }
            if !self.slider_moves(t, &mut moves, SliderType::Queen) {
                return None;
            }
            if !self.king_moves(t, &mut moves) {
                return None;
            }
            assert(moves@ =~= a + b + c + d + e + f);
        } else {
            if !self.king_moves(t, &mut moves) {
                return None;
            }
            assert(moves@ =~= king_moves(pos, cs));
        }
        Some(moves)
    }
}

} // verus!
