//! Moves, packed into sixteen bits, and the fixed-capacity list that holds them.
//!
//! Bits 0 to 5 hold the source square, bits 6 to 11 the target square, bits
//! 14 and 15 the kind of move (0 normal, 1 castle, 2 en passant, 3
//! promotion), and bits 12 and 13 which castle (0 white king side, 1 white
//! queen side, 2 black king side, 3 black queen side) or which piece is
//! promoted to (0 knight, 1 bishop, 2 rook, 3 queen).

use vstd::prelude::*;
use crate::chesspiece::{PieceType, Side};
use crate::square::{col_of, row_of, Square};

verus! {

/// One side's castle on one wing.
#[derive(Debug, Copy, Clone, PartialEq, Eq, Structural)]
pub enum Castling {
    Kingside(Side),
    Queenside(Side),
}

/// The kind of a move.
#[derive(Debug, Copy, Clone, PartialEq, Eq, Structural)]
pub enum MoveType {
    Normal,
    Castle(Castling),
    EnPassant,
    Promotion(PieceType),
}

/// A move: source square, target square and kind, packed into sixteen bits.
#[derive(Debug, Copy, Clone, PartialEq, Eq, Structural)]
pub struct ChessMove {
    pub data: u16,
}

/// The most moves a list can hold: no position of a game has more legal moves.
pub const SIZE: usize = 218;

impl Castling {
    /// 0 for the white king side, 1 white queen side, 2 black king side, 3 black queen side.
    pub open spec fn idx(self) -> int {
        match self {
            Castling::Kingside(Side::White) => 0,
            Castling::Queenside(Side::White) => 1,
            Castling::Kingside(Side::Black) => 2,
            Castling::Queenside(Side::Black) => 3,
        }
    }

    /// The side that castles.
    pub open spec fn side(self) -> Side {
        match self {
            Castling::Kingside(s) => s,
            Castling::Queenside(s) => s,
        }
    }

    /// 0 for the white king side, 1 white queen side, 2 black king side, 3 black queen side.
    pub fn to_index(&self) -> (r: usize)
        ensures
            r == self.idx(),
            r < 4,
    {
        match self {
            Castling::Kingside(Side::White) => 0,
            Castling::Queenside(Side::White) => 1,
            Castling::Kingside(Side::Black) => 2,
            Castling::Queenside(Side::Black) => 3,
        }
    }
}

/// Whether a kind can be encoded: a pawn is promoted to a knight, a bishop, a
/// rook or a queen only.
pub open spec fn valid_kind(m: MoveType) -> bool {
    match m {
        MoveType::Promotion(PieceType::King) => false,
        MoveType::Promotion(PieceType::Pawn) => false,
        _ => true,
    }
}

/// The four bits that encode a kind.
pub open spec fn code_of_kind(m: MoveType) -> int {
    match m {
        MoveType::Normal => 0,
        MoveType::Castle(c) => 4 + c.idx(),
        MoveType::EnPassant => 8,
        MoveType::Promotion(PieceType::Bishop) => 13,
        MoveType::Promotion(PieceType::Rook) => 14,
        MoveType::Promotion(PieceType::Queen) => 15,
        MoveType::Promotion(_) => 12,
    }
}

/// The kind that four bits encode.
pub open spec fn kind_of_code(c: int) -> MoveType {
    let low = c % 4;
    let high = c / 4;
    if high == 0 {
        MoveType::Normal
    } else if high == 1 {
        MoveType::Castle(
            if low == 0 {
                Castling::Kingside(Side::White)
            } else if low == 1 {
                Castling::Queenside(Side::White)
            } else if low == 2 {
                Castling::Kingside(Side::Black)
            } else {
                Castling::Queenside(Side::Black)
            },
        )
    } else if high == 2 {
        MoveType::EnPassant
    } else {
        MoveType::Promotion(
            if low == 0 {
                PieceType::Knight
            } else if low == 1 {
                PieceType::Bishop
            } else if low == 2 {
                PieceType::Rook
            } else {
                PieceType::Queen
            },
        )
    }
}

/// The sixteen bits of a move from square `s` to square `t` of kind `m`.
pub open spec fn encode(s: int, t: int, m: MoveType) -> u16 {
    (s + 64 * t + 4096 * code_of_kind(m)) as u16
}

/// The move from `s` to `t` of kind `m`.
pub open spec fn make(s: Square, t: Square, m: MoveType) -> ChessMove {
    ChessMove { data: encode(s.idx(), t.idx(), m) }
}

/// Reading the fields of sixteen bits with masks and shifts is reading them
/// with division and remainder.
pub proof fn lemma_fields(x: u16)
    ensures
        x & 0x3f == x % 64,
        (x & 0xfc0) >> 6 == (x / 64) % 64,
        (x & 0x3000) >> 12 == (x / 4096) % 4,
        (x & 0xc000) >> 14 == x / 16384,
{
    assert(x & 0x3f == x % 64 && (x & 0xfc0) >> 6 == (x / 64) % 64 && (x & 0x3000) >> 12 == (x
        / 4096) % 4 && (x & 0xc000) >> 14 == x / 16384) by (bit_vector);
}

/// Packing fields with shifts and masks is adding their weighted values.
pub proof fn lemma_pack(s: u16, t: u16, c: u16)
    requires
        s < 64,
        t < 64,
        c < 16,
    ensures
        (s & 0x3f) | ((t << 6) & 0xfc0) | ((c << 12) & 0xf000) == s + 64 * t + 4096 * c,
{
    assert((s & 0x3f) | ((t << 6) & 0xfc0) | ((c << 12) & 0xf000) == s + 64 * t + 4096 * c)
        by (bit_vector)
        requires
            s < 64,
            t < 64,
            c < 16,
    ;
}

/// The code of a kind is below sixteen and names the kind.
pub proof fn lemma_code(m: MoveType)
    requires
        valid_kind(m),
    ensures
        0 <= code_of_kind(m) < 16,
        kind_of_code(code_of_kind(m)) == m,
{
}

/// The fields of a sum of weighted fields are the fields.
pub proof fn lemma_unpack(s: int, t: int, c: int)
    requires
        0 <= s < 64,
        0 <= t < 64,
        0 <= c < 16,
    ensures
        0 <= s + 64 * t + 4096 * c < 65536,
        (s + 64 * t + 4096 * c) % 64 == s,
        ((s + 64 * t + 4096 * c) / 64) % 64 == t,
        (s + 64 * t + 4096 * c) / 4096 == c,
{
    let d = s + 64 * t + 4096 * c;
    vstd::arithmetic::div_mod::lemma_fundamental_div_mod_converse(d, 64, t + 64 * c, s);
    vstd::arithmetic::div_mod::lemma_fundamental_div_mod_converse(t + 64 * c, 64, c, t);
    vstd::arithmetic::div_mod::lemma_fundamental_div_mod_converse(d, 4096, c, s + 64 * t);
}

/// Decoding an encoded move gives its source, its target and its kind back.
pub proof fn lemma_make(s: Square, t: Square, m: MoveType)
    requires
        valid_kind(m),
    ensures
        make(s, t, m).source_square() == s,
        make(s, t, m).target_square() == t,
        make(s, t, m).kind() == m,
        make(s, t, m).source_idx() == s.idx(),
        make(s, t, m).target_idx() == t.idx(),
{
    s.lemma_idx();
    t.lemma_idx();
    lemma_code(m);
    lemma_unpack(s.idx(), t.idx(), code_of_kind(m));
    let d = make(s, t, m).data;
    assert(d as int == s.idx() + 64 * t.idx() + 4096 * code_of_kind(m));
}

impl ChessMove {
    /// The number of the source square.
    pub open spec fn source_idx(self) -> int {
        self.data as int % 64
    }

    /// The number of the target square.
    pub open spec fn target_idx(self) -> int {
        (self.data as int / 64) % 64
    }

    /// The source square.
    pub open spec fn source_square(self) -> Square {
        Square::of(self.source_idx())
    }

    /// The target square.
    pub open spec fn target_square(self) -> Square {
        Square::of(self.target_idx())
    }

    /// The kind of the move.
    pub open spec fn kind(self) -> MoveType {
        kind_of_code(self.data as int / 4096)
    }

    /// The source square.
    pub fn source(&self) -> (s: Square)
        ensures
            s == self.source_square(),
            s.idx() == self.source_idx(),
    {
        proof {
            lemma_fields(self.data);
        }
        Square::nth((self.data & 0x3f) as usize)
    }

    /// The target square.
    pub fn target(&self) -> (s: Square)
        ensures
            s == self.target_square(),
            s.idx() == self.target_idx(),
    {
        proof {
            lemma_fields(self.data);
        }
        Square::nth(((self.data & 0xfc0) >> 6) as usize)
    }

    /// The kind of the move.
    pub fn move_type(&self) -> (m: MoveType)
        ensures
            m == self.kind(),
    {
        proof {
            lemma_fields(self.data);
        }
        let low = (self.data & 0x3000) >> 12;
        let (piece, castling): (PieceType, Castling) = if low == 0 {
            (PieceType::Knight, Castling::Kingside(Side::White))
        } else if low == 1 {
            (PieceType::Bishop, Castling::Queenside(Side::White))
        } else if low == 2 {
            (PieceType::Rook, Castling::Kingside(Side::Black))
        } else {
            (PieceType::Queen, Castling::Queenside(Side::Black))
        };
        let high = (self.data & 0xc000) >> 14;
        if high == 0 {
            MoveType::Normal
        } else if high == 1 {
            MoveType::Castle(castling)
        } else if high == 2 {
            MoveType::EnPassant
        } else {
            MoveType::Promotion(piece)
        }
    }

    /// The move with the given bits, which must not all be zero.
    pub fn from_raw(data: u16) -> (m: ChessMove)
        requires
            data != 0,
        ensures
            m.data == data,
    {
        ChessMove { data }
    }

    /// The sixteen bits of the move.
    pub fn data(&self) -> (d: u16)
        ensures
            d == self.data,
    {
        self.data
    }

    /// The move from `s` to `t` of kind `m`.
    pub fn pack(s: Square, t: Square, m: MoveType) -> (mv: ChessMove)
        requires
            valid_kind(m),
        ensures
            mv == make(s, t, m),
            mv.source_square() == s,
            mv.target_square() == t,
            mv.kind() == m,
    {
        let code: u16 = match m {
            MoveType::Normal => 0,
            MoveType::Castle(Castling::Kingside(Side::White)) => 4,
            MoveType::Castle(Castling::Queenside(Side::White)) => 5,
            MoveType::Castle(Castling::Kingside(Side::Black)) => 6,
            MoveType::Castle(Castling::Queenside(Side::Black)) => 7,
            MoveType::EnPassant => 8,
            MoveType::Promotion(PieceType::Bishop) => 13,
            MoveType::Promotion(PieceType::Rook) => 14,
            MoveType::Promotion(PieceType::Queen) => 15,
            MoveType::Promotion(_) => 12,
        };
        let sv: u16 = s.as_usize() as u16;
        let tv: u16 = t.as_usize() as u16;
        proof {
            lemma_pack(sv, tv, code);
            lemma_make(s, t, m);
        }
        ChessMove { data: (sv & 0x3f) | ((tv << 6) & 0xfc0) | ((code << 12) & 0xf000) }
    }

    /// The move from `s` to `t` of kind `m`. Its bits must not all be zero:
    /// there is no normal move from a1 to a1.
    pub fn new(s: Square, t: Square, m: MoveType) -> (mv: ChessMove)
        requires
            valid_kind(m),
            encode(s.idx(), t.idx(), m) != 0,
        ensures
            mv == make(s, t, m),
            mv.source_square() == s,
            mv.target_square() == t,
            mv.kind() == m,
    {
        ChessMove::pack(s, t, m)
    }

    /// The four promotions of a pawn that moves from `source` to `target`:
    /// to a queen, a knight, a bishop and a rook, in this order.
    pub fn promotions(source: Square, target: Square) -> (r: [ChessMove; 4])
        ensures
            r@ == promotion_moves(source, target),
    {
        let r = [
            ChessMove::pack(source, target, MoveType::Promotion(PieceType::Queen)),
            ChessMove::pack(source, target, MoveType::Promotion(PieceType::Knight)),
            ChessMove::pack(source, target, MoveType::Promotion(PieceType::Bishop)),
            ChessMove::pack(source, target, MoveType::Promotion(PieceType::Rook)),
        ];
        assert(r@ =~= promotion_moves(source, target));
        r
    }

    /// The king-side castle of `side`.
    pub fn kingside_castle(side: Side) -> (m: ChessMove)
        ensures
            m == castle_move(Castling::Kingside(side)),
    {
        match side {
            Side::White => ChessMove::pack(
                Square::E1,
                Square::G1,
                MoveType::Castle(Castling::Kingside(Side::White)),
            ),
            Side::Black => ChessMove::pack(
                Square::E8,
                Square::G8,
                MoveType::Castle(Castling::Kingside(Side::Black)),
            ),
        }
    }

    /// The queen-side castle of `side`.
    pub fn queenside_castle(side: Side) -> (m: ChessMove)
        ensures
            m == castle_move(Castling::Queenside(side)),
    {
        match side {
            Side::White => ChessMove::pack(
                Square::E1,
                Square::C1,
                MoveType::Castle(Castling::Queenside(Side::White)),
            ),
            Side::Black => ChessMove::pack(
                Square::E8,
                Square::C8,
                MoveType::Castle(Castling::Queenside(Side::Black)),
            ),
        }
    }

    /// The move in coordinate notation: the names of source and target, and
    /// for a promotion the letter of the new piece.
    pub open spec fn notation(self) -> Seq<u8> {
        let base = seq![
            (97 + col_of(self.source_idx())) as u8,
            (49 + row_of(self.source_idx())) as u8,
            (97 + col_of(self.target_idx())) as u8,
            (49 + row_of(self.target_idx())) as u8,
        ];
        match self.kind() {
            MoveType::Promotion(p) => base.push(p.uci_byte()),
            _ => base,
        }
    }

    /// The move in coordinate notation, as bytes.
    pub fn notation_bytes(&self) -> (v: Vec<u8>)
        ensures
            v@ == self.notation(),
    {
        let s = self.source().name();
        let t = self.target().name();
        let mut v: Vec<u8> = Vec::new();
        v.push(s[0]);
        v.push(s[1]);
        v.push(t[0]);
        v.push(t[1]);
        if let MoveType::Promotion(piece) = self.move_type() {
            v.push(piece.to_uci_byte());
        }
        assert(v@ =~= self.notation());
        v
    }

    /// The move in coordinate notation, such as `e2e4` or `e7e8q`.
    pub fn print_move(&self) -> (s: String)
        ensures
            s@ == chars_of(self.notation()),
    {
        text_of(&self.notation_bytes())
    }
}

/// The characters that the bytes of a text in ASCII stand for.
pub open spec fn chars_of(s: Seq<u8>) -> Seq<char> {
    s.map_values(|b: u8| b as char)
}

/// The string that the bytes of a text in ASCII spell.
pub fn text_of(v: &Vec<u8>) -> (s: String)
    ensures
        s@ == chars_of(v@),
{
    let mut s = String::new();
    let mut i: usize = 0;
    while i < v.len()
        invariant
            i <= v@.len(),
            s@ == chars_of(v@.take(i as int)),
        decreases v@.len() - i,
    {
        s.push(v[i] as char);
        assert(v@.take(i + 1) =~= v@.take(i as int).push(v@[i as int]));
        assert(chars_of(v@.take(i + 1)) =~= chars_of(v@.take(i as int)).push(v@[i as int] as char));
        i += 1;
    }
    assert(v@.take(v@.len() as int) =~= v@);
    s
}

/// `String::push` appends one character.
pub assume_specification[ String::push ](s: &mut String, c: char)
    ensures
        final(s)@ == old(s)@.push(c),
;

/// The four promotions from `s` to `t`, in the order queen, knight, bishop, rook.
pub open spec fn promotion_moves(s: Square, t: Square) -> Seq<ChessMove> {
    seq![
        make(s, t, MoveType::Promotion(PieceType::Queen)),
        make(s, t, MoveType::Promotion(PieceType::Knight)),
        make(s, t, MoveType::Promotion(PieceType::Bishop)),
        make(s, t, MoveType::Promotion(PieceType::Rook)),
    ]
}

/// The king's move of a castle: from its home square two files towards the rook.
pub open spec fn castle_move(c: Castling) -> ChessMove {
    match c {
        Castling::Kingside(Side::White) => make(Square::E1, Square::G1, MoveType::Castle(c)),
        Castling::Queenside(Side::White) => make(Square::E1, Square::C1, MoveType::Castle(c)),
        Castling::Kingside(Side::Black) => make(Square::E8, Square::G8, MoveType::Castle(c)),
        Castling::Queenside(Side::Black) => make(Square::E8, Square::C8, MoveType::Castle(c)),
    }
}

/// How one text stands to another in the order of a dictionary.
#[derive(Debug, Copy, Clone, PartialEq, Eq, Structural)]
pub enum Precedence {
    Less,
    Equal,
    Greater,
}

/// How text `a` stands to text `b`, both read from place `i` on.
pub open spec fn lexi_at(a: Seq<u8>, b: Seq<u8>, i: usize) -> Precedence {
    lexi_from(a, b, i as int)
}

/// How text `a` stands to text `b`, both read from place `i` on: the first
/// place where they differ decides; if there is none, the shorter text comes first.
pub open spec fn lexi_from(a: Seq<u8>, b: Seq<u8>, i: int) -> Precedence
    decreases a.len() - i,
{
    if i < 0 || i >= a.len() || i >= b.len() {
        if a.len() == b.len() {
            Precedence::Equal
        } else if a.len() < b.len() {
            Precedence::Less
        } else {
            Precedence::Greater
        }
    } else if a[i] < b[i] {
        Precedence::Less
    } else if a[i] > b[i] {
        Precedence::Greater
    } else {
        lexi_from(a, b, i + 1)
    }
}

/// The outside fixed-capacity vector.
#[verifier::external_type_specification]
#[verifier::external_body]
#[verifier::reject_recursive_types(T)]
pub struct ExArrayVec<T, const CAP: usize>(arrayvec::ArrayVec<T, CAP>);

/// What a vector of packed moves holds, first pushed first.
pub uninterp spec fn stored(v: arrayvec::ArrayVec<u16, 218>) -> Seq<u16>;

/// `ArrayVec::new` gives a vector that holds nothing.
#[verifier::external_body]
fn raw_new() -> (v: arrayvec::ArrayVec<u16, 218>)
    ensures
        stored(v) == Seq::<u16>::empty(),
{
    arrayvec::ArrayVec::new()
}

/// `ArrayVec::len` is the number of items held, which never exceeds the capacity.
#[verifier::external_body]
fn raw_len(v: &arrayvec::ArrayVec<u16, 218>) -> (n: usize)
    ensures
        n == stored(*v).len(),
        n <= 218,
{
    v.len()
}

/// `ArrayVec::try_push` appends the item if fewer items than the capacity are
/// held and reports success; a full vector stays as it is. The vector never
/// holds more items than its capacity.
#[verifier::external_body]
fn raw_try_push(v: &mut arrayvec::ArrayVec<u16, 218>, x: u16) -> (ok: bool)
    ensures
        ok == (stored(*old(v)).len() < 218),
        ok ==> stored(*final(v)) == stored(*old(v)).push(x),
        !ok ==> stored(*final(v)) == stored(*old(v)),
        stored(*final(v)).len() <= 218,
    no_unwind
{
    v.try_push(x).is_ok()
}

/// Indexing an `ArrayVec` below its length gives the item at that place.
#[verifier::external_body]
fn raw_get(v: &arrayvec::ArrayVec<u16, 218>, i: usize) -> (x: u16)
    requires
        i < stored(*v).len(),
    ensures
        x == stored(*v)[i as int],
{
    v[i]
}

/// A list of at most 218 moves.
pub struct MoveList {
    pub(crate) items: arrayvec::ArrayVec<u16, 218>,
}

impl View for MoveList {
    type V = Seq<ChessMove>;

    /// The moves of the list, in the order in which they were added.
    closed spec fn view(&self) -> Seq<ChessMove> {
        stored(self.items).map_values(|d: u16| ChessMove { data: d })
    }
}

impl MoveList {
    /// A list never holds more moves than its capacity.
    #[verifier::type_invariant]
    pub open spec fn within_capacity(self) -> bool {
        self@.len() <= SIZE
    }

    /// The empty list.
    pub fn new() -> (l: MoveList)
        ensures
            l@ == Seq::<ChessMove>::empty(),
    {
        let l = MoveList { items: raw_new() };
        assert(l@ =~= Seq::<ChessMove>::empty());
        l
    }

    /// The number of moves.
    pub fn len(&self) -> (n: usize)
        ensures
            n == self@.len(),
            n <= SIZE,
    {
        raw_len(&self.items)
    }

    /// Whether the list holds no move.
    pub fn is_empty(&self) -> (r: bool)
        ensures
            r == (self@.len() == 0),
    {
        raw_len(&self.items) == 0
    }

    /// Whether the list holds as many moves as it can.
    pub fn is_full(&self) -> (r: bool)
        ensures
            r == (self@.len() == SIZE),
    {
        raw_len(&self.items) == SIZE
    }

    /// Appends a move if there is room, and says whether there was.
    pub fn push(&mut self, m: ChessMove) -> (ok: bool)
        ensures
            ok == (old(self)@.len() < SIZE),
            ok ==> final(self)@ == old(self)@.push(m),
            !ok ==> final(self)@ == old(self)@,
            final(self)@.len() <= SIZE,
    {
        let ghost before = stored(self.items);
        let ok = raw_try_push(&mut self.items, m.data);
        proof {
            if ok {
                assert(stored(self.items).map_values(|d: u16| ChessMove { data: d })
                    =~= before.map_values(|d: u16| ChessMove { data: d }).push(m));
            }
        }
        ok
    }

    /// The move at place `i`.
    pub fn get(&self, i: usize) -> (m: ChessMove)
        requires
            i < self@.len(),
        ensures
            m == self@[i as int],
    {
        ChessMove { data: raw_get(&self.items, i) }
    }

    /// The moves as a vector.
    pub fn to_vec(&self) -> (v: Vec<ChessMove>)
        ensures
            v@ == self@,
    {
        let n = self.len();
        let mut v: Vec<ChessMove> = Vec::new();
        let mut i: usize = 0;
        while i < n
            invariant
                n == self@.len(),
                i <= n,
                v@ == self@.take(i as int),
            decreases n - i,
        {
            v.push(self.get(i));
            assert(self@.take(i + 1) =~= self@.take(i as int).push(self@[i as int]));
            i += 1;
        }
        assert(self@.take(n as int) =~= self@);
        v
    }
}

} // verus!
