//! Sides, piece kinds and pieces.

use vstd::prelude::*;

verus! {

/// One of the two players.
#[derive(Debug, Copy, Clone, PartialEq, Eq, Structural)]
pub enum Side {
    White,
    Black,
}

/// The six kinds of piece.
#[derive(Debug, Copy, Clone, PartialEq, Eq, Structural)]
pub enum PieceType {
    Pawn,
    Knight,
    Bishop,
    Rook,
    Queen,
    King,
}

/// The three kinds of piece that slide along lines.
#[derive(Debug, Copy, Clone, PartialEq, Eq, Structural)]
pub enum SliderType {
    Bishop,
    Rook,
    Queen,
}

/// A piece: its side and its kind.
#[derive(Debug, Copy, Clone, PartialEq, Eq, Structural)]
pub struct ChessPiece(pub Side, pub PieceType);

/// Why a position text was refused.
#[derive(Debug, Copy, Clone, PartialEq, Eq, Structural)]
pub enum FenError {
    /// A field that must be present is missing.
    MissingField,
    /// The placement field holds a byte that is neither a piece letter, a digit
    /// `1` to `8`, nor `/`.
    InvalidPieceChar,
    /// The placement field does not describe eight ranks of eight squares.
    InvalidPlacement,
    /// The side field is neither `w` nor `b`.
    InvalidSide,
    /// The castling field holds a byte other than `K`, `Q`, `k`, `q` and `-`.
    InvalidCastling,
    /// The en-passant field is neither `-` nor the name of a square.
    InvalidEnPassant,
    /// A counter field is not a decimal number that fits its width.
    InvalidCounter,
    /// A side does not have exactly one king.
    InvalidKings,
    /// The position cannot come about in a game: the kings stand next to
    /// each other, the side that has moved is in check, more than two pieces
    /// give check, or the en-passant target cannot be one.
    ImpossiblePosition,
}

impl Side {
    /// 0 for white, 1 for black.
    pub open spec fn idx(self) -> int {
        match self {
            Side::White => 0,
            Side::Black => 1,
        }
    }

    /// The other side.
    pub open spec fn flip(self) -> Side {
        match self {
            Side::White => Side::Black,
            Side::Black => Side::White,
        }
    }

    /// The other side.
    pub fn update(&self) -> (s: Side)
        ensures
            s == self.flip(),
    {
        match self {
            Side::White => Side::Black,
            Side::Black => Side::White,
        }
    }

    pub fn as_usize(&self) -> (r: usize)
        ensures
            r == self.idx(),
    {
        match self {
            Side::White => 0,
            Side::Black => 1,
        }
    }
}

/// Flipping a side twice gives the side back.
pub proof fn lemma_flip_involution(s: Side)
    ensures
        s.flip().flip() == s,
        s.flip() != s,
{
}

impl PieceType {
    /// 0 for pawn, then knight, bishop, rook, queen, and 5 for king.
    pub open spec fn idx(self) -> int {
        match self {
            PieceType::Pawn => 0,
            PieceType::Knight => 1,
            PieceType::Bishop => 2,
            PieceType::Rook => 3,
            PieceType::Queen => 4,
            PieceType::King => 5,
        }
    }

    /// The kind with the given number.
    pub open spec fn of(i: int) -> PieceType {
        if i == 0 {
            PieceType::Pawn
        } else if i == 1 {
            PieceType::Knight
        } else if i == 2 {
            PieceType::Bishop
        } else if i == 3 {
            PieceType::Rook
        } else if i == 4 {
            PieceType::Queen
        } else {
            PieceType::King
        }
    }

    pub fn as_usize(&self) -> (r: usize)
        ensures
            r == self.idx(),
            r < 6,
    {
        match self {
            PieceType::Pawn => 0,
            PieceType::Knight => 1,
            PieceType::Bishop => 2,
            PieceType::Rook => 3,
            PieceType::Queen => 4,
            PieceType::King => 5,
        }
    }

    /// The kind with the given number.
    pub fn nth(n: usize) -> (p: PieceType)
        requires
            n < 6,
        ensures
            p.idx() == n,
            p == PieceType::of(n as int),
    {
        match n {
            0 => PieceType::Pawn,
            1 => PieceType::Knight,
            2 => PieceType::Bishop,
            3 => PieceType::Rook,
            4 => PieceType::Queen,
            _ => PieceType::King,
        }
    }

    /// The six kinds, pawn first and king last.
    pub fn iter() -> (v: Vec<PieceType>)
        ensures
            v@ == seq![
                PieceType::Pawn,
                PieceType::Knight,
                PieceType::Bishop,
                PieceType::Rook,
                PieceType::Queen,
                PieceType::King,
            ],
    {
        let v = vec![
            PieceType::Pawn,
            PieceType::Knight,
            PieceType::Bishop,
            PieceType::Rook,
            PieceType::Queen,
            PieceType::King,
        ];
        assert(v@ =~= seq![
            PieceType::Pawn,
            PieceType::Knight,
            PieceType::Bishop,
            PieceType::Rook,
            PieceType::Queen,
            PieceType::King,
        ]);
        v
    }

    /// The lower-case letter of the kind in move notation.
    pub open spec fn uci_byte(self) -> u8 {
        match self {
            PieceType::Pawn => 112,
            PieceType::Knight => 110,
            PieceType::Bishop => 98,
            PieceType::Rook => 114,
            PieceType::Queen => 113,
            PieceType::King => 107,
        }
    }

    /// The lower-case letter of the kind in move notation.
    pub fn to_uci_byte(&self) -> (b: u8)
        ensures
            b == self.uci_byte(),
    {
        match self {
            PieceType::Pawn => 112,
            PieceType::Knight => 110,
            PieceType::Bishop => 98,
            PieceType::Rook => 114,
            PieceType::Queen => 113,
            PieceType::King => 107,
        }
    }

    /// The lower-case letter of the kind in move notation.
    pub fn to_uci_char(&self) -> (c: char)
        ensures
            c as u32 == self.uci_byte(),
            c as u8 == self.uci_byte(),
    {
        match self {
            PieceType::Pawn => 'p',
            PieceType::Knight => 'n',
            PieceType::Bishop => 'b',
            PieceType::Rook => 'r',
            PieceType::Queen => 'q',
            PieceType::King => 'k',
        }
    }
}

impl SliderType {
    /// The piece kind that the slider kind stands for.
    pub open spec fn piece_type(self) -> PieceType {
        match self {
            SliderType::Bishop => PieceType::Bishop,
            SliderType::Rook => PieceType::Rook,
            SliderType::Queen => PieceType::Queen,
        }
    }

    /// The piece kind that the slider kind stands for.
    pub fn to_piece_type(self) -> (p: PieceType)
        ensures
            p == self.piece_type(),
    {
        match self {
            SliderType::Bishop => PieceType::Bishop,
            SliderType::Rook => PieceType::Rook,
            SliderType::Queen => PieceType::Queen,
        }
    }
}

/// The piece that a letter names: upper case for white, lower case for black.
pub open spec fn piece_of_byte(b: u8) -> Option<ChessPiece> {
    if b == 75 {
        Some(ChessPiece(Side::White, PieceType::King))
    } else if b == 81 {
        Some(ChessPiece(Side::White, PieceType::Queen))
    } else if b == 78 {
        Some(ChessPiece(Side::White, PieceType::Knight))
    } else if b == 66 {
        Some(ChessPiece(Side::White, PieceType::Bishop))
    } else if b == 82 {
        Some(ChessPiece(Side::White, PieceType::Rook))
    } else if b == 80 {
        Some(ChessPiece(Side::White, PieceType::Pawn))
    } else if b == 107 {
        Some(ChessPiece(Side::Black, PieceType::King))
    } else if b == 113 {
        Some(ChessPiece(Side::Black, PieceType::Queen))
    } else if b == 110 {
        Some(ChessPiece(Side::Black, PieceType::Knight))
    } else if b == 98 {
        Some(ChessPiece(Side::Black, PieceType::Bishop))
    } else if b == 114 {
        Some(ChessPiece(Side::Black, PieceType::Rook))
    } else if b == 112 {
        Some(ChessPiece(Side::Black, PieceType::Pawn))
    } else {
        None
    }
}

impl ChessPiece {
    pub fn new(side: Side, piece_type: PieceType) -> (p: ChessPiece)
        ensures
            p == ChessPiece(side, piece_type),
    {
        ChessPiece(side, piece_type)
    }

    pub fn data(&self) -> (r: (Side, PieceType))
        ensures
            r == (self.0, self.1),
    {
        (self.0, self.1)
    }

    /// The number of the piece: six times the side's number plus the kind's.
    pub open spec fn idx(self) -> int {
        self.0.idx() * 6 + self.1.idx()
    }

    /// The piece with the given number.
    pub open spec fn of(i: int) -> ChessPiece {
        if i < 6 {
            ChessPiece(Side::White, PieceType::of(i))
        } else {
            ChessPiece(Side::Black, PieceType::of(i - 6))
        }
    }

    /// The number of a piece lies in `0..12`, and it names the piece.
    pub proof fn lemma_idx(self)
        ensures
            0 <= self.idx() < 12,
            ChessPiece::of(self.idx()) == self,
    {
    }

    /// The number of the piece: six times the side's number plus the kind's.
    pub fn to_index(&self) -> (r: usize)
        ensures
            r == self.idx(),
            r < 12,
    {
        self.0.as_usize() * 6 + self.1.as_usize()
    }

    /// The piece with the given number.
    pub fn nth(n: usize) -> (p: ChessPiece)
        requires
            n < 12,
        ensures
            p == ChessPiece::of(n as int),
            p.idx() == n,
    {
        if n < 6 {
            ChessPiece(Side::White, PieceType::nth(n))
        } else {
            ChessPiece(Side::Black, PieceType::nth(n - 6))
        }
    }

    /// The letter of the piece: upper case for white, lower case for black.
    pub open spec fn symbol(self) -> u8 {
        match self {
            ChessPiece(Side::White, PieceType::King) => 75,
            ChessPiece(Side::White, PieceType::Queen) => 81,
            ChessPiece(Side::White, PieceType::Knight) => 78,
            ChessPiece(Side::White, PieceType::Bishop) => 66,
            ChessPiece(Side::White, PieceType::Rook) => 82,
            ChessPiece(Side::White, PieceType::Pawn) => 80,
            ChessPiece(Side::Black, PieceType::King) => 107,
            ChessPiece(Side::Black, PieceType::Queen) => 113,
            ChessPiece(Side::Black, PieceType::Knight) => 110,
            ChessPiece(Side::Black, PieceType::Bishop) => 98,
            ChessPiece(Side::Black, PieceType::Rook) => 114,
            ChessPiece(Side::Black, PieceType::Pawn) => 112,
        }
    }

    /// The letter of the piece as a character: the letter that names the
    /// piece, upper case for white and lower case for black.
    pub fn to_ascii(&self) -> (c: char)
        ensures
            c as u32 == self.symbol(),
            c as u8 == self.symbol(),
            piece_of_byte(c as u8) == Some(*self),
    {
        match self {
            ChessPiece(Side::White, PieceType::King) => 'K',
            ChessPiece(Side::White, PieceType::Queen) => 'Q',
            ChessPiece(Side::White, PieceType::Knight) => 'N',
            ChessPiece(Side::White, PieceType::Bishop) => 'B',
            ChessPiece(Side::White, PieceType::Rook) => 'R',
            ChessPiece(Side::White, PieceType::Pawn) => 'P',
            ChessPiece(Side::Black, PieceType::King) => 'k',
            ChessPiece(Side::Black, PieceType::Queen) => 'q',
            ChessPiece(Side::Black, PieceType::Knight) => 'n',
            ChessPiece(Side::Black, PieceType::Bishop) => 'b',
            ChessPiece(Side::Black, PieceType::Rook) => 'r',
            ChessPiece(Side::Black, PieceType::Pawn) => 'p',
        }
    }

    /// The letter of the piece as a byte.
    pub fn to_byte(&self) -> (b: u8)
        ensures
            b == self.symbol(),
    {
        match self {
            ChessPiece(Side::White, PieceType::King) => 75,
            ChessPiece(Side::White, PieceType::Queen) => 81,
            ChessPiece(Side::White, PieceType::Knight) => 78,
            ChessPiece(Side::White, PieceType::Bishop) => 66,
            ChessPiece(Side::White, PieceType::Rook) => 82,
            ChessPiece(Side::White, PieceType::Pawn) => 80,
            ChessPiece(Side::Black, PieceType::King) => 107,
            ChessPiece(Side::Black, PieceType::Queen) => 113,
            ChessPiece(Side::Black, PieceType::Knight) => 110,
            ChessPiece(Side::Black, PieceType::Bishop) => 98,
            ChessPiece(Side::Black, PieceType::Rook) => 114,
            ChessPiece(Side::Black, PieceType::Pawn) => 112,
        }
    }

    /// The piece that a letter names; an error for any other byte.
    pub fn from_byte(b: u8) -> (r: Result<ChessPiece, FenError>)
        ensures
            match r {
                Ok(p) => piece_of_byte(b) == Some(p),
                Err(e) => piece_of_byte(b) is None && e == FenError::InvalidPieceChar,
            },
    {
        if b == 75 {
            Ok(ChessPiece(Side::White, PieceType::King))
        } else if b == 81 {
            Ok(ChessPiece(Side::White, PieceType::Queen))
        } else if b == 78 {
            Ok(ChessPiece(Side::White, PieceType::Knight))
        } else if b == 66 {
            Ok(ChessPiece(Side::White, PieceType::Bishop))
        } else if b == 82 {
            Ok(ChessPiece(Side::White, PieceType::Rook))
        } else if b == 80 {
            Ok(ChessPiece(Side::White, PieceType::Pawn))
        } else if b == 107 {
            Ok(ChessPiece(Side::Black, PieceType::King))
        } else if b == 113 {
            Ok(ChessPiece(Side::Black, PieceType::Queen))
        } else if b == 110 {
            Ok(ChessPiece(Side::Black, PieceType::Knight))
        } else if b == 98 {
            Ok(ChessPiece(Side::Black, PieceType::Bishop))
        } else if b == 114 {
            Ok(ChessPiece(Side::Black, PieceType::Rook))
        } else if b == 112 {
            Ok(ChessPiece(Side::Black, PieceType::Pawn))
        } else {
            Err(FenError::InvalidPieceChar)
        }
    }

    /// The piece that a character names; an error for any other character.
    pub fn try_from(c: char) -> (r: Result<ChessPiece, FenError>)
        ensures
            match r {
                Ok(p) => c as u32 <= 0x7f && piece_of_byte(c as u8) == Some(p),
                Err(e) => (c as u32 > 0x7f || piece_of_byte(c as u8) is None) && e
                    == FenError::InvalidPieceChar,
            },
    {
        let n = c as u32;
        if n > 0x7f {
            Err(FenError::InvalidPieceChar)
        } else {
            ChessPiece::from_byte(n as u8)
        }
    }

    /// The white pieces, king first: king, queen, knight, bishop, rook, pawn.
    pub fn white_iter() -> (v: Vec<ChessPiece>)
        ensures
            v@ == side_pieces(Side::White),
    {
        let v = vec![
            ChessPiece(Side::White, PieceType::King),
            ChessPiece(Side::White, PieceType::Queen),
            ChessPiece(Side::White, PieceType::Knight),
            ChessPiece(Side::White, PieceType::Bishop),
            ChessPiece(Side::White, PieceType::Rook),
            ChessPiece(Side::White, PieceType::Pawn),
        ];
        assert(v@ =~= side_pieces(Side::White));
        v
    }

    /// The black pieces, king first: king, queen, knight, bishop, rook, pawn.
    pub fn black_iter() -> (v: Vec<ChessPiece>)
        ensures
            v@ == side_pieces(Side::Black),
    {
        let v = vec![
            ChessPiece(Side::Black, PieceType::King),
            ChessPiece(Side::Black, PieceType::Queen),
            ChessPiece(Side::Black, PieceType::Knight),
            ChessPiece(Side::Black, PieceType::Bishop),
            ChessPiece(Side::Black, PieceType::Rook),
            ChessPiece(Side::Black, PieceType::Pawn),
        ];
        assert(v@ =~= side_pieces(Side::Black));
        v
    }

    /// All twelve pieces in the order of their numbers.
    pub fn iter() -> (v: Vec<ChessPiece>)
        ensures
            v@.len() == 12,
            forall|i: int| 0 <= i < 12 ==> #[trigger] v@[i] == ChessPiece::of(i),
    {
        let mut v: Vec<ChessPiece> = Vec::new();
        let mut i: usize = 0;
        while i < 12
            invariant
                i <= 12,
                v@.len() == i,
                forall|k: int| 0 <= k < i ==> #[trigger] v@[k] == ChessPiece::of(k),
            decreases 12 - i,
        {
            v.push(ChessPiece::nth(i));
            i += 1;
        }
        v
    }
}

/// The six pieces of a side, king first.
pub open spec fn side_pieces(s: Side) -> Seq<ChessPiece> {
    seq![
        ChessPiece(s, PieceType::King),
        ChessPiece(s, PieceType::Queen),
        ChessPiece(s, PieceType::Knight),
        ChessPiece(s, PieceType::Bishop),
        ChessPiece(s, PieceType::Rook),
        ChessPiece(s, PieceType::Pawn),
    ]
}

/// The letter of a piece names that piece.
pub proof fn lemma_symbol_round_trip(p: ChessPiece)
    ensures
        piece_of_byte(p.symbol()) == Some(p),
{
}

/// The number of a piece in the order of its letters `KQNBRPkqnbrp`.
pub open spec fn symbol_rank(b: u8) -> Option<int> {
    if b == 75 {
        Some(0)
    } else if b == 81 {
        Some(1)
    } else if b == 78 {
        Some(2)
    } else if b == 66 {
        Some(3)
    } else if b == 82 {
        Some(4)
    } else if b == 80 {
        Some(5)
    } else if b == 107 {
        Some(6)
    } else if b == 113 {
        Some(7)
    } else if b == 110 {
        Some(8)
    } else if b == 98 {
        Some(9)
    } else if b == 114 {
        Some(10)
    } else if b == 112 {
        Some(11)
    } else {
        None
    }
}

/// The number of a piece: pawn, knight, bishop, rook, queen, king of white, then of black.
pub fn cp_index(data: ChessPiece) -> (r: usize)
    ensures
        r == data.idx(),
        r < 12,
{
    data.to_index()
}

/// The place of a piece letter in `KQNBRPkqnbrp`.
pub fn sym_index(c: char) -> (r: usize)
    requires
        c as u32 <= 0x7f,
        symbol_rank(c as u8) is Some,
    ensures
        Some(r as int) == symbol_rank(c as u8),
{
    let b = (c as u32) as u8;
    if b == 75 {
        0
    } else if b == 81 {
        1
    } else if b == 78 {
        2
    } else if b == 66 {
        3
    } else if b == 82 {
        4
    } else if b == 80 {
        5
    } else if b == 107 {
        6
    } else if b == 113 {
        7
    } else if b == 110 {
        8
    } else if b == 98 {
        9
    } else if b == 114 {
        10
    } else {
        11
    }
}

/// The piece that a letter names.
pub fn chess_piece(c: char) -> (p: ChessPiece)
    requires
        c as u32 <= 0x7f,
        piece_of_byte(c as u8) is Some,
    ensures
        Some(p) == piece_of_byte(c as u8),
{
    match ChessPiece::from_byte((c as u32) as u8) {
        Ok(p) => p,
        Err(_) => vstd::pervasive::unreached(),
    }
}

} // verus!
