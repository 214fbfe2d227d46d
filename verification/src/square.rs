//! Board squares and files.
//!
//! Squares are numbered from 0 (a1) to 63 (h8), rank by rank: the rank of a
//! square is `index / 8` and its file is `index % 8`.

use vstd::prelude::*;
use vstd::string::*;

verus! {

/// A file of the board, `A` to `H`.
#[derive(Debug, Copy, Clone, PartialEq, Eq, Structural)]
pub enum Column {
    A,
    B,
    C,
    D,
    E,
    F,
    G,
    H,
}

impl Column {
    /// The number of the file, 0 for `A` up to 7 for `H`.
    pub open spec fn idx(self) -> int {
        match self {
            Column::A => 0,
            Column::B => 1,
            Column::C => 2,
            Column::D => 3,
            Column::E => 4,
            Column::F => 5,
            Column::G => 6,
            Column::H => 7,
        }
    }

    /// The file with the given number.
    pub fn nth(index: usize) -> (c: Column)
        requires
            index < 8,
        ensures
            c.idx() == index,
    {
        match index {
            0 => Column::A,
            1 => Column::B,
            2 => Column::C,
            3 => Column::D,
            4 => Column::E,
            5 => Column::F,
            6 => Column::G,
            _ => Column::H,
        }
    }
}

/// A square of the board.
#[derive(Debug, Copy, Clone, PartialEq, Eq, Structural)]
pub enum Square {
    A1, B1, C1, D1, E1, F1, G1, H1,
    A2, B2, C2, D2, E2, F2, G2, H2,
    A3, B3, C3, D3, E3, F3, G3, H3,
    A4, B4, C4, D4, E4, F4, G4, H4,
    A5, B5, C5, D5, E5, F5, G5, H5,
    A6, B6, C6, D6, E6, F6, G6, H6,
    A7, B7, C7, D7, E7, F7, G7, H7,
    A8, B8, C8, D8, E8, F8, G8, H8,
}

/// The rank of square number `i`.
pub open spec fn row_of(i: int) -> int {
    i / 8
}

/// The file of square number `i`.
pub open spec fn col_of(i: int) -> int {
    i % 8
}

/// Whether `i` is the number of a square.
pub open spec fn on_board(i: int) -> bool {
    0 <= i < 64
}

impl Square {
    /// The number of the square, 0 for a1 up to 63 for h8.
    pub open spec fn idx(self) -> int {
        match self {
            Square::A1 => 0,
            Square::B1 => 1,
            Square::C1 => 2,
            Square::D1 => 3,
            Square::E1 => 4,
            Square::F1 => 5,
            Square::G1 => 6,
            Square::H1 => 7,
            Square::A2 => 8,
            Square::B2 => 9,
            Square::C2 => 10,
            Square::D2 => 11,
            Square::E2 => 12,
            Square::F2 => 13,
            Square::G2 => 14,
            Square::H2 => 15,
            Square::A3 => 16,
            Square::B3 => 17,
            Square::C3 => 18,
            Square::D3 => 19,
            Square::E3 => 20,
            Square::F3 => 21,
            Square::G3 => 22,
            Square::H3 => 23,
            Square::A4 => 24,
            Square::B4 => 25,
            Square::C4 => 26,
            Square::D4 => 27,
            Square::E4 => 28,
            Square::F4 => 29,
            Square::G4 => 30,
            Square::H4 => 31,
            Square::A5 => 32,
            Square::B5 => 33,
            Square::C5 => 34,
            Square::D5 => 35,
            Square::E5 => 36,
            Square::F5 => 37,
            Square::G5 => 38,
            Square::H5 => 39,
            Square::A6 => 40,
            Square::B6 => 41,
            Square::C6 => 42,
            Square::D6 => 43,
            Square::E6 => 44,
            Square::F6 => 45,
            Square::G6 => 46,
            Square::H6 => 47,
            Square::A7 => 48,
            Square::B7 => 49,
            Square::C7 => 50,
            Square::D7 => 51,
            Square::E7 => 52,
            Square::F7 => 53,
            Square::G7 => 54,
            Square::H7 => 55,
            Square::A8 => 56,
            Square::B8 => 57,
            Square::C8 => 58,
            Square::D8 => 59,
            Square::E8 => 60,
            Square::F8 => 61,
            Square::G8 => 62,
            Square::H8 => 63,
        }
    }

    /// The square with the given number.
    pub open spec fn of(i: int) -> Square
        recommends
            on_board(i),
    {
        if i == 0 {
            Square::A1
        } else if i == 1 {
            Square::B1
        } else if i == 2 {
            Square::C1
        } else if i == 3 {
            Square::D1
        } else if i == 4 {
            Square::E1
        } else if i == 5 {
            Square::F1
        } else if i == 6 {
            Square::G1
        } else if i == 7 {
            Square::H1
        } else if i == 8 {
            Square::A2
        } else if i == 9 {
            Square::B2
        } else if i == 10 {
            Square::C2
        } else if i == 11 {
            Square::D2
        } else if i == 12 {
            Square::E2
        } else if i == 13 {
            Square::F2
        } else if i == 14 {
            Square::G2
        } else if i == 15 {
            Square::H2
        } else if i == 16 {
            Square::A3
        } else if i == 17 {
            Square::B3
        } else if i == 18 {
            Square::C3
        } else if i == 19 {
            Square::D3
        } else if i == 20 {
            Square::E3
        } else if i == 21 {
            Square::F3
        } else if i == 22 {
            Square::G3
        } else if i == 23 {
            Square::H3
        } else if i == 24 {
            Square::A4
        } else if i == 25 {
            Square::B4
        } else if i == 26 {
            Square::C4
        } else if i == 27 {
            Square::D4
        } else if i == 28 {
            Square::E4
        } else if i == 29 {
            Square::F4
        } else if i == 30 {
            Square::G4
        } else if i == 31 {
            Square::H4
        } else if i == 32 {
            Square::A5
        } else if i == 33 {
            Square::B5
        } else if i == 34 {
            Square::C5
        } else if i == 35 {
            Square::D5
        } else if i == 36 {
            Square::E5
        } else if i == 37 {
            Square::F5
        } else if i == 38 {
            Square::G5
        } else if i == 39 {
            Square::H5
        } else if i == 40 {
            Square::A6
        } else if i == 41 {
            Square::B6
        } else if i == 42 {
            Square::C6
        } else if i == 43 {
            Square::D6
        } else if i == 44 {
            Square::E6
        } else if i == 45 {
            Square::F6
        } else if i == 46 {
            Square::G6
        } else if i == 47 {
            Square::H6
        } else if i == 48 {
            Square::A7
        } else if i == 49 {
            Square::B7
        } else if i == 50 {
            Square::C7
        } else if i == 51 {
            Square::D7
        } else if i == 52 {
            Square::E7
        } else if i == 53 {
            Square::F7
        } else if i == 54 {
            Square::G7
        } else if i == 55 {
            Square::H7
        } else if i == 56 {
            Square::A8
        } else if i == 57 {
            Square::B8
        } else if i == 58 {
            Square::C8
        } else if i == 59 {
            Square::D8
        } else if i == 60 {
            Square::E8
        } else if i == 61 {
            Square::F8
        } else if i == 62 {
            Square::G8
        } else {
            Square::H8
        }
    }

    /// The number of a square lies in `0..64`, and it names the square.
    pub proof fn lemma_idx(self)
        ensures
            0 <= self.idx() < 64,
            Square::of(self.idx()) == self,
    {
    }

    /// Every number in `0..64` is the number of the square it names.
    pub proof fn lemma_of(i: int)
        requires
            on_board(i),
        ensures
            Square::of(i).idx() == i,
    {
    }

    pub fn as_usize(&self) -> (r: usize)
        ensures
            r == self.idx(),
            r < 64,
    {
        match self {
            Square::A1 => 0,
            Square::B1 => 1,
            Square::C1 => 2,
            Square::D1 => 3,
            Square::E1 => 4,
            Square::F1 => 5,
            Square::G1 => 6,
            Square::H1 => 7,
            Square::A2 => 8,
            Square::B2 => 9,
            Square::C2 => 10,
            Square::D2 => 11,
            Square::E2 => 12,
            Square::F2 => 13,
            Square::G2 => 14,
            Square::H2 => 15,
            Square::A3 => 16,
            Square::B3 => 17,
            Square::C3 => 18,
            Square::D3 => 19,
            Square::E3 => 20,
            Square::F3 => 21,
            Square::G3 => 22,
            Square::H3 => 23,
            Square::A4 => 24,
            Square::B4 => 25,
            Square::C4 => 26,
            Square::D4 => 27,
            Square::E4 => 28,
            Square::F4 => 29,
            Square::G4 => 30,
            Square::H4 => 31,
            Square::A5 => 32,
            Square::B5 => 33,
            Square::C5 => 34,
            Square::D5 => 35,
            Square::E5 => 36,
            Square::F5 => 37,
            Square::G5 => 38,
            Square::H5 => 39,
            Square::A6 => 40,
            Square::B6 => 41,
            Square::C6 => 42,
            Square::D6 => 43,
            Square::E6 => 44,
            Square::F6 => 45,
            Square::G6 => 46,
            Square::H6 => 47,
            Square::A7 => 48,
            Square::B7 => 49,
            Square::C7 => 50,
            Square::D7 => 51,
            Square::E7 => 52,
            Square::F7 => 53,
            Square::G7 => 54,
            Square::H7 => 55,
            Square::A8 => 56,
            Square::B8 => 57,
            Square::C8 => 58,
            Square::D8 => 59,
            Square::E8 => 60,
            Square::F8 => 61,
            Square::G8 => 62,
            Square::H8 => 63,
        }
    }

    /// The square with the given number.
    pub fn nth(n: usize) -> (s: Square)
        requires
            n < 64,
        ensures
            s.idx() == n,
            s == Square::of(n as int),
    {
        match n {
            0 => Square::A1,
            1 => Square::B1,
            2 => Square::C1,
            3 => Square::D1,
            4 => Square::E1,
            5 => Square::F1,
            6 => Square::G1,
            7 => Square::H1,
            8 => Square::A2,
            9 => Square::B2,
            10 => Square::C2,
            11 => Square::D2,
            12 => Square::E2,
            13 => Square::F2,
            14 => Square::G2,
            15 => Square::H2,
            16 => Square::A3,
            17 => Square::B3,
            18 => Square::C3,
            19 => Square::D3,
            20 => Square::E3,
            21 => Square::F3,
            22 => Square::G3,
            23 => Square::H3,
            24 => Square::A4,
            25 => Square::B4,
            26 => Square::C4,
            27 => Square::D4,
            28 => Square::E4,
            29 => Square::F4,
            30 => Square::G4,
            31 => Square::H4,
            32 => Square::A5,
            33 => Square::B5,
            34 => Square::C5,
            35 => Square::D5,
            36 => Square::E5,
            37 => Square::F5,
            38 => Square::G5,
            39 => Square::H5,
            40 => Square::A6,
            41 => Square::B6,
            42 => Square::C6,
            43 => Square::D6,
            44 => Square::E6,
            45 => Square::F6,
            46 => Square::G6,
            47 => Square::H6,
            48 => Square::A7,
            49 => Square::B7,
            50 => Square::C7,
            51 => Square::D7,
            52 => Square::E7,
            53 => Square::F7,
            54 => Square::G7,
            55 => Square::H7,
            56 => Square::A8,
            57 => Square::B8,
            58 => Square::C8,
            59 => Square::D8,
            60 => Square::E8,
            61 => Square::F8,
            62 => Square::G8,
            _ => Square::H8,
        }
    }

    /// The number of the square mirrored top to bottom: same file, rank `7 - rank`.
    pub fn as_usize_flipped(&self) -> (r: usize)
        ensures
            r == (7 - row_of(self.idx())) * 8 + col_of(self.idx()),
            r < 64,
    {
        let i = self.as_usize();
        (7 - i / 8) * 8 + i % 8
    }

    pub fn as_u8(&self) -> (r: u8)
        ensures
            r == self.idx(),
    {
        let i = self.as_usize();
        i as u8
    }

    /// The number of the square's file, 0 to 7.
    pub fn as_col_usize(&self) -> (r: usize)
        ensures
            r == col_of(self.idx()),
            r < 8,
    {
        self.as_usize() % 8
    }

    /// The square's file.
    pub fn as_col(&self) -> (c: Column)
        ensures
            c.idx() == col_of(self.idx()),
    {
        Column::nth(self.as_usize() % 8)
    }

    /// The number of the square's rank, 0 to 7.
    pub fn as_row_usize(&self) -> (r: usize)
        ensures
            r == row_of(self.idx()),
            r < 8,
    {
        self.as_usize() / 8
    }

    /// Whether two squares lie on one rank.
    pub fn is_same_row(s1: Square, s2: Square) -> (r: bool)
        ensures
            r == (row_of(s1.idx()) == row_of(s2.idx())),
    {
        s1.as_row_usize() == s2.as_row_usize()
    }

    /// Whether two squares lie on one file.
    pub fn is_same_col(s1: Square, s2: Square) -> (r: bool)
        ensures
            r == (col_of(s1.idx()) == col_of(s2.idx())),
    {
        s1.as_col_usize() == s2.as_col_usize()
    }

    /// Whether two squares lie on one falling diagonal (rank plus file is constant).
    pub fn is_same_ddiag(s1: Square, s2: Square) -> (r: bool)
        ensures
            r == same_ddiag(s1.idx(), s2.idx()),
    {
        s1.as_row_usize() + s1.as_col_usize() == s2.as_row_usize() + s2.as_col_usize()
    }

    /// Whether two squares lie on one rising diagonal (rank minus file is constant).
    pub fn is_same_adiag(s1: Square, s2: Square) -> (r: bool)
        ensures
            r == same_adiag(s1.idx(), s2.idx()),
    {
        s1.as_row_usize() + s2.as_col_usize() == s2.as_row_usize() + s1.as_col_usize()
    }

    /// Whether three squares lie on one diagonal.
    pub fn is_same_diag(s1: Square, s2: Square, s3: Square) -> (r: bool)
        ensures
            r == (same_adiag(s1.idx(), s2.idx()) && same_adiag(s2.idx(), s3.idx()) || same_ddiag(
                s1.idx(),
                s2.idx(),
            ) && same_ddiag(s2.idx(), s3.idx())),
    {
        Square::is_same_adiag(s1, s2) && Square::is_same_adiag(s2, s3) || Square::is_same_ddiag(
            s1,
            s2,
        ) && Square::is_same_ddiag(s2, s3)
    }

    /// The square one number lower.
    pub fn left(&self) -> (s: Square)
        requires
            self.idx() >= 1,
        ensures
            s.idx() == self.idx() - 1,
    {
        Square::nth(self.as_usize() - 1)
    }

    /// The square one number higher.
    pub fn right(&self) -> (s: Square)
        requires
            self.idx() < 63,
        ensures
            s.idx() == self.idx() + 1,
    {
        Square::nth(self.as_usize() + 1)
    }

    /// The square one rank up.
    pub fn up(&self) -> (s: Square)
        requires
            self.idx() < 56,
        ensures
            s.idx() == self.idx() + 8,
    {
        Square::nth(self.as_usize() + 8)
    }

    /// The square one rank down.
    pub fn down(&self) -> (s: Square)
        requires
            self.idx() >= 8,
        ensures
            s.idx() == self.idx() - 8,
    {
        Square::nth(self.as_usize() - 8)
    }

    /// The square two ranks up.
    pub fn upup(&self) -> (s: Square)
        requires
            self.idx() < 48,
        ensures
            s.idx() == self.idx() + 16,
    {
        Square::nth(self.as_usize() + 16)
    }

    /// The square two ranks down.
    pub fn downdown(&self) -> (s: Square)
        requires
            self.idx() >= 16,
        ensures
            s.idx() == self.idx() - 16,
    {
        Square::nth(self.as_usize() - 16)
    }

    /// All squares, in the order of their numbers.
    pub fn iter() -> (v: Vec<Square>)
        ensures
            v@.len() == 64,
            forall|i: int| 0 <= i < 64 ==> (#[trigger] v@[i]).idx() == i,
    {
        let mut v: Vec<Square> = Vec::new();
        let mut i: usize = 0;
        while i < 64
            invariant
                i <= 64,
                v@.len() == i,
                forall|k: int| 0 <= k < i ==> (#[trigger] v@[k]).idx() == k,
            decreases 64 - i,
        {
            v.push(Square::nth(i));
            i += 1;
        }
        v
    }

    /// Reads a square from its two-letter name, a file letter (either case)
    /// followed by a rank digit; `None` for any other text.
    pub fn parse_bytes(token: &[u8]) -> (r: Option<Square>)
        ensures
            r == square_of_name(token@),
    {
        if token.len() != 2 {
            return None;
        }
        let f = token[0];
        let d = token[1];
        let col: usize = if 97 <= f && f <= 104 {
            (f - 97) as usize
        } else if 65 <= f && f <= 72 {
            (f - 65) as usize
        } else {
            return None;
        };
        if 49 <= d && d <= 56 {
            let row: usize = (d - 49) as usize;
            Some(Square::nth(row * 8 + col))
        } else {
            None
        }
    }

    /// Reads a square from its two-letter name, such as `e4` or `E4`.
    pub fn parse_str(token: &str) -> (s: Square)
        requires
            square_of_name(token.spec_bytes()) is Some,
        ensures
            Some(s) == square_of_name(token.spec_bytes()),
    {
        match Square::parse_bytes(token.as_bytes()) {
            Some(s) => s,
            None => vstd::pervasive::unreached(),
        }
    }

    /// The two-letter lower-case name of the square: file letter, then rank digit.
    pub fn name(&self) -> (r: [u8; 2])
        ensures
            r@ == name_of_square(self.idx()),
    {
        let i = self.as_usize();
        let r: [u8; 2] = [(97 + i % 8) as u8, (49 + i / 8) as u8];
        assert(r@ =~= name_of_square(self.idx()));
        r
    }
}

/// Whether squares `i` and `j` lie on one falling diagonal.
pub open spec fn same_ddiag(i: int, j: int) -> bool {
    row_of(i) + col_of(i) == row_of(j) + col_of(j)
}

/// Whether squares `i` and `j` lie on one rising diagonal.
pub open spec fn same_adiag(i: int, j: int) -> bool {
    row_of(i) - col_of(i) == row_of(j) - col_of(j)
}

/// The file number that a letter names, in either case.
pub open spec fn file_of_letter(b: u8) -> Option<int> {
    if 97 <= b <= 104 {
        Some(b - 97)
    } else if 65 <= b <= 72 {
        Some(b - 65)
    } else {
        None
    }
}

/// The square that a two-byte name denotes, if it is one.
pub open spec fn square_of_name(t: Seq<u8>) -> Option<Square> {
    if t.len() == 2 && file_of_letter(t[0]) is Some && 49 <= t[1] <= 56 {
        Some(Square::of((t[1] - 49) * 8 + file_of_letter(t[0])->0))
    } else {
        None
    }
}

/// The lower-case name of square number `i`.
pub open spec fn name_of_square(i: int) -> Seq<u8> {
    seq![(97 + col_of(i)) as u8, (49 + row_of(i)) as u8]
}

/// Reading the name of a square gives the square back.
pub proof fn lemma_name_round_trip(s: Square)
    ensures
        square_of_name(name_of_square(s.idx())) == Some(s),
{
    s.lemma_idx();
    let i = s.idx();
    let t = name_of_square(i);
    assert(t.len() == 2);
    assert(t[0] == (97 + col_of(i)) as u8);
    assert(t[1] == (49 + row_of(i)) as u8);
    assert((t[1] - 49) * 8 + (t[0] - 97) == i);
}

} // verus!
