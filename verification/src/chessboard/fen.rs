//! Positions as text: six fields separated by white space, which name the
//! placement of the pieces rank by rank from the eighth rank down, the side to
//! move, the castling rights, the en-passant target and the two counters.

use vstd::prelude::*;
use vstd::slice::slice_subrange;
use vstd::string::*;
use crate::attack::AttackTables;
use crate::bitboard::Bitboard;
use crate::bits::{lowest, single};
use crate::chessboard::mailbox::OptionMailbox;
use crate::chessboard::position::Position;
use crate::chessboard::{position_of, validity_error, ChessBoard};
use crate::chessmove::{chars_of, text_of};
use crate::chesspiece::{piece_of_byte, ChessPiece, FenError, Side};
use crate::square::{name_of_square, square_of_name, Square};

verus! {

/// Whether a byte is white space: space, tab, line feed, form feed or carriage return.
pub open spec fn is_ws(b: u8) -> bool {
    b == 32 || b == 9 || b == 10 || b == 12 || b == 13
}

/// The first place from `i` on that does not hold white space; the length if there is none.
pub open spec fn skip_ws(s: Seq<u8>, i: int) -> int
    decreases s.len() - i,
{
    if 0 <= i < s.len() && is_ws(s[i]) {
        skip_ws(s, i + 1)
    } else {
        i
    }
}

/// The first place from `i` on that holds white space; the length if there is none.
pub open spec fn token_end(s: Seq<u8>, i: int) -> int
    decreases s.len() - i,
{
    if 0 <= i < s.len() && !is_ws(s[i]) {
        token_end(s, i + 1)
    } else {
        i
    }
}

/// The board without pieces.
pub open spec fn empty_board() -> Seq<Option<ChessPiece>> {
    Seq::new(64, |i: int| None::<ChessPiece>)
}

/// Reads the placement field from place `i` on, with `board` filled so far and
/// the next square at file `file` of rank `rank`. A letter puts a piece on the
/// next square, a digit leaves that many squares empty, and `/` ends a rank of
/// eight squares. The field must end with the first rank complete.
pub open spec fn place_from(
    tok: Seq<u8>,
    i: int,
    rank: int,
    file: int,
    board: Seq<Option<ChessPiece>>,
) -> Result<Seq<Option<ChessPiece>>, FenError>
    decreases tok.len() - i,
{
    if i < 0 || i >= tok.len() {
        if rank == 0 && file == 8 {
            Ok(board)
        } else {
            Err(FenError::InvalidPlacement)
        }
    } else if tok[i] == 47 {
        if file == 8 && rank > 0 {
            place_from(tok, i + 1, rank - 1, 0, board)
        } else {
            Err(FenError::InvalidPlacement)
        }
    } else if 49 <= tok[i] <= 56 {
        if file + (tok[i] - 48) <= 8 {
            place_from(tok, i + 1, rank, file + (tok[i] - 48), board)
        } else {
            Err(FenError::InvalidPlacement)
        }
    } else if piece_of_byte(tok[i]) is Some {
        if file < 8 {
            place_from(tok, i + 1, rank, file + 1, board.update(rank * 8 + file, piece_of_byte(tok[i])))
        } else {
            Err(FenError::InvalidPlacement)
        }
    } else {
        Err(FenError::InvalidPieceChar)
    }
}

/// What the placement field describes.
pub open spec fn placement_of(tok: Seq<u8>) -> Result<Seq<Option<ChessPiece>>, FenError> {
    place_from(tok, 0, 7, 0, empty_board())
}

/// The side that the side field names: `w` or `b`.
pub open spec fn side_of(tok: Seq<u8>) -> Option<Side> {
    if tok == seq![119u8] {
        Some(Side::White)
    } else if tok == seq![98u8] {
        Some(Side::Black)
    } else {
        None
    }
}

/// Reads the castling field from place `i` on: `K`, `Q`, `k` and `q` each
/// grant a right, `-` grants none, and no other byte may occur.
pub open spec fn rights_from(tok: Seq<u8>, i: int, acc: Seq<bool>) -> Option<Seq<bool>>
    decreases tok.len() - i,
{
    if i < 0 || i >= tok.len() {
        Some(acc)
    } else if tok[i] == 45 {
        rights_from(tok, i + 1, acc)
    } else if tok[i] == 75 {
        rights_from(tok, i + 1, acc.update(0, true))
    } else if tok[i] == 81 {
        rights_from(tok, i + 1, acc.update(1, true))
    } else if tok[i] == 107 {
        rights_from(tok, i + 1, acc.update(2, true))
    } else if tok[i] == 113 {
        rights_from(tok, i + 1, acc.update(3, true))
    } else {
        None
    }
}

/// The rights that the castling field grants.
pub open spec fn rights_of(tok: Seq<u8>) -> Option<Seq<bool>> {
    rights_from(tok, 0, seq![false, false, false, false])
}

/// The en-passant target that the field names: none for `-`, else the square with that name.
pub open spec fn ep_of(tok: Seq<u8>) -> Option<u64> {
    if tok == seq![45u8] {
        Some(0)
    } else {
        match square_of_name(tok) {
            Some(s) => Some(single(s.idx())),
            None => None,
        }
    }
}

/// The number that the first `n` bytes spell in decimal digits, if they are
/// digits and the number is at most 65535.
pub open spec fn digits_value(tok: Seq<u8>, n: int) -> Option<int>
    decreases n,
{
    if n <= 0 {
        Some(0)
    } else {
        match digits_value(tok, n - 1) {
            Some(v) => if 48 <= tok[n - 1] <= 57 && v * 10 + (tok[n - 1] - 48) <= 65535 {
                Some(v * 10 + (tok[n - 1] - 48))
            } else {
                None
            },
            None => None,
        }
    }
}

/// The number that a counter field spells; zero for a field that is missing.
pub open spec fn counter_of(tok: Seq<u8>) -> Option<int> {
    digits_value(tok, tok.len() as int)
}

/// The position that a text describes, or why it describes none. Fields
/// beyond the sixth are not looked at.
pub open spec fn fen_position(s: Seq<u8>) -> Result<Position, FenError> {
    let a0 = skip_ws(s, 0);
    let b0 = token_end(s, a0);
    let a1 = skip_ws(s, b0);
    let b1 = token_end(s, a1);
    let a2 = skip_ws(s, b1);
    let b2 = token_end(s, a2);
    let a3 = skip_ws(s, b2);
    let b3 = token_end(s, a3);
    let a4 = skip_ws(s, b3);
    let b4 = token_end(s, a4);
    let a5 = skip_ws(s, b4);
    let b5 = token_end(s, a5);
    if a0 == b0 {
        Err(FenError::MissingField)
    } else if placement_of(s.subrange(a0, b0)) is Err {
        Err(placement_of(s.subrange(a0, b0))->Err_0)
    } else if a1 == b1 {
        Err(FenError::MissingField)
    } else if side_of(s.subrange(a1, b1)) is None {
        Err(FenError::InvalidSide)
    } else if a2 == b2 {
        Err(FenError::MissingField)
    } else if rights_of(s.subrange(a2, b2)) is None {
        Err(FenError::InvalidCastling)
    } else if a3 == b3 {
        Err(FenError::MissingField)
    } else if ep_of(s.subrange(a3, b3)) is None {
        Err(FenError::InvalidEnPassant)
    } else if counter_of(s.subrange(a4, b4)) is None || counter_of(s.subrange(a5, b5)) is None {
        Err(FenError::InvalidCounter)
    } else {
        Ok(
            position_of(
                placement_of(s.subrange(a0, b0))->Ok_0,
                rights_of(s.subrange(a2, b2))->0,
                ep_of(s.subrange(a3, b3))->0,
                side_of(s.subrange(a1, b1))->0,
                counter_of(s.subrange(a4, b4))->0,
                counter_of(s.subrange(a5, b5))->0,
            ),
        )
    }
}

/// Why a text gives no position, if it gives none: it describes none, or what
/// it describes is not valid.
pub open spec fn fen_error(s: Seq<u8>) -> Option<FenError> {
    match fen_position(s) {
        Err(e) => Some(e),
        Ok(pos) => validity_error(pos),
    }
}

/// The next field from place `from` on: where it starts and where it ends.
pub fn next_token(s: &[u8], from: usize) -> (r: (usize, usize))
    requires
        from <= s@.len(),
    ensures
        r.0 == skip_ws(s@, from as int),
        r.1 == token_end(s@, r.0 as int),
        from <= r.0 <= r.1 <= s@.len(),
{
    let mut a = from;
    while a < s.len() && (s[a] == 32 || s[a] == 9 || s[a] == 10 || s[a] == 12 || s[a] == 13)
        invariant
            from <= a <= s@.len(),
            skip_ws(s@, a as int) == skip_ws(s@, from as int),
        decreases s@.len() - a,
    {
        a += 1;
    }
    let mut b = a;
    while b < s.len() && !(s[b] == 32 || s[b] == 9 || s[b] == 10 || s[b] == 12 || s[b] == 13)
        invariant
            a <= b <= s@.len(),
            token_end(s@, b as int) == token_end(s@, a as int),
        decreases s@.len() - b,
    {
        b += 1;
    }
    (a, b)
}

/// Reads the placement field.
pub fn parse_placement(tok: &[u8]) -> (r: Result<OptionMailbox, FenError>)
    ensures
        match r {
            Ok(m) => placement_of(tok@) == Ok::<Seq<Option<ChessPiece>>, FenError>(m@),
            Err(e) => placement_of(tok@) == Err::<Seq<Option<ChessPiece>>, FenError>(e),
        },
{
    let mut mailbox = OptionMailbox::empty();
    assert(mailbox@ =~= empty_board());
    let mut rank: usize = 7;
    let mut file: usize = 0;
    let mut i: usize = 0;
    while i < tok.len()
        invariant
            i <= tok@.len(),
            rank <= 7,
            file <= 8,
            mailbox@.len() == 64,
            place_from(tok@, i as int, rank as int, file as int, mailbox@) == placement_of(tok@),
        decreases tok@.len() - i,
    {
        let c = tok[i];
        if c == 47 {
            if file == 8 && rank > 0 {
                rank = rank - 1;
                file = 0;
            } else {
                return Err(FenError::InvalidPlacement);
            }
        } else if 49 <= c && c <= 56 {
            let n = (c - 48) as usize;
            if file + n <= 8 {
                file = file + n;
            } else {
                return Err(FenError::InvalidPlacement);
            }
        } else {
            match ChessPiece::from_byte(c) {
                Ok(p) => {
                    if file < 8 {
                        mailbox.set(Some(p), Square::nth(rank * 8 + file));
                        file = file + 1;
                    } else {
                        return Err(FenError::InvalidPlacement);
                    }
                },
                Err(e) => {
                    return Err(e);
                },
            }
        }
        i += 1;
    }
    if rank == 0 && file == 8 {
        Ok(mailbox)
    } else {
        Err(FenError::InvalidPlacement)
    }
}

/// Reads the side field.
pub fn parse_side(tok: &[u8]) -> (r: Option<Side>)
    ensures
        r == side_of(tok@),
{
    if tok.len() == 1 && tok[0] == 119 {
        assert(tok@ =~= seq![119u8]);
        Some(Side::White)
    } else if tok.len() == 1 && tok[0] == 98 {
        assert(tok@ =~= seq![98u8]);
        Some(Side::Black)
    } else {
        proof {
            if tok@ == seq![119u8] || tok@ == seq![98u8] {
                assert(tok@.len() == 1);
                assert(tok@[0] == seq![119u8][0] || tok@[0] == seq![98u8][0]);
            }
        }
        None
    }
}

/// Reads the castling field.
pub fn parse_rights(tok: &[u8]) -> (r: Option<[bool; 4]>)
    ensures
        match r {
            Some(c) => rights_of(tok@) == Some(c@),
            None => rights_of(tok@) is None,
        },
{
    let mut castle: [bool; 4] = [false, false, false, false];
    assert(castle@ =~= seq![false, false, false, false]);
    let mut i: usize = 0;
    while i < tok.len()
        invariant
            i <= tok@.len(),
            rights_from(tok@, i as int, castle@) == rights_of(tok@),
        decreases tok@.len() - i,
    {
        let c = tok[i];
        if c == 45 {
        } else if c == 75 {
            castle[0] = true;
        } else if c == 81 {
            castle[1] = true;
        } else if c == 107 {
            castle[2] = true;
        } else if c == 113 {
            castle[3] = true;
        } else {
            return None;
        }
        i += 1;
    }
    Some(castle)
}

/// Reads the en-passant field.
pub fn parse_enpassant(tok: &[u8]) -> (r: Option<Bitboard>)
    ensures
        match r {
            Some(b) => ep_of(tok@) == Some(b.0),
            None => ep_of(tok@) is None,
        },
{
    if tok.len() == 1 && tok[0] == 45 {
        assert(tok@ =~= seq![45u8]);
        Some(Bitboard(0))
    } else {
        proof {
            if tok@ == seq![45u8] {
                assert(tok@.len() == 1);
                assert(tok@[0] == seq![45u8][0]);
            }
        }
        match Square::parse_bytes(tok) {
            Some(s) => Some(Bitboard::nth(s)),
            None => None,
        }
    }
}

/// Reads a counter field.
pub fn parse_counter(tok: &[u8]) -> (r: Option<u16>)
    ensures
        match r {
            Some(n) => counter_of(tok@) == Some(n as int),
            None => counter_of(tok@) is None,
        },
{
    let mut v: u32 = 0;
    let mut i: usize = 0;
    while i < tok.len()
        invariant
            i <= tok@.len(),
            v <= 65535,
            digits_value(tok@, i as int) == Some(v as int),
        decreases tok@.len() - i,
    {
        let c = tok[i];
        if c < 48 || c > 57 {
            proof {
                lemma_digits_stay_none(tok@, i as int + 1, tok@.len() as int);
            }
            return None;
        }
        let next = v * 10 + (c - 48) as u32;
        if next > 65535 {
            proof {
                lemma_digits_stay_none(tok@, i as int + 1, tok@.len() as int);
            }
            return None;
        }
        v = next;
        i += 1;
    }
    Some(v as u16)
}

/// Once a prefix spells no number, no longer prefix does.
pub proof fn lemma_digits_stay_none(tok: Seq<u8>, n: int, m: int)
    requires
        0 <= n <= m,
        digits_value(tok, n) is None,
    ensures
        digits_value(tok, m) is None,
    decreases m - n,
{
    if n < m {
        lemma_digits_stay_none(tok, n, m - 1);
    }
}

impl ChessBoard {
    /// Reads a position from the bytes of its text. The text must describe a
    /// position, and the position must be valid: one king on each side,
    /// castling rights only with king and rook at home, and an en-passant
    /// target only behind a pawn that can have just advanced two ranks.
    pub fn parse_fen(t: &AttackTables, input: &[u8]) -> (r: Result<ChessBoard, FenError>)
        requires
            t.wf(),
        ensures
            match r {
                Ok(b) => b.wf() && fen_position(input@) == Ok::<Position, FenError>(b@),
                Err(e) => fen_error(input@) == Some(e),
            },
    {
        let (a0, b0) = next_token(input, 0);
        let (a1, b1) = next_token(input, b0);
        let (a2, b2) = next_token(input, b1);
        let (a3, b3) = next_token(input, b2);
        let (a4, b4) = next_token(input, b3);
        let (a5, b5) = next_token(input, b4);
        if a0 == b0 {
            return Err(FenError::MissingField);
        }
        let mailbox = match parse_placement(slice_subrange(input, a0, b0)) {
            Ok(m) => m,
            Err(e) => {
                return Err(e);
            },
        };
        if a1 == b1 {
            return Err(FenError::MissingField);
        }
        let side = match parse_side(slice_subrange(input, a1, b1)) {
            Some(s) => s,
            None => {
                return Err(FenError::InvalidSide);
            },
        };
        if a2 == b2 {
            return Err(FenError::MissingField);
        }
        let castle = match parse_rights(slice_subrange(input, a2, b2)) {
            Some(c) => c,
            None => {
                return Err(FenError::InvalidCastling);
            },
        };
        if a3 == b3 {
            return Err(FenError::MissingField);
        }
        let ep = match parse_enpassant(slice_subrange(input, a3, b3)) {
            Some(e) => e,
            None => {
                return Err(FenError::InvalidEnPassant);
            },
        };
        let halfmove = match parse_counter(slice_subrange(input, a4, b4)) {
            Some(n) => n,
            None => {
                return Err(FenError::InvalidCounter);
            },
        };
        let fullmove = match parse_counter(slice_subrange(input, a5, b5)) {
            Some(n) => n,
            None => {
                return Err(FenError::InvalidCounter);
            },
        };
        ChessBoard::from_parts(t, mailbox, side, castle, ep, halfmove, fullmove)
    }

    /// Reads a position from its text, which must describe a valid position.
    pub fn from_fen(t: &AttackTables, input: &str) -> (b: ChessBoard)
        requires
            t.wf(),
            fen_error(input.spec_bytes()) is None,
        ensures
            b.wf(),
            fen_position(input.spec_bytes()) == Ok::<Position, FenError>(b@),
    {
        match ChessBoard::parse_fen(t, input.as_bytes()) {
            Ok(b) => b,
            Err(_) => vstd::pervasive::unreached(),
        }
    }
}

/// The digit that stands for a run of empty squares; nothing for no run.
pub open spec fn flush(run: int) -> Seq<u8> {
    if run <= 0 {
        Seq::empty()
    } else {
        seq![(48 + run) as u8]
    }
}

/// The number of the square that comes `k`-th in the placement field, which
/// lists the eighth rank first and each rank from file a to file h.
pub open spec fn text_square(k: int) -> int {
    (7 - k / 8) * 8 + k % 8
}

/// The placement field from the `k`-th square on, with `run` empty squares
/// before it on its rank that are not written yet.
pub open spec fn render_from(board: Seq<Option<ChessPiece>>, k: int, run: int) -> Seq<u8>
    decreases 64 - k,
{
    if k >= 64 {
        flush(run)
    } else {
        let boundary = k % 8 == 0 && k > 0;
        let sep = if boundary {
            flush(run) + seq![47u8]
        } else {
            Seq::empty()
        };
        let run2 = if boundary {
            0
        } else {
            run
        };
        match board[text_square(k)] {
            None => sep + render_from(board, k + 1, run2 + 1),
            Some(p) => sep + flush(run2) + seq![p.symbol()] + render_from(board, k + 1, 0),
        }
    }
}

/// The placement field of a board.
pub open spec fn placement_text(board: Seq<Option<ChessPiece>>) -> Seq<u8> {
    render_from(board, 0, 0)
}

/// The side field: `w` or `b`.
pub open spec fn side_text(side: Side) -> Seq<u8> {
    match side {
        Side::White => seq![119u8],
        Side::Black => seq![98u8],
    }
}

/// The letters of the rights that are held, in the order `KQkq`.
pub open spec fn rights_letters(castle: Seq<bool>) -> Seq<u8> {
    (if castle[0] {
        seq![75u8]
    } else {
        Seq::empty()
    }) + (if castle[1] {
        seq![81u8]
    } else {
        Seq::empty()
    }) + (if castle[2] {
        seq![107u8]
    } else {
        Seq::empty()
    }) + (if castle[3] {
        seq![113u8]
    } else {
        Seq::empty()
    })
}

/// The castling field: the letters of the rights that are held, or `-` if none is.
pub open spec fn rights_text(castle: Seq<bool>) -> Seq<u8> {
    if rights_letters(castle).len() == 0 {
        seq![45u8]
    } else {
        rights_letters(castle)
    }
}

/// The en-passant field: the name of the target square, or `-` if there is none.
pub open spec fn ep_text(ep: u64) -> Seq<u8> {
    if ep == 0 {
        seq![45u8]
    } else {
        name_of_square(lowest(ep))
    }
}

/// A number in decimal digits.
pub open spec fn decimal_text(n: int) -> Seq<u8>
    decreases n,
{
    if n < 10 {
        seq![(48 + n) as u8]
    } else {
        decimal_text(n / 10) + seq![(48 + n % 10) as u8]
    }
}

/// The text of a position: its six fields with one space between them.
pub open spec fn fen_text(pos: Position) -> Seq<u8> {
    placement_text(pos.board) + seq![32u8] + side_text(pos.side) + seq![32u8] + rights_text(
        pos.castle,
    ) + seq![32u8] + ep_text(pos.ep) + seq![32u8] + decimal_text(pos.halfmove) + seq![32u8]
        + decimal_text(pos.fullmove)
}

/// Appends a number in decimal digits.
pub fn push_decimal(n: u16, out: &mut Vec<u8>)
    ensures
        final(out)@ == old(out)@ + decimal_text(n as int),
    decreases n,
{
    if n < 10 {
        out.push(48 + n as u8);
        assert(out@ =~= old(out)@ + decimal_text(n as int));
    } else {
        push_decimal(n / 10, out);
        out.push(48 + (n % 10) as u8);
        assert(out@ =~= old(out)@ + decimal_text(n as int));
    }
}

/// Appends the placement field of a mailbox.
#[verifier::rlimit(40)]
pub fn push_placement(mailbox: &OptionMailbox, out: &mut Vec<u8>)
    ensures
        final(out)@ == old(out)@ + placement_text(mailbox@),
{
    let ghost board = mailbox@;
    let ghost all = placement_text(board);
    let mut run: u8 = 0;
    let mut k: usize = 0;
    assert(out@ + all =~= old(out)@ + all);
    while k < 64
        invariant
            k <= 64,
            board == mailbox@,
            all == placement_text(board),
            run <= 8,
            k % 8 != 0 ==> run <= k % 8,
            k == 0 ==> run == 0,
            out@ + render_from(board, k as int, run as int) == old(out)@ + all,
        decreases 64 - k,
    {
        let ghost before = out@;
        let ghost whole = render_from(board, k as int, run as int);
        let ghost run0 = run as int;
        if k % 8 == 0 && k > 0 {
            if run > 0 {
                out.push(48 + run);
            }
            out.push(47);
            run = 0;
        }
        let ghost mid = out@;
        assert(mid =~= before + (if k % 8 == 0 && k > 0 {
            flush(run0) + seq![47u8]
        } else {
            Seq::<u8>::empty()
        }));
        match mailbox.index((7 - k / 8) * 8 + k % 8) {
            None => {
                run = run + 1;
                assert(out@ + render_from(board, k + 1, run as int) =~= before + whole);
            },
            Some(p) => {
                let ghost run2 = run as int;
                if run > 0 {
                    out.push(48 + run);
                }
                out.push(p.to_byte());
                run = 0;
                assert(out@ =~= mid + flush(run2) + seq![p.symbol()]);
                assert(out@ + render_from(board, k + 1, 0) =~= before + whole);
            },
        }
        k += 1;
    }
    if run > 0 {
        out.push(48 + run);
    }
    assert(out@ =~= old(out)@ + all);
}

/// Appends the castling field.
pub fn push_rights(castle: &[bool; 4], out: &mut Vec<u8>)
    ensures
        final(out)@ == old(out)@ + rights_text(castle@),
{
    let ghost letters = rights_letters(castle@);
    if !castle[0] && !castle[1] && !castle[2] && !castle[3] {
        out.push(45);
        assert(letters =~= Seq::<u8>::empty());
        assert(out@ =~= old(out)@ + rights_text(castle@));
    } else {
        if castle[0] {
            out.push(75);
        }
        if castle[1] {
            out.push(81);
        }
        if castle[2] {
            out.push(107);
        }
        if castle[3] {
            out.push(113);
        }
        assert(out@ =~= old(out)@ + letters);
        assert(letters.len() > 0);
    }
}

impl ChessBoard {
    /// The text of the position, as bytes.
    #[verifier::rlimit(40)]
    pub fn to_fen_bytes(&self) -> (v: Vec<u8>)
        ensures
            v@ == fen_text(self@),
    {
        let mut v: Vec<u8> = Vec::new();
        push_placement(&self.mailbox, &mut v);
        v.push(32);
        match self.data.side_to_move {
            Side::White => v.push(119),
            Side::Black => v.push(98),
        }
        v.push(32);
        push_rights(&self.data.castle_bools, &mut v);
        v.push(32);
        match self.data.enpassant_bb.lsb_square() {
            Some(s) => {
                let name = s.name();
                v.push(name[0]);
                v.push(name[1]);
            },
            None => {
                v.push(45);
            },
        }
        v.push(32);
        push_decimal(self.data.fifty_move_rule_counter, &mut v);
        v.push(32);
        push_decimal(self.data.full_move_counter, &mut v);
        assert(v@ =~= fen_text(self@));
        v
    }

    /// The text of the position.
    pub fn to_fen(&self) -> (s: String)
        ensures
            s@ == chars_of(fen_text(self@)),
    {
        text_of(&self.to_fen_bytes())
    }
}

} // verus!
