//! Reading the text of a position gives the position back.

use vstd::prelude::*;
use crate::bits::{is_single, lemma_is_single, lowest};
use crate::chessboard::fen::{
    counter_of, decimal_text, digits_value, empty_board, ep_of, ep_text, fen_error, fen_position,
    fen_text,
    flush, is_ws, place_from, placement_of, placement_text, render_from, rights_from,
    rights_letters, rights_of, rights_text, side_of, side_text, skip_ws, text_square, token_end,
};
use crate::chessboard::position::Position;
use crate::chessboard::{ep_ok, ChessBoard};
use crate::chesspiece::{lemma_symbol_round_trip, piece_of_byte, ChessPiece, FenError};
use crate::square::{lemma_name_round_trip, name_of_square, Square};

verus! {

/// Whether a text holds no white space.
pub open spec fn no_ws(s: Seq<u8>) -> bool {
    forall|i: int| 0 <= i < s.len() ==> !is_ws(#[trigger] s[i])
}

/// Reading a placement from place `j + 1` of a text is reading it from place
/// `j` of the text without its first byte.
proof fn lemma_place_shift(
    c: u8,
    rest: Seq<u8>,
    j: int,
    rank: int,
    file: int,
    board: Seq<Option<ChessPiece>>,
)
    requires
        0 <= j,
    ensures
        place_from(seq![c] + rest, j + 1, rank, file, board) == place_from(
            rest,
            j,
            rank,
            file,
            board,
        ),
    decreases rest.len() - j,
{
    let tok = seq![c] + rest;
    if j < rest.len() {
        assert(tok[j + 1] == rest[j]);
        let x = rest[j];
        if x == 47 {
            lemma_place_shift(c, rest, j + 1, rank - 1, 0, board);
        } else if 49 <= x <= 56 {
            lemma_place_shift(c, rest, j + 1, rank, file + (x - 48), board);
        } else if piece_of_byte(x) is Some {
            lemma_place_shift(
                c,
                rest,
                j + 1,
                rank,
                file + 1,
                board.update(rank * 8 + file, piece_of_byte(x)),
            );
        }
    }
}

/// What reading the first byte of a placement does.
pub open spec fn place_step(
    c: u8,
    rest: Seq<u8>,
    rank: int,
    file: int,
    board: Seq<Option<ChessPiece>>,
) -> Result<Seq<Option<ChessPiece>>, FenError> {
    if c == 47 {
        if file == 8 && rank > 0 {
            place_from(rest, 0, rank - 1, 0, board)
        } else {
            Err(FenError::InvalidPlacement)
        }
    } else if 49 <= c <= 56 {
        if file + (c - 48) <= 8 {
            place_from(rest, 0, rank, file + (c - 48), board)
        } else {
            Err(FenError::InvalidPlacement)
        }
    } else if piece_of_byte(c) is Some {
        if file < 8 {
            place_from(rest, 0, rank, file + 1, board.update(rank * 8 + file, piece_of_byte(c)))
        } else {
            Err(FenError::InvalidPlacement)
        }
    } else {
        Err(FenError::InvalidPieceChar)
    }
}

/// Reading a placement is reading its first byte and then the rest.
proof fn lemma_place_first(
    c: u8,
    rest: Seq<u8>,
    rank: int,
    file: int,
    board: Seq<Option<ChessPiece>>,
)
    ensures
        place_from(seq![c] + rest, 0, rank, file, board) == place_step(c, rest, rank, file, board),
{
    let tok = seq![c] + rest;
    assert(tok[0] == c);
    assert(tok.len() > 0);
    lemma_place_shift(c, rest, 0, rank - 1, 0, board);
    lemma_place_shift(c, rest, 0, rank, file + (c - 48), board);
    lemma_place_shift(c, rest, 0, rank, file + 1, board.update(rank * 8 + file, piece_of_byte(c)));
}

/// Reading the digit of a run of empty squares moves the file by the run.
proof fn lemma_place_flush(
    run: int,
    rest: Seq<u8>,
    rank: int,
    file: int,
    board: Seq<Option<ChessPiece>>,
)
    requires
        0 <= run <= 8,
        0 <= file,
        file + run <= 8,
    ensures
        place_from(flush(run) + rest, 0, rank, file, board) == place_from(
            rest,
            0,
            rank,
            file + run,
            board,
        ),
{
    if run == 0 {
        assert(flush(run) + rest =~= rest);
    } else {
        assert(flush(run) + rest =~= seq![(48 + run) as u8] + rest);
        lemma_place_first((48 + run) as u8, rest, rank, file, board);
    }
}

/// Whether `acc` holds what `target` holds on the squares that come before
/// the `k`-th in the text, and nothing on the others.
#[verifier::opaque]
pub open spec fn filled(
    acc: Seq<Option<ChessPiece>>,
    target: Seq<Option<ChessPiece>>,
    k: int,
) -> bool {
    &&& acc.len() == 64
    &&& forall|s: int|
        0 <= s < 64 ==> #[trigger] acc[s] == (if text_square(s) < k {
            target[s]
        } else {
            None
        })
}

/// The square that comes `k`-th in the text comes `k`-th in the text.
proof fn lemma_text_square(s: int)
    requires
        0 <= s < 64,
    ensures
        0 <= text_square(s) < 64,
        text_square(text_square(s)) == s,
{
}

/// Nothing is filled before the first square.
proof fn lemma_filled_start(target: Seq<Option<ChessPiece>>)
    ensures
        filled(empty_board(), target, 0),
{
    reveal(filled);
    assert forall|s: int| 0 <= s < 64 implies text_square(s) >= 0 by {
        lemma_text_square(s);
    }
}

/// With all squares filled the board is complete.
proof fn lemma_filled_end(acc: Seq<Option<ChessPiece>>, target: Seq<Option<ChessPiece>>)
    requires
        target.len() == 64,
        filled(acc, target, 64),
    ensures
        acc == target,
{
    reveal(filled);
    assert forall|s: int| 0 <= s < 64 implies acc[s] == target[s] by {
        lemma_text_square(s);
    }
    assert(acc =~= target);
}

/// Passing an empty square, or putting the piece of the target on the next
/// square, fills one square more.
proof fn lemma_filled_next(acc: Seq<Option<ChessPiece>>, target: Seq<Option<ChessPiece>>, k: int)
    requires
        target.len() == 64,
        0 <= k < 64,
        filled(acc, target, k),
    ensures
        filled(acc.update(text_square(k), target[text_square(k)]), target, k + 1),
        target[text_square(k)] is None ==> filled(acc, target, k + 1),
{
    reveal(filled);
    let sq = text_square(k);
    lemma_text_square(k);
    let acc2 = acc.update(sq, target[sq]);
    assert forall|s: int| 0 <= s < 64 implies #[trigger] acc2[s] == (if text_square(s) < k + 1 {
        target[s]
    } else {
        None
    }) by {
        lemma_text_square(s);
    }
    if target[sq] is None {
        assert(acc2 =~= acc);
    }
}

/// The rank at which the reader stands before the `k`-th square.
pub open spec fn reader_rank(k: int) -> int {
    if k == 0 {
        7
    } else {
        7 - (k - 1) / 8
    }
}

/// The file at which the reader stands before the `k`-th square when `run`
/// empty squares are not written yet.
pub open spec fn reader_file(k: int, run: int) -> int {
    if k == 0 {
        0
    } else {
        (k - 1) % 8 + 1 - run
    }
}

/// Where the reader stands once the run and the end of a rank are read.
proof fn lemma_reader(k: int, run: int)
    requires
        0 <= k < 64,
        0 <= run,
        k == 0 ==> run == 0,
        k > 0 ==> run <= (k - 1) % 8 + 1,
    ensures
        0 <= reader_file(k, run),
        reader_file(k, run) + run <= 8,
        reader_rank(k + 1) == 7 - k / 8,
        k % 8 == 0 && k > 0 ==> reader_file(k, run) + run == 8 && reader_rank(k) > 0 && reader_rank(
            k,
        ) - 1 == 7 - k / 8,
        !(k % 8 == 0 && k > 0) ==> reader_rank(k) == 7 - k / 8 && reader_file(k, run) + run == k
            % 8,
        (7 - k / 8) * 8 + k % 8 == text_square(k),
{
}

/// Reading a rank's end, if the `k`-th square starts a rank, and then the
/// rest, is reading the rest from the start of the next rank.
proof fn lemma_render_sep(
    k: int,
    run: int,
    body: Seq<u8>,
    acc: Seq<Option<ChessPiece>>,
)
    requires
        0 <= k < 64,
        0 <= run,
        k == 0 ==> run == 0,
        k > 0 ==> run <= (k - 1) % 8 + 1,
    ensures
        k % 8 == 0 && k > 0 ==> place_from(
            flush(run) + seq![47u8] + body,
            0,
            reader_rank(k),
            reader_file(k, run),
            acc,
        ) == place_from(body, 0, 7 - k / 8, 0, acc),
{
    lemma_reader(k, run);
    if k % 8 == 0 && k > 0 {
        let rank = reader_rank(k);
        let file = reader_file(k, run);
        assert(flush(run) + seq![47u8] + body =~= flush(run) + (seq![47u8] + body));
        lemma_place_flush(run, seq![47u8] + body, rank, file, acc);
        lemma_place_first(47u8, body, rank, 8, acc);
    }
}

/// Reading a piece's letter after the run before it puts the piece on its square.
proof fn lemma_render_piece(
    p: ChessPiece,
    run: int,
    rest: Seq<u8>,
    rank: int,
    file: int,
    acc: Seq<Option<ChessPiece>>,
)
    requires
        0 <= run <= 8,
        0 <= file,
        file + run < 8,
    ensures
        place_from(flush(run) + seq![p.symbol()] + rest, 0, rank, file, acc) == place_from(
            rest,
            0,
            rank,
            file + run + 1,
            acc.update(rank * 8 + file + run, Some(p)),
        ),
{
    lemma_symbol_round_trip(p);
    assert(flush(run) + seq![p.symbol()] + rest =~= flush(run) + (seq![p.symbol()] + rest));
    lemma_place_flush(run, seq![p.symbol()] + rest, rank, file, acc);
    lemma_place_first(p.symbol(), rest, rank, file + run, acc);
}

/// Reading what is written from the `k`-th square on completes the board.
proof fn lemma_render_parse(
    target: Seq<Option<ChessPiece>>,
    acc: Seq<Option<ChessPiece>>,
    k: int,
    run: int,
)
    requires
        target.len() == 64,
        filled(acc, target, k),
        0 <= k <= 64,
        0 <= run,
        k == 0 ==> run == 0,
        k > 0 ==> run <= (k - 1) % 8 + 1,
    ensures
        place_from(render_from(target, k, run), 0, reader_rank(k), reader_file(k, run), acc) == Ok::<
            Seq<Option<ChessPiece>>,
            FenError,
        >(target),
    decreases 64 - k,
{
    let rank = reader_rank(k);
    let file = reader_file(k, run);
    let text = render_from(target, k, run);
    if k >= 64 {
        assert(text =~= flush(run) + Seq::<u8>::empty());
        lemma_place_flush(run, Seq::empty(), rank, file, acc);
        lemma_filled_end(acc, target);
    } else {
        let sq = text_square(k);
        let boundary = k % 8 == 0 && k > 0;
        let rank2 = 7 - k / 8;
        let run2 = if boundary {
            0
        } else {
            run
        };
        lemma_reader(k, run);
        lemma_filled_next(acc, target, k);
        match target[sq] {
            None => {
                let tail = render_from(target, k + 1, run2 + 1);
                lemma_render_parse(target, acc, k + 1, run2 + 1);
                if boundary {
                    assert(text == flush(run) + seq![47u8] + tail);
                    lemma_render_sep(k, run, tail, acc);
                } else {
                    assert(text =~= tail);
                }
            },
            Some(p) => {
                let rest = render_from(target, k + 1, 0);
                let acc2 = acc.update(sq, Some(p));
                lemma_render_parse(target, acc2, k + 1, 0);
                if boundary {
                    let body = flush(0) + seq![p.symbol()] + rest;
                    assert(text =~= flush(run) + seq![47u8] + body);
                    lemma_render_sep(k, run, body, acc);
                    lemma_render_piece(p, 0, rest, rank2, 0, acc);
                } else {
                    assert(text =~= flush(run) + seq![p.symbol()] + rest);
                    lemma_render_piece(p, run, rest, rank, file, acc);
                }
            },
        }
    }
}

/// Reading the placement field of a board gives the board.
pub proof fn lemma_placement_round_trip(board: Seq<Option<ChessPiece>>)
    requires
        board.len() == 64,
    ensures
        placement_of(placement_text(board)) == Ok::<Seq<Option<ChessPiece>>, FenError>(board),
{
    lemma_filled_start(board);
    lemma_render_parse(board, empty_board(), 0, 0);
}

/// Texts without white space give a text without white space when joined.
proof fn lemma_no_ws_add(a: Seq<u8>, b: Seq<u8>)
    requires
        no_ws(a),
        no_ws(b),
    ensures
        no_ws(a + b),
{
    assert forall|i: int| 0 <= i < (a + b).len() implies !is_ws(#[trigger] (a + b)[i]) by {
        if i < a.len() {
            assert((a + b)[i] == a[i]);
        } else {
            assert((a + b)[i] == b[i - a.len()]);
        }
    }
}

/// The placement field holds no white space, and it is not empty.
proof fn lemma_render_no_ws(target: Seq<Option<ChessPiece>>, k: int, run: int)
    requires
        0 <= k <= 64,
        0 <= run,
        k == 0 ==> run == 0,
        k > 0 ==> run <= (k - 1) % 8 + 1,
    ensures
        no_ws(render_from(target, k, run)),
        k < 64 || run > 0 ==> render_from(target, k, run).len() > 0,
    decreases 64 - k,
{
    assert(no_ws(flush(run)));
    assert(no_ws(seq![47u8]));
    if k < 64 {
        let boundary = k % 8 == 0 && k > 0;
        let sep = if boundary {
            flush(run) + seq![47u8]
        } else {
            Seq::empty()
        };
        let run2 = if boundary {
            0
        } else {
            run
        };
        lemma_no_ws_add(flush(run), seq![47u8]);
        assert(no_ws(sep));
        match target[text_square(k)] {
            None => {
                lemma_render_no_ws(target, k + 1, run2 + 1);
                lemma_no_ws_add(sep, render_from(target, k + 1, run2 + 1));
            },
            Some(p) => {
                lemma_render_no_ws(target, k + 1, 0);
                assert(no_ws(flush(run2)));
                assert(no_ws(seq![p.symbol()]));
                lemma_no_ws_add(sep, flush(run2));
                lemma_no_ws_add(sep + flush(run2), seq![p.symbol()]);
                lemma_no_ws_add(
                    sep + flush(run2) + seq![p.symbol()],
                    render_from(target, k + 1, 0),
                );
            },
        }
    }
}

/// Reading rights from place `j + 1` of a text is reading them from place `j`
/// of the text without its first byte.
proof fn lemma_rights_shift(c: u8, rest: Seq<u8>, j: int, acc: Seq<bool>)
    requires
        0 <= j,
    ensures
        rights_from(seq![c] + rest, j + 1, acc) == rights_from(rest, j, acc),
    decreases rest.len() - j,
{
    let tok = seq![c] + rest;
    if j < rest.len() {
        assert(tok[j + 1] == rest[j]);
        lemma_rights_shift(c, rest, j + 1, acc);
        lemma_rights_shift(c, rest, j + 1, acc.update(0, true));
        lemma_rights_shift(c, rest, j + 1, acc.update(1, true));
        lemma_rights_shift(c, rest, j + 1, acc.update(2, true));
        lemma_rights_shift(c, rest, j + 1, acc.update(3, true));
    }
}

/// The place of the right that a letter grants.
pub open spec fn right_of_letter(c: u8) -> int {
    if c == 75 {
        0
    } else if c == 81 {
        1
    } else if c == 107 {
        2
    } else {
        3
    }
}

/// Reading the letter of a right, if it is written, grants the right.
proof fn lemma_rights_letter(held: bool, c: u8, rest: Seq<u8>, acc: Seq<bool>)
    requires
        c == 75 || c == 81 || c == 107 || c == 113,
    ensures
        rights_from(
            (if held {
                seq![c]
            } else {
                Seq::empty()
            }) + rest,
            0,
            acc,
        ) == rights_from(
            rest,
            0,
            if held {
                acc.update(right_of_letter(c), true)
            } else {
                acc
            },
        ),
{
    if held {
        let tok = seq![c] + rest;
        assert(tok[0] == c);
        lemma_rights_shift(c, rest, 0, acc.update(right_of_letter(c), true));
    } else {
        assert(Seq::<u8>::empty() + rest =~= rest);
    }
}

/// Reading the castling field of four rights gives the rights.
pub proof fn lemma_rights_round_trip(castle: Seq<bool>)
    requires
        castle.len() == 4,
    ensures
        rights_of(rights_text(castle)) == Some(castle),
        no_ws(rights_text(castle)),
        rights_text(castle).len() > 0,
{
    let none: Seq<bool> = seq![false, false, false, false];
    let l0: Seq<u8> = if castle[0] {
        seq![75u8]
    } else {
        Seq::empty()
    };
    let l1: Seq<u8> = if castle[1] {
        seq![81u8]
    } else {
        Seq::empty()
    };
    let l2: Seq<u8> = if castle[2] {
        seq![107u8]
    } else {
        Seq::empty()
    };
    let l3: Seq<u8> = if castle[3] {
        seq![113u8]
    } else {
        Seq::empty()
    };
    let letters = rights_letters(castle);
    assert(letters == l0 + l1 + l2 + l3);
    assert(no_ws(l0) && no_ws(l1) && no_ws(l2) && no_ws(l3));
    lemma_no_ws_add(l0, l1);
    lemma_no_ws_add(l0 + l1, l2);
    lemma_no_ws_add(l0 + l1 + l2, l3);
    if letters.len() == 0 {
        let dash = seq![45u8];
        assert(dash[0] == 45);
        assert(rights_from(dash, 1, none) == Some(none));
        assert(rights_from(dash, 0, none) == Some(none));
        assert(!castle[0] && !castle[1] && !castle[2] && !castle[3]);
        assert(none =~= castle);
    } else {
        let a1 = if castle[0] {
            none.update(0, true)
        } else {
            none
        };
        let a2 = if castle[1] {
            a1.update(1, true)
        } else {
            a1
        };
        let a3 = if castle[2] {
            a2.update(2, true)
        } else {
            a2
        };
        let a4 = if castle[3] {
            a3.update(3, true)
        } else {
            a3
        };
        assert(letters =~= l0 + (l1 + (l2 + (l3 + Seq::<u8>::empty()))));
        lemma_rights_letter(castle[0], 75, l1 + (l2 + (l3 + Seq::<u8>::empty())), none);
        lemma_rights_letter(castle[1], 81, l2 + (l3 + Seq::<u8>::empty()), a1);
        lemma_rights_letter(castle[2], 107, l3 + Seq::<u8>::empty(), a2);
        lemma_rights_letter(castle[3], 113, Seq::<u8>::empty(), a3);
        assert(rights_from(Seq::<u8>::empty(), 0, a4) == Some(a4));
        assert(a4 =~= castle);
    }
}

/// The number that a prefix of a text spells does not depend on what follows the prefix.
proof fn lemma_digits_prefix(a: Seq<u8>, b: Seq<u8>, n: int)
    requires
        0 <= n <= a.len(),
    ensures
        digits_value(a + b, n) == digits_value(a, n),
    decreases n,
{
    if n > 0 {
        lemma_digits_prefix(a, b, n - 1);
        assert((a + b)[n - 1] == a[n - 1]);
    }
}

/// Reading a number written in decimal digits gives the number.
pub proof fn lemma_counter_round_trip(n: int)
    requires
        0 <= n <= 65535,
    ensures
        counter_of(decimal_text(n)) == Some(n),
        no_ws(decimal_text(n)),
        decimal_text(n).len() > 0,
    decreases n,
{
    if n < 10 {
        let t = seq![(48 + n) as u8];
        assert(t[0] == 48 + n);
        assert(digits_value(t, 0) == Some(0int));
        assert(digits_value(t, 1) == Some(n));
    } else {
        let a = decimal_text(n / 10);
        let d = seq![(48 + n % 10) as u8];
        lemma_counter_round_trip(n / 10);
        lemma_digits_prefix(a, d, a.len() as int);
        assert((a + d)[a.len() as int] == 48 + n % 10);
        assert((a + d).len() == a.len() + 1);
        assert(digits_value(a + d, a.len() as int) == Some(n / 10));
        assert(no_ws(d));
        lemma_no_ws_add(a, d);
    }
}

/// Reading the en-passant field of a target of at most one square gives the target.
pub proof fn lemma_ep_round_trip(ep: u64)
    requires
        ep == 0 || is_single(ep),
    ensures
        ep_of(ep_text(ep)) == Some(ep),
        no_ws(ep_text(ep)),
        ep_text(ep).len() > 0,
{
    if ep == 0 {
        assert(seq![45u8][0] == 45);
    } else {
        lemma_is_single(ep);
        let e = lowest(ep);
        let name = name_of_square(e);
        Square::lemma_of(e);
        lemma_name_round_trip(Square::of(e));
        assert(name.len() == 2);
        assert(seq![45u8].len() == 1);
        assert(name[0] == (97 + e % 8) as u8);
        assert(name[1] == (49 + e / 8) as u8);
    }
}

/// A stretch without white space that ends at white space or at the end of
/// the text is a field that ends there.
proof fn lemma_token_end(s: Seq<u8>, a: int, n: int, j: int)
    requires
        0 <= a,
        0 <= j <= n,
        a + n <= s.len(),
        forall|i: int| a <= i < a + n ==> !is_ws(#[trigger] s[i]),
        a + n == s.len() || is_ws(s[a + n]),
    ensures
        token_end(s, a + j) == a + n,
    decreases n - j,
{
    if j < n {
        lemma_token_end(s, a, n, j + 1);
    }
}

/// Whether `s` holds the field `tok` at place `a`, and the next field, if
/// there is one, one space behind it.
pub open spec fn field_at(s: Seq<u8>, a: int, tok: Seq<u8>, last: bool) -> bool {
    &&& skip_ws(s, a) == a
    &&& token_end(s, a) == a + tok.len()
    &&& s.subrange(a, a + tok.len()) == tok
    &&& !last ==> skip_ws(s, a + tok.len()) == a + tok.len() + 1
}

/// In a text made of a field between what comes before and what comes behind
/// it, the field is found at its place.
proof fn lemma_field(pre: Seq<u8>, tok: Seq<u8>, post: Seq<u8>, last: bool)
    requires
        tok.len() > 0,
        no_ws(tok),
        last ==> post.len() == 0,
        !last ==> post.len() >= 2 && post[0] == 32 && !is_ws(post[1]),
    ensures
        field_at(pre + tok + post, pre.len() as int, tok, last),
{
    let s = pre + tok + post;
    let a = pre.len() as int;
    let n = tok.len() as int;
    assert forall|i: int| a <= i < a + n implies !is_ws(#[trigger] s[i]) by {
        assert(s[i] == tok[i - a]);
    }
    if !last {
        assert(s[a + n] == post[0]);
        assert(s[a + n + 1] == post[1]);
        assert(skip_ws(s, a + n + 1) == a + n + 1);
        assert(skip_ws(s, a + n) == a + n + 1);
    }
    lemma_token_end(s, a, n, 0);
    assert(s[a] == tok[0]);
    assert(s.subrange(a, a + n) =~= tok);
}

/// The text of a position holds its six fields one after the other.
proof fn lemma_fields(
    f0: Seq<u8>,
    f1: Seq<u8>,
    f2: Seq<u8>,
    f3: Seq<u8>,
    f4: Seq<u8>,
    f5: Seq<u8>,
)
    requires
        f0.len() > 0 && no_ws(f0),
        f1.len() > 0 && no_ws(f1),
        f2.len() > 0 && no_ws(f2),
        f3.len() > 0 && no_ws(f3),
        f4.len() > 0 && no_ws(f4),
        f5.len() > 0 && no_ws(f5),
    ensures
        ({
            let sp = seq![32u8];
            let s = f0 + sp + f1 + sp + f2 + sp + f3 + sp + f4 + sp + f5;
            let a1: int = f0.len() as int + 1;
            let a2: int = a1 + f1.len() + 1;
            let a3: int = a2 + f2.len() + 1;
            let a4: int = a3 + f3.len() + 1;
            let a5: int = a4 + f4.len() + 1;
            &&& field_at(s, 0, f0, false)
            &&& field_at(s, a1, f1, false)
            &&& field_at(s, a2, f2, false)
            &&& field_at(s, a3, f3, false)
            &&& field_at(s, a4, f4, false)
            &&& field_at(s, a5, f5, true)
        }),
{
    let sp = seq![32u8];
    let s = f0 + sp + f1 + sp + f2 + sp + f3 + sp + f4 + sp + f5;
    let e = Seq::<u8>::empty();
    let p5 = e;
    let p4 = sp + f5;
    let p3 = sp + f4 + p4;
    let p2 = sp + f3 + p3;
    let p1 = sp + f2 + p2;
    let p0 = sp + f1 + p1;
    assert(p4[0] == 32 && p4[1] == f5[0]);
    assert(p3[0] == 32 && p3[1] == f4[0]);
    assert(p2[0] == 32 && p2[1] == f3[0]);
    assert(p1[0] == 32 && p1[1] == f2[0]);
    assert(p0[0] == 32 && p0[1] == f1[0]);
    let q0 = e;
    let q1 = f0 + sp;
    let q2 = q1 + f1 + sp;
    let q3 = q2 + f2 + sp;
    let q4 = q3 + f3 + sp;
    let q5 = q4 + f4 + sp;
    assert(s =~= q0 + f0 + p0);
    assert(s =~= q1 + f1 + p1);
    assert(s =~= q2 + f2 + p2);
    assert(s =~= q3 + f3 + p3);
    assert(s =~= q4 + f4 + p4);
    assert(s =~= q5 + f5 + p5);
    lemma_field(q0, f0, p0, false);
    lemma_field(q1, f1, p1, false);
    lemma_field(q2, f2, p2, false);
    lemma_field(q3, f3, p3, false);
    lemma_field(q4, f4, p4, false);
    lemma_field(q5, f5, p5, true);
}

/// Whether a position can be written as text and read again: it has 64
/// squares and four rights, an en-passant target of at most one square, and
/// counters that fit into sixteen bits.
pub open spec fn writable(pos: Position) -> bool {
    &&& pos.shaped()
    &&& (pos.ep == 0 || is_single(pos.ep))
    &&& 0 <= pos.halfmove <= 65535
    &&& 0 <= pos.fullmove <= 65535
}

/// Reading the text of a position gives the position back: the same pieces
/// on the same squares, the same rights, the same en-passant target, the same
/// side to move and the same counters.
pub proof fn lemma_fen_round_trip(pos: Position)
    requires
        writable(pos),
    ensures
        fen_position(fen_text(pos)) == Ok::<Position, FenError>(pos),
{
    let f0 = placement_text(pos.board);
    let f1 = side_text(pos.side);
    let f2 = rights_text(pos.castle);
    let f3 = ep_text(pos.ep);
    let f4 = decimal_text(pos.halfmove);
    let f5 = decimal_text(pos.fullmove);
    lemma_placement_round_trip(pos.board);
    lemma_render_no_ws(pos.board, 0, 0);
    assert(f1.len() == 1 && no_ws(f1));
    assert(side_of(f1) == Some(pos.side)) by {
        assert(seq![119u8][0] != seq![98u8][0]);
    }
    lemma_rights_round_trip(pos.castle);
    lemma_ep_round_trip(pos.ep);
    lemma_counter_round_trip(pos.halfmove);
    lemma_counter_round_trip(pos.fullmove);
    lemma_fields(f0, f1, f2, f3, f4, f5);
    let s = fen_text(pos);
    let a1: int = f0.len() as int + 1;
    let a2: int = a1 + f1.len() + 1;
    let a3: int = a2 + f2.len() + 1;
    let a4: int = a3 + f3.len() + 1;
    let a5: int = a4 + f4.len() + 1;
    assert(field_at(s, 0, f0, false));
    assert(field_at(s, a1, f1, false));
    assert(field_at(s, a2, f2, false));
    assert(field_at(s, a3, f3, false));
    assert(field_at(s, a4, f4, false));
    assert(field_at(s, a5, f5, true));
}

/// The text of a well-formed position is read without error and gives a
/// position with the same pieces, rights, en-passant target, side and counters.
pub proof fn lemma_board_round_trip(b: ChessBoard)
    requires
        b.wf(),
    ensures
        fen_position(fen_text(b@)) == Ok::<Position, FenError>(b@),
        fen_error(fen_text(b@)) is None,
{
    assert(ep_ok(b@));
    lemma_fen_round_trip(b@);
}

} // verus!
