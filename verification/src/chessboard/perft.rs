//! Counting the positions that sequences of legal moves of a given length lead to.

use vstd::prelude::*;
use crate::attack::AttackTables;
use crate::chessboard::laws::lemma_legal_applicable;
use crate::chessboard::movegen::legal_moves;
use crate::chessboard::position::Position;
use crate::chessboard::updatestate::apply;
use crate::chessboard::ChessBoard;
use crate::chessmove::{ChessMove, SIZE};

verus! {

/// The number of sequences of `depth` legal moves from a position.
pub open spec fn perft_nodes(pos: Position, depth: nat) -> nat
    decreases depth, 0nat,
{
    if depth == 0 {
        1
    } else {
        sum_nodes(pos, legal_moves(pos), (depth - 1) as nat)
    }
}

/// The number of sequences of `depth` legal moves from the positions that the
/// moves of `moves` lead to, added up.
pub open spec fn sum_nodes(pos: Position, moves: Seq<ChessMove>, depth: nat) -> nat
    decreases depth, moves.len() + 1,
{
    if moves.len() == 0 {
        0
    } else {
        sum_nodes(pos, moves.drop_last(), depth) + perft_nodes(apply(pos, moves.last()), depth)
    }
}

/// Whether no position within `depth` moves of a position has more legal
/// moves than a list can hold.
pub open spec fn within_capacity(pos: Position, depth: nat) -> bool
    decreases depth, 0nat,
{
    depth == 0 || (legal_moves(pos).len() <= SIZE && all_within_capacity(
        pos,
        legal_moves(pos),
        (depth - 1) as nat,
    ))
}

/// Whether `within_capacity` holds of the positions that the moves of `moves` lead to.
pub open spec fn all_within_capacity(pos: Position, moves: Seq<ChessMove>, depth: nat) -> bool
    decreases depth, moves.len() + 1,
{
    moves.len() == 0 || (all_within_capacity(pos, moves.drop_last(), depth) && within_capacity(
        apply(pos, moves.last()),
        depth,
    ))
}

/// Whether the count can be computed: the lists can hold the moves and the
/// count fits into 64 bits.
pub open spec fn countable(pos: Position, depth: nat) -> bool {
    within_capacity(pos, depth) && perft_nodes(pos, depth) <= u64::MAX
}

/// Counting one move short and adding the numbers of legal moves gives the
/// same count: one move from a position there are as many sequences as the
/// position has legal moves.
pub proof fn lemma_bulk(pos: Position)
    ensures
        perft_nodes(pos, 1) == legal_moves(pos).len(),
{
    lemma_sum_leaves(pos, legal_moves(pos));
}

/// The positions that a list of moves leads to count one each at depth zero.
pub proof fn lemma_sum_leaves(pos: Position, moves: Seq<ChessMove>)
    ensures
        sum_nodes(pos, moves, 0) == moves.len(),
    decreases moves.len(),
{
    if moves.len() > 0 {
        lemma_sum_leaves(pos, moves.drop_last());
        assert(perft_nodes(apply(pos, moves.last()), 0) == 1);
    }
}

/// The sum over the first moves of a list is at most the sum over the list,
/// and the lists of the first moves are within capacity if the list is.
pub proof fn lemma_sum_prefix(pos: Position, moves: Seq<ChessMove>, k: int, depth: nat)
    requires
        0 <= k <= moves.len(),
    ensures
        sum_nodes(pos, moves.take(k), depth) <= sum_nodes(pos, moves, depth),
        all_within_capacity(pos, moves, depth) ==> all_within_capacity(pos, moves.take(k), depth),
    decreases moves.len() - k,
{
    if k < moves.len() {
        lemma_sum_prefix(pos, moves.drop_last(), k, depth);
        assert(moves.drop_last().take(k) =~= moves.take(k));
    } else {
        assert(moves.take(k) =~= moves);
    }
}

impl ChessBoard {
    /// The number of sequences of `depth` legal moves from the position, with
    /// the last move of each sequence either made (`IS_BULK` false) or only
    /// counted (`IS_BULK` true). `None` if the count cannot be computed.
    pub fn perft<const IS_BULK: bool>(&self, t: &AttackTables, depth: usize) -> (r: Option<u64>)
        requires
            self.wf(),
            t.wf(),
        ensures
            r matches Some(n) ==> n == perft_nodes(self@, depth as nat),
            r is None <==> !countable(self@, depth as nat),
        decreases depth,
    {
        if depth == 0 {
            return Some(1);
        }
        let ghost pos = self@;
        let ghost d = (depth - 1) as nat;
        let moves = match self.generate_moves(t) {
            Some(l) => l,
            None => {
                return None;
            },
        };
        let n = moves.len();
        let ghost all = legal_moves(pos);
        if IS_BULK {
            if depth == 1 {
                proof {
                    lemma_bulk(pos);
                    lemma_all_leaves(pos, all);
                }
                return Some(n as u64);
            }
        }
        let mut total: u64 = 0;
        let mut i: usize = 0;
        while i < n
            invariant
                self.wf(),
                t.wf(),
                pos == self@,
                d == depth - 1,
                all == legal_moves(pos),
                moves@ == all,
                n == all.len(),
                n <= SIZE,
                i <= n,
                total == sum_nodes(pos, all.take(i as int), d),
                all_within_capacity(pos, all.take(i as int), d),
            decreases n - i,
        {
            let chess_move = moves.get(i);
            let mut chessboard = *self;
            proof {
                lemma_legal_applicable(pos, i as int);
                assert(all.take(i + 1).drop_last() =~= all.take(i as int));
                assert(all.take(i + 1).last() == all[i as int]);
                lemma_sum_prefix(pos, all, i + 1, d);
            }
            chessboard.update_state(t, &chess_move);
            let sub = match chessboard.perft::<IS_BULK>(t, depth - 1) {
                Some(x) => x,
                None => {
                    return None;
                },
            };
            if sub > u64::MAX - total {
                return None;
            }
            total = total + sub;
            i += 1;
        }
        assert(all.take(n as int) =~= all);
        Some(total)
    }

    /// The number of sequences of `depth` legal moves from the position, and
    /// the time that counting took.
    pub fn perft_count_timed(&self, t: &AttackTables, depth: usize, is_bulk: bool) -> (r: (
        Option<u64>,
        std::time::Duration,
    ))
        requires
            self.wf(),
            t.wf(),
        ensures
            r.0 matches Some(n) ==> n == perft_nodes(self@, depth as nat),
            r.0 is None <==> !countable(self@, depth as nat),
    {
        let start = crate::clock::now();
        let total_count = self.perft_count(t, depth, is_bulk);
        (total_count, crate::clock::elapsed(&start))
    }

    /// The number of sequences of `depth` legal moves from the position.
    pub fn perft_count(&self, t: &AttackTables, depth: usize, is_bulk: bool) -> (r: Option<u64>)
        requires
            self.wf(),
            t.wf(),
        ensures
            r matches Some(n) ==> n == perft_nodes(self@, depth as nat),
            r is None <==> !countable(self@, depth as nat),
    {
        match is_bulk {
            true => self.perft::<true>(t, depth),
            false => self.perft::<false>(t, depth),
        }
    }
}

/// At depth zero every list of moves is within capacity.
pub proof fn lemma_all_leaves(pos: Position, moves: Seq<ChessMove>)
    ensures
        all_within_capacity(pos, moves, 0),
    decreases moves.len(),
{
    if moves.len() > 0 {
        lemma_all_leaves(pos, moves.drop_last());
        assert(within_capacity(apply(pos, moves.last()), 0));
    }
}

} // verus!
