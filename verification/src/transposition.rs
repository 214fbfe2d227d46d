//! What a search remembers of a position.

use vstd::prelude::*;
use crate::chessboard::zobrist::ZobristHash;
use crate::chessmove::ChessMove;

verus! {

/// How the remembered value stands to the true value of the position.
#[derive(Debug, Copy, Clone, PartialEq, Eq, Structural)]
pub enum NodeType {
    /// The value is the true value.
    Exact,
    /// The true value is at least the value.
    Alpha,
    /// The true value is at most the value.
    Beta,
    /// Nothing is remembered.
    Empty,
}

/// What is remembered of a position, with its fingerprint.
#[derive(Debug, Copy, Clone)]
pub struct PositionData {
    pub key: u64,
    pub depth: u16,
    pub eval: i16,
    pub ty: NodeType,
    pub best: Option<ChessMove>,
}

/// How a value that a search found within the window from `a` to `b`
/// stands to the true value: at or below the window it is an upper bound,
/// at or above it a lower bound, and inside it exact.
pub open spec fn value_kind(value: int, a: int, b: int) -> NodeType {
    if value <= a {
        NodeType::Beta
    } else if b <= value {
        NodeType::Alpha
    } else {
        NodeType::Exact
    }
}

impl PositionData {
    /// What is remembered of the position with fingerprint `key`.
    pub fn new(
        key: ZobristHash,
        depth: u16,
        eval: i16,
        ty: NodeType,
        best: Option<ChessMove>,
    ) -> (d: PositionData)
        ensures
            d.key == key.0,
            d.depth == depth,
            d.eval == eval,
            d.ty == ty,
            d.best == best,
    {
        PositionData { key: key.0, depth, eval, ty, best }
    }

    /// The entry that remembers nothing.
    pub fn empty() -> (d: PositionData)
        ensures
            d.key == 0,
            d.depth == 0,
            d.eval == 0,
            d.ty == NodeType::Empty,
            d.best is None,
    {
        PositionData { key: 0, depth: 0, eval: 0, ty: NodeType::Empty, best: None }
    }

    /// Whether the entry remembers something of the position with
    /// fingerprint `hash`.
    pub fn is_valid(&self, hash: ZobristHash) -> (r: bool)
        ensures
            r == (self.ty != NodeType::Empty && self.key == hash.0),
    {
        let remembers = match self.ty {
            NodeType::Empty => false,
            _ => true,
        };
        remembers && self.key == hash.0
    }

    /// The fingerprint of the position.
    pub fn key(&self) -> (h: ZobristHash)
        ensures
            h.0 == self.key,
    {
        ZobristHash(self.key)
    }

    /// The depth to which the position was searched.
    pub fn depth(&self) -> (d: u16)
        ensures
            d == self.depth,
    {
        self.depth
    }

    /// The value that the search found.
    pub fn eval(&self) -> (v: i16)
        ensures
            v == self.eval,
    {
        self.eval
    }

    /// How the value stands to the true value.
    pub fn ty(&self) -> (t: NodeType)
        ensures
            t == self.ty,
    {
        self.ty
    }

    /// The best move that the search found, if it found one.
    pub fn best(&self) -> (m: Option<ChessMove>)
        ensures
            m == self.best,
    {
        self.best
    }

    /// How a value that a search found within the window from `a` to `b`
    /// stands to the true value.
    pub fn value_type(value: i16, a: i16, b: i16) -> (t: NodeType)
        ensures
            t == value_kind(value as int, a as int, b as int),
    {
        if value <= a {
            NodeType::Beta
        } else if b <= value {
            NodeType::Alpha
        } else {
            NodeType::Exact
        }
    }
}

} // verus!
