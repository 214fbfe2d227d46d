//! The order of moves by their notation.

use vstd::prelude::*;
use crate::chessmove::{lexi_at, lexi_from, ChessMove, Precedence};

verus! {

/// Values that are ordered as their texts are ordered in a dictionary.
pub trait LexiOrd {
    /// How the text of `self` stands to the text of `other`.
    spec fn lexi_spec(&self, other: &Self) -> Precedence;

    /// How the text of `self` stands to the text of `other`.
    fn lexi_cmp(&self, other: &Self) -> (r: Precedence)
        ensures
            r == self.lexi_spec(other),
    ;
}

impl LexiOrd for ChessMove {
    /// Moves are ordered by their coordinate notation.
    open spec fn lexi_spec(&self, other: &Self) -> Precedence {
        lexi_from(self.notation(), other.notation(), 0)
    }

    fn lexi_cmp(&self, other: &Self) -> (r: Precedence) {
        let a = self.notation_bytes();
        let b = other.notation_bytes();
        let mut i: usize = 0;
        while i < a.len() && i < b.len()
            invariant
                a@ == self.notation(),
                b@ == other.notation(),
                lexi_at(a@, b@, i) == lexi_from(a@, b@, 0),
            decreases a@.len() - i,
        {
            if a[i] < b[i] {
                return Precedence::Less;
            }
            if a[i] > b[i] {
                return Precedence::Greater;
            }
            i += 1;
        }
        if a.len() == b.len() {
            Precedence::Equal
        } else if a.len() < b.len() {
            Precedence::Less
        } else {
            Precedence::Greater
        }
    }
}

} // verus!
