//! The budgets of a search: a depth, a number of nodes, or a span of time.

use vstd::prelude::*;

verus! {

/// A budget of time: the search starts no new round after the first span
/// and stops at the second.
#[derive(Debug, Copy, Clone, PartialEq, Eq)]
pub struct TimeLimit {
    pub soft_limit: std::time::Duration,
    pub hard_limit: std::time::Duration,
}

/// A budget of nodes: the search starts no new round after the first number
/// and stops at the second. Neither is zero.
#[derive(Debug, Copy, Clone, PartialEq, Eq)]
pub struct NodeLimit {
    pub soft_limit: usize,
    pub hard_limit: usize,
}

/// The budget of a search.
#[derive(Debug, Copy, Clone, PartialEq, Eq)]
pub enum SearchLimit {
    /// A depth, which is not zero.
    Depth(usize),
    Nodes(NodeLimit),
    Time(TimeLimit),
}

impl TimeLimit {
    pub fn new(soft_limit: std::time::Duration, hard_limit: std::time::Duration) -> (l: TimeLimit)
        ensures
            l.soft_limit == soft_limit,
            l.hard_limit == hard_limit,
    {
        TimeLimit { soft_limit, hard_limit }
    }
}

impl NodeLimit {
    /// Whether neither number is zero.
    pub open spec fn wf(&self) -> bool {
        self.soft_limit > 0 && self.hard_limit > 0
    }

    /// The budget of the two numbers, if neither is zero.
    pub fn checked_new(soft_limit: usize, hard_limit: usize) -> (r: Option<NodeLimit>)
        ensures
            r is Some <==> soft_limit > 0 && hard_limit > 0,
            r matches Some(l) ==> l.soft_limit == soft_limit && l.hard_limit == hard_limit
                && l.wf(),
    {
        if soft_limit == 0 || hard_limit == 0 {
            None
        } else {
            Some(NodeLimit { soft_limit, hard_limit })
        }
    }

    /// The budget of the two numbers.
    pub fn new(soft_limit: usize, hard_limit: usize) -> (l: NodeLimit)
        requires
            soft_limit > 0,
            hard_limit > 0,
        ensures
            l.soft_limit == soft_limit,
            l.hard_limit == hard_limit,
            l.wf(),
    {
        NodeLimit { soft_limit, hard_limit }
    }
}

impl SearchLimit {
    /// Whether no number of the budget is zero.
    pub open spec fn wf(&self) -> bool {
        match self {
            SearchLimit::Depth(d) => *d > 0,
            SearchLimit::Nodes(l) => l.wf(),
            SearchLimit::Time(_) => true,
        }
    }

    /// The budget of a depth, if it is not zero.
    pub fn checked_depth(depth: usize) -> (r: Option<SearchLimit>)
        ensures
            r is Some <==> depth > 0,
            r matches Some(l) ==> l == SearchLimit::Depth(depth) && l.wf(),
    {
        if depth == 0 {
            None
        } else {
            Some(SearchLimit::Depth(depth))
        }
    }

    /// The budget of a depth.
    pub fn depth(depth: usize) -> (l: SearchLimit)
        requires
            depth > 0,
        ensures
            l == SearchLimit::Depth(depth),
            l.wf(),
    {
        SearchLimit::Depth(depth)
    }

    /// The budget of two numbers of nodes.
    pub fn node(soft_limit: usize, hard_limit: usize) -> (l: SearchLimit)
        requires
            soft_limit > 0,
            hard_limit > 0,
        ensures
            l == SearchLimit::Nodes(NodeLimit { soft_limit, hard_limit }),
            l.wf(),
    {
        SearchLimit::Nodes(NodeLimit::new(soft_limit, hard_limit))
    }

    /// The budget of two spans of time.
    pub fn time(soft_limit: std::time::Duration, hard_limit: std::time::Duration) -> (l:
        SearchLimit)
        ensures
            l == SearchLimit::Time(TimeLimit { soft_limit, hard_limit }),
            l.wf(),
    {
        SearchLimit::Time(TimeLimit::new(soft_limit, hard_limit))
    }
}

} // verus!
