//! A vector of fixed capacity that is kept in an array.

use vstd::prelude::*;

verus! {

/// At most `C` items, kept in an array of `C` places. The places beyond the
/// items hold `filler`.
#[derive(Debug, Copy, Clone)]
pub struct FixedVec<T: Copy, const C: usize> {
    pub data: [T; C],
    pub count: usize,
    pub filler: T,
}

impl<T: Copy, const C: usize> View for FixedVec<T, C> {
    type V = Seq<T>;

    /// The items of the vector.
    open spec fn view(&self) -> Seq<T> {
        self.data@.take(self.count as int)
    }
}

impl<T: Copy, const C: usize> FixedVec<T, C> {
    /// Whether the number of items is within the capacity.
    pub open spec fn wf(&self) -> bool {
        self.count <= C
    }

    /// The empty vector; `filler` fills the places that hold no item.
    pub fn new(filler: T) -> (v: Self)
        ensures
            v.wf(),
            v@ == Seq::<T>::empty(),
    {
        let v = FixedVec { data: [filler;C], count: 0, filler };
        assert(v@ =~= Seq::<T>::empty());
        v
    }

    /// A copy of the vector.
    pub fn const_clone(&self) -> (v: Self)
        ensures
            v == *self,
    {
        FixedVec { data: self.data, count: self.count, filler: self.filler }
    }

    /// All places of the array, those beyond the items too.
    pub fn data(&self) -> (d: [T; C])
        ensures
            d == self.data,
    {
        self.data
    }

    /// The number of items.
    pub fn len(&self) -> (n: usize)
        ensures
            n == self.count,
            self.wf() ==> n == self@.len(),
    {
        self.count
    }

    /// Appends an item to a vector that is not full.
    pub fn push(&mut self, t: T)
        requires
            old(self).wf(),
            old(self).count < C,
        ensures
            final(self).wf(),
            final(self)@ == old(self)@.push(t),
    {
        self.data[self.count] = t;
        self.count = self.count + 1;
        assert(self@ =~= old(self)@.push(t));
    }

    /// The vector with an item appended; the vector must not be full.
    pub fn append(self, t: T) -> (v: Self)
        requires
            self.wf(),
            self.count < C,
        ensures
            v.wf(),
            v@ == self@.push(t),
    {
        let mut v = FixedVec { data: self.data, count: self.count, filler: self.filler };
        v.push(t);
        v
    }

    /// The content of place `index` of the array.
    pub fn nth(&self, index: usize) -> (t: T)
        requires
            index < C,
        ensures
            t == self.data@[index as int],
            self.wf() && index < self.count ==> t == self@[index as int],
    {
        self.data[index]
    }

    /// Whether the vector holds no item.
    pub fn is_empty(&self) -> (r: bool)
        ensures
            r == (self.count == 0),
    {
        self.count == 0
    }

    /// Whether the vector holds as many items as it can.
    pub fn is_full(&self) -> (r: bool)
        ensures
            r == (self.count == C),
    {
        self.count == C
    }

    /// The first item of a vector that is not empty.
    pub fn head(&self) -> (t: T)
        requires
            self.wf(),
            self.count > 0,
        ensures
            t == self@[0],
    {
        self.data[0]
    }

    /// The last item of a vector that is not empty.
    pub fn tail(&self) -> (t: T)
        requires
            self.wf(),
            self.count > 0,
        ensures
            t == self@.last(),
    {
        self.data[self.count - 1]
    }

    /// The last item, if there is one. The vector keeps it.
    pub fn pop(&mut self) -> (r: Option<T>)
        requires
            old(self).wf(),
        ensures
            *final(self) == *old(self),
            match r {
                Some(t) => old(self)@.len() > 0 && t == old(self)@.last(),
                None => old(self)@.len() == 0,
            },
    {
        if self.count == 0 {
            return None;
        }
        Some(self.data[self.count - 1])
    }

    /// The vector without its last item, and that item; the vector itself and
    /// nothing, if it is empty.
    pub fn unappend(self) -> (r: (Self, Option<T>))
        requires
            self.wf(),
        ensures
            r.0.wf(),
            match r.1 {
                Some(t) => self@.len() > 0 && t == self@.last() && r.0@ == self@.drop_last(),
                None => self@.len() == 0 && r.0 == self,
            },
    {
        if self.count == 0 {
            return (self, None);
        }
        let mut v = FixedVec { data: self.data, count: self.count - 1, filler: self.filler };
        let x = self.data[self.count - 1];
        v.data[self.count - 1] = self.filler;
        assert(v@ =~= self@.drop_last());
        (v, Some(x))
    }
}

} // verus!
