//! A bounded collector: an ordered sequence whose maximum size is fixed at
//! construction and never exceeded. Pushing beyond the capacity is ruled out
//! by contract, never by a runtime check: the repetition engine stops before
//! that point, and the verifier holds it to that.

use vstd::prelude::*;

verus! {

/// A fixed-maximum-capacity ordered sequence of `T`.
#[derive(Debug)]
pub struct BoundedVec<T> {
    items: Vec<T>,
    cap: usize,
}

impl<T> BoundedVec<T> {
    /// The collected items.
    pub closed spec fn spec_items(&self) -> Seq<T> {
        self.items@
    }

    /// The fixed capacity.
    pub closed spec fn spec_cap(&self) -> int {
        self.cap as int
    }

    /// The collector's invariant: never more items than the capacity.
    pub open spec fn wf(&self) -> bool {
        self.spec_items().len() <= self.spec_cap()
    }

    /// An empty collector with the given capacity.
    pub fn new(cap: usize) -> (v: BoundedVec<T>)
        ensures
            v.wf(),
            v.spec_cap() == cap as int,
            v.spec_items() == Seq::<T>::empty(),
    {
        let v = BoundedVec { items: Vec::new(), cap };
        proof {
            assert(v.spec_items() =~= Seq::<T>::empty());
        }
        v
    }

    /// Appends an item; the capacity must not yet be reached.
    pub fn push(&mut self, t: T)
        requires
            old(self).wf(),
            old(self).spec_items().len() < old(self).spec_cap(),
        ensures
            final(self).wf(),
            final(self).spec_cap() == old(self).spec_cap(),
            final(self).spec_items() == old(self).spec_items().push(t),
    {
        self.items.push(t);
    }

    /// The number of items collected so far.
    pub fn len(&self) -> (n: usize)
        ensures
            n == self.spec_items().len(),
    {
        self.items.len()
    }

    /// The fixed capacity.
    pub fn capacity(&self) -> (n: usize)
        ensures
            n == self.spec_cap(),
    {
        self.cap
    }

    /// The collected items, surrendered as a plain vector.
    pub fn into_vec(self) -> (v: Vec<T>)
        ensures
            v@ == self.spec_items(),
    {
        self.items
    }

    /// The item at a position below the current length.
    pub fn get(&self, k: usize) -> (t: &T)
        requires
            k < self.spec_items().len(),
        ensures
            *t == self.spec_items()[k as int],
    {
        &self.items[k]
    }
}

} // verus!
