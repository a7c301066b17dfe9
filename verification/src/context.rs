//! The traversal context: which shared allocations were already counted.
use std::collections::HashSet;
use vstd::prelude::*;

verus! {

broadcast use vstd::std_specs::hash::group_hash_axioms;

/// The state of one traversal: the identities of the shared allocations that
/// some earlier visit has already been charged for.
pub struct Context {
    counted: HashSet<usize>,
}

impl View for Context {
    type V = Set<usize>;

    /// The identities counted so far.
    closed spec fn view(&self) -> Set<usize> {
        self.counted@
    }
}

impl Context {
    /// A fresh context: nothing has been counted yet.
    pub fn new() -> (context: Context)
        ensures
            context@ == Set::<usize>::empty(),
    {
        Context { counted: HashSet::new() }
    }

    /// Whether the allocation `id` has been counted already.
    pub fn contains(&self, id: usize) -> (known: bool)
        ensures
            known == self@.contains(id),
    {
        self.counted.contains(&id)
    }

    /// Records the allocation `id` as counted. Returns whether it was new.
    pub fn add(&mut self, id: usize) -> (fresh: bool)
        ensures
            final(self)@ == old(self)@.insert(id),
            fresh == !old(self)@.contains(id),
    {
        self.counted.insert(id)
    }

    /// How many allocations have been counted.
    pub fn len(&self) -> (n: usize)
        ensures
            n == self@.len(),
    {
        self.counted.len()
    }
}

} // verus!
