//! The size-reporting capability, and the entry point built on it.
use crate::context::Context;
use crate::engine::{add_bytes, saturate};
use crate::model::{node_cost, Alloc, Heap, Node, Tally};
use vstd::prelude::*;

verus! {

/// What a type must offer to be measured: the heap bytes that a value's
/// children own.
pub trait DeepSizeOf {
    /// Whether this value can be measured at all. It is `false` only where
    /// the layout of the value's type cannot be told on this machine.
    spec fn measurable(&self) -> bool;

    /// Whether `tally` is a possible outcome of measuring this value's
    /// children when the allocations in `visited` were counted before.
    /// A type whose storage is not observable through its view admits more
    /// than one outcome.
    spec fn measures(&self, heap: Seq<Alloc>, visited: Set<usize>, tally: Tally) -> bool;

    /// The heap bytes that this value's children own, without the value's
    /// own fixed-size representation. Shared allocations that `context` has
    /// seen are not counted again; those counted now are recorded in it.
    fn deep_size_of_children(&self, heap: &Heap, context: &mut Context) -> (bytes: usize)
        requires
            self.measurable(),
        ensures
            exists|tally: Tally|
                {
                    &&& #[trigger] self.measures(heap@, old(context)@, tally)
                    &&& bytes == saturate(tally.bytes)
                    &&& final(context)@ == old(context)@.union(tally.counted)
                },
    ;
}

impl DeepSizeOf for Node {
    open spec fn measurable(&self) -> bool {
        true
    }

    open spec fn measures(&self, heap: Seq<Alloc>, visited: Set<usize>, tally: Tally) -> bool {
        tally == node_cost(heap, *self, visited)
    }

    fn deep_size_of_children(&self, heap: &Heap, context: &mut Context) -> (bytes: usize) {
        let bytes = heap.deep_size_of_children(self, context);
        assert(self.measures(heap@, old(context)@, node_cost(heap@, *self, old(context)@)));
        bytes
    }
}

/// The deep size of `value`: the bytes of its own representation and all
/// that its children own, measured with a fresh context.
pub fn deep_size_of<T: DeepSizeOf>(value: &T, heap: &Heap) -> (bytes: usize)
    requires
        value.measurable(),
    ensures
        exists|tally: Tally|
            {
                &&& #[trigger] value.measures(heap@, Set::empty(), tally)
                &&& bytes == saturate(vstd::layout::size_of::<T>() + tally.bytes)
            },
{
    let mut context = Context::new();
    let children = value.deep_size_of_children(heap, &mut context);
    add_bytes(core::mem::size_of::<T>(), children)
}

} // verus!
