//! Vectors of fixed capacity: the storage is part of the vector itself, so
//! only what the values own is on the heap.
use crate::capability::DeepSizeOf;
use crate::context::Context;
use crate::engine::{borrowed, saturate};
use crate::model::{seq_cost, Alloc, Heap, Node, Tally};
use crate::structural::{total, walks};
use crate::walk::{
    all_measurable, deref_all, held_tally, lemma_nodes_measurable, lemma_nodes_walk, walk_held,
};
use vstd::prelude::*;

verus! {

/// How many values a vector of fixed capacity has room for.
pub const FIXED: usize = 8;

/// `arrayvec::ArrayVec`, carried as it is: nothing of its inside is known here.
#[verifier::external_type_specification]
#[verifier::external_body]
#[verifier::reject_recursive_types(T)]
pub struct ExArrayVec<T, const CAP: usize>(arrayvec::ArrayVec<T, CAP>);

/// The values that a vector of fixed capacity holds, in order.
pub uninterp spec fn array_vec_nodes(vector: arrayvec::ArrayVec<Node, FIXED>) -> Seq<Node>;

/// `arrayvec::ArrayVec::iter`: the values, in order.
#[verifier::external_body]
fn array_vec_iter(vector: &arrayvec::ArrayVec<Node, FIXED>) -> (items: Vec<&Node>)
    ensures
        borrowed(items@) == array_vec_nodes(*vector),
{
    vector.iter().collect()
}

/// The heap bytes of a vector of fixed capacity that holds the values
/// `items`: no buffer, only what the values report one after another.
pub fn array_vec_children<T: DeepSizeOf>(
    items: &Vec<&T>,
    heap: &Heap,
    context: &mut Context,
) -> (bytes: usize)
    requires
        all_measurable(deref_all(items@)),
    ensures
        exists|steps: Seq<Tally>|
            {
                &&& #[trigger] walks(deref_all(items@), heap@, old(context)@, steps)
                &&& bytes == saturate(total(steps).bytes)
                &&& final(context)@ == old(context)@.union(total(steps).counted)
            },
{
    let bytes = walk_held(0, 0, items, heap, context);
    proof {
        let steps = choose|steps: Seq<Tally>|
            {
                &&& walks(deref_all(items@), heap@, old(context)@, steps)
                &&& bytes == saturate((#[trigger] held_tally(0, 0, steps)).bytes)
                &&& context@ == old(context)@.union(total(steps).counted)
            };
        assert(held_tally(0, 0, steps).bytes == total(steps).bytes);
    }
    bytes
}

impl DeepSizeOf for arrayvec::ArrayVec<Node, FIXED> {
    open spec fn measurable(&self) -> bool {
        true
    }

    /// No buffer: what the values own, and nothing else.
    open spec fn measures(&self, heap: Seq<Alloc>, visited: Set<usize>, tally: Tally) -> bool {
        tally == seq_cost(heap, array_vec_nodes(*self), visited)
    }

    fn deep_size_of_children(&self, heap: &Heap, context: &mut Context) -> (bytes: usize) {
        let items = array_vec_iter(self);
        proof {
            lemma_nodes_measurable(items@);
        }
        let bytes = array_vec_children::<Node>(&items, heap, context);
        proof {
            let steps = choose|steps: Seq<Tally>|
                {
                    &&& #[trigger] walks(deref_all(items@), heap@, old(context)@, steps)
                    &&& bytes == saturate(total(steps).bytes)
                    &&& context@ == old(context)@.union(total(steps).counted)
                };
            assert(deref_all(items@) =~= borrowed(items@));
            lemma_nodes_walk(heap@, array_vec_nodes(*self), old(context)@, steps);
            assert(self.measures(
                heap@,
                old(context)@,
                seq_cost(heap@, array_vec_nodes(*self), old(context)@),
            ));
        }
        bytes
    }
}

} // verus!
