//! Slabs: a buffer of entries, each either holding a value or vacant.
use crate::capability::DeepSizeOf;
use crate::context::Context;
use crate::engine::{borrowed, saturate};
use crate::layout::buffered_cost;
use crate::model::{Alloc, Heap, Node, Tally};
use crate::structural::{total, walks};
use crate::walk::{
    all_measurable, deref_all, held_tally, lemma_held_nodes, lemma_nodes_measurable, walk_held,
};
use vstd::prelude::*;

verus! {

/// `slab::Slab`, carried as it is: nothing of its inside is known here.
#[verifier::external_type_specification]
#[verifier::external_body]
#[verifier::reject_recursive_types(T)]
pub struct ExSlab<T>(slab::Slab<T>);

/// The values that a slab holds, by ascending key.
pub uninterp spec fn slab_nodes(slab: slab::Slab<Node>) -> Seq<Node>;

/// `slab::Slab::iter`: the values of the occupied entries, by ascending key.
#[verifier::external_body]
fn slab_values(slab: &slab::Slab<Node>) -> (items: Vec<&Node>)
    ensures
        borrowed(items@) == slab_nodes(*slab),
{
    slab.iter().map(|(_, node)| node).collect()
}

/// `slab::Slab::capacity`: the number of entries that the slab's buffer has
/// room for, which is no less than the number of values in it.
#[verifier::external_body]
fn slab_capacity(slab: &slab::Slab<Node>) -> (capacity: usize)
    ensures
        capacity >= slab_nodes(*slab).len(),
{
    slab.capacity()
}

/// The shape of one entry of a slab's buffer: the key of the next vacant
/// entry, or a value.
pub enum SlabEntry<T> {
    Vacant(usize),
    Occupied(T),
}

/// What a slab of values of type `T` with room for `capacity` entries
/// costs where its values are descriptions: its buffer, and what the
/// described values own.
pub open spec fn slab_cost<T>(
    capacity: nat,
    heap: Seq<Alloc>,
    nodes: Seq<Node>,
    visited: Set<usize>,
) -> Tally {
    buffered_cost(capacity, vstd::layout::size_of::<SlabEntry<T>>(), heap, nodes, visited)
}

/// The heap bytes of a slab with room for `capacity` entries that holds the
/// values `items`: `capacity` entries of the size of one, and what the
/// values report one after another.
pub fn slab_children<T: DeepSizeOf>(
    capacity: usize,
    items: &Vec<&T>,
    heap: &Heap,
    context: &mut Context,
) -> (bytes: usize)
    requires
        all_measurable(deref_all(items@)),
    ensures
        exists|steps: Seq<Tally>|
            {
                &&& walks(deref_all(items@), heap@, old(context)@, steps)
                &&& bytes == saturate(
                    (#[trigger] held_tally(
                        capacity as nat,
                        vstd::layout::size_of::<SlabEntry<T>>(),
                        steps,
                    )).bytes,
                )
                &&& final(context)@ == old(context)@.union(total(steps).counted)
            },
{
    walk_held(capacity, core::mem::size_of::<SlabEntry<T>>(), items, heap, context)
}

impl DeepSizeOf for slab::Slab<Node> {
    open spec fn measurable(&self) -> bool {
        true
    }

    /// The slab's buffer at some capacity that holds its values, and what
    /// the values own.
    open spec fn measures(&self, heap: Seq<Alloc>, visited: Set<usize>, tally: Tally) -> bool {
        exists|capacity: usize|
            {
                &&& capacity >= slab_nodes(*self).len()
                &&& tally == #[trigger] slab_cost::<Node>(
                    capacity as nat,
                    heap,
                    slab_nodes(*self),
                    visited,
                )
            }
    }

    fn deep_size_of_children(&self, heap: &Heap, context: &mut Context) -> (bytes: usize) {
        let capacity = slab_capacity(self);
        let items = slab_values(self);
        proof {
            lemma_nodes_measurable(items@);
        }
        let bytes = slab_children::<Node>(capacity, &items, heap, context);
        proof {
            let slot = vstd::layout::size_of::<SlabEntry<Node>>();
            let steps = choose|steps: Seq<Tally>|
                {
                    &&& walks(deref_all(items@), heap@, old(context)@, steps)
                    &&& bytes == saturate((#[trigger] held_tally(capacity as nat, slot, steps)).bytes)
                    &&& context@ == old(context)@.union(total(steps).counted)
                };
            lemma_held_nodes(capacity as nat, slot, heap@, items@, old(context)@, steps);
            assert(self.measures(
                heap@,
                old(context)@,
                slab_cost::<Node>(capacity as nat, heap@, slab_nodes(*self), old(context)@),
            ));
        }
        bytes
    }
}

} // verus!
