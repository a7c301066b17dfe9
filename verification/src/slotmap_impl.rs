//! Slot maps: a buffer of slots, each with a version number beside its
//! value.
use crate::capability::DeepSizeOf;
use crate::context::Context;
use crate::engine::{borrowed, saturate};
use crate::layout::buffered_cost;
use crate::model::{Alloc, Heap, Node, Tally};
use crate::order::law_order_is_irrelevant;
use crate::structural::{total, walks};
use crate::walk::{
    all_measurable, deref_all, held_tally, lemma_held_nodes, lemma_nodes_measurable, walk_held,
};
use vstd::multiset::Multiset;
use vstd::prelude::*;

verus! {

/// A slot map of values under the keys that `slotmap` hands out.
#[verifier::external_body]
pub struct NodeSlotMap {
    inner: slotmap::SlotMap<slotmap::DefaultKey, Node>,
}

/// The largest number of values that a slot map can hold.
pub const SLOT_MAP_LIMIT: usize = 0xffff_fffe;

/// The values that a slot map holds, by slot.
pub uninterp spec fn slot_map_nodes(map: NodeSlotMap) -> Seq<Node>;

/// `slotmap::SlotMap::new`: an empty map.
#[verifier::external_body]
fn slot_map_new() -> (map: NodeSlotMap)
    ensures
        slot_map_nodes(map) == Seq::<Node>::empty(),
{
    NodeSlotMap { inner: slotmap::SlotMap::new() }
}

/// `slotmap::SlotMap::insert`: the value takes a vacant slot, or a new slot
/// at the end; the values that were there stay. A full map is left out.
#[verifier::external_body]
fn slot_map_insert(map: &mut NodeSlotMap, node: Node)
    requires
        slot_map_nodes(*old(map)).len() < SLOT_MAP_LIMIT,
    ensures
        slot_map_nodes(*final(map)).to_multiset() == slot_map_nodes(
            *old(map),
        ).to_multiset().insert(node),
        slot_map_nodes(*final(map)).len() == slot_map_nodes(*old(map)).len() + 1,
{
    map.inner.insert(node);
}

/// `slotmap::SlotMap::iter`: the values of the occupied slots, by slot.
#[verifier::external_body]
fn slot_map_iter(map: &NodeSlotMap) -> (items: Vec<&Node>)
    ensures
        borrowed(items@) == slot_map_nodes(*map),
{
    map.inner.iter().map(|(_, node)| node).collect()
}

/// `slotmap::SlotMap::capacity`: how many values the map can hold without
/// allocating again, which is no less than the number of values in it.
#[verifier::external_body]
fn slot_map_capacity(map: &NodeSlotMap) -> (capacity: usize)
    ensures
        capacity >= slot_map_nodes(*map).len(),
{
    map.inner.capacity()
}

/// What a slot map of values of type `V` of capacity `capacity` costs
/// where its values are descriptions: its slots, and what the described
/// values own. The keys are plain numbers and own nothing.
pub open spec fn slot_map_cost<V>(
    capacity: nat,
    heap: Seq<Alloc>,
    nodes: Seq<Node>,
    visited: Set<usize>,
) -> Tally {
    buffered_cost(capacity, vstd::layout::size_of::<(u32, V)>(), heap, nodes, visited)
}

/// The heap bytes of a slot map of capacity `capacity` that holds the
/// values `items`: `capacity` slots of a version number and a value, and
/// what the values report one after another.
pub fn slot_map_children<V: DeepSizeOf>(
    capacity: usize,
    items: &Vec<&V>,
    heap: &Heap,
    context: &mut Context,
) -> (bytes: usize)
    requires
        all_measurable(deref_all(items@)),
    ensures
        exists|steps: Seq<Tally>|
            {
                &&& walks(deref_all(items@), heap@, old(context)@, steps)
                &&& bytes == saturate(
                    (#[trigger] held_tally(
                        capacity as nat,
                        vstd::layout::size_of::<(u32, V)>(),
                        steps,
                    )).bytes,
                )
                &&& final(context)@ == old(context)@.union(total(steps).counted)
            },
{
    walk_held(capacity, core::mem::size_of::<(u32, V)>(), items, heap, context)
}

impl NodeSlotMap {
    /// The slot map into which `nodes` were inserted one after another.
    pub fn from_nodes(nodes: Vec<Node>) -> (map: NodeSlotMap)
        requires
            nodes@.len() < SLOT_MAP_LIMIT,
        ensures
            slot_map_nodes(map).to_multiset() == nodes@.to_multiset(),
    {
        broadcast use vstd::multiset::group_multiset_axioms;

        let mut nodes = nodes;
        let ghost all = nodes@;
        let mut map = slot_map_new();
        proof {
            vstd::seq_lib::to_multiset_len(Seq::<Node>::empty());
            vstd::multiset::lemma_multiset_empty_len(Seq::<Node>::empty().to_multiset());
        }
        assert(Multiset::<Node>::empty().add(all.to_multiset()) =~= all.to_multiset());
        while nodes.len() > 0
            invariant
                slot_map_nodes(map).to_multiset().add(nodes@.to_multiset()) == all.to_multiset(),
                slot_map_nodes(map).len() + nodes@.len() == all.len(),
                all.len() < SLOT_MAP_LIMIT,
            decreases nodes.len(),
        {
            let ghost held = slot_map_nodes(map).to_multiset();
            let ghost rest = nodes@;
            let node = nodes.pop().unwrap();
            slot_map_insert(&mut map, node);
            proof {
                assert(rest =~= nodes@.push(node));
                vstd::seq_lib::to_multiset_build(nodes@, node);
                assert(held.insert(node).add(nodes@.to_multiset()) =~= held.add(
                    rest.to_multiset(),
                ));
            }
        }
        assert(nodes@ =~= Seq::<Node>::empty());
        proof {
            vstd::seq_lib::to_multiset_len(Seq::<Node>::empty());
            vstd::multiset::lemma_multiset_empty_len(Seq::<Node>::empty().to_multiset());
        }
        assert(slot_map_nodes(map).to_multiset().add(nodes@.to_multiset())
            =~= slot_map_nodes(map).to_multiset());
        map
    }
}

/// A slot map costs what its values cost in any order: the slots in which
/// the values came to lie make no difference.
pub proof fn law_slot_order_is_irrelevant(
    capacity: nat,
    heap: Seq<Alloc>,
    map: NodeSlotMap,
    nodes: Seq<Node>,
    visited: Set<usize>,
)
    requires
        heap.len() <= usize::MAX,
        slot_map_nodes(map).to_multiset() == nodes.to_multiset(),
    ensures
        slot_map_cost::<Node>(capacity, heap, slot_map_nodes(map), visited) == slot_map_cost::<
            Node,
        >(
            capacity,
            heap,
            nodes,
            visited,
        ),
{
    law_order_is_irrelevant(heap, slot_map_nodes(map), nodes, visited);
}

impl DeepSizeOf for NodeSlotMap {
    open spec fn measurable(&self) -> bool {
        true
    }

    /// The map's slots at some capacity, and what its values own.
    open spec fn measures(&self, heap: Seq<Alloc>, visited: Set<usize>, tally: Tally) -> bool {
        exists|capacity: usize|
            {
                &&& capacity >= slot_map_nodes(*self).len()
                &&& tally == #[trigger] slot_map_cost::<Node>(
                    capacity as nat,
                    heap,
                    slot_map_nodes(*self),
                    visited,
                )
            }
    }

    fn deep_size_of_children(&self, heap: &Heap, context: &mut Context) -> (bytes: usize) {
        let capacity = slot_map_capacity(self);
        let items = slot_map_iter(self);
        proof {
            lemma_nodes_measurable(items@);
        }
        let bytes = slot_map_children::<Node>(capacity, &items, heap, context);
        proof {
            let slot = vstd::layout::size_of::<(u32, Node)>();
            let steps = choose|steps: Seq<Tally>|
                {
                    &&& walks(deref_all(items@), heap@, old(context)@, steps)
                    &&& bytes == saturate((#[trigger] held_tally(capacity as nat, slot, steps)).bytes)
                    &&& context@ == old(context)@.union(total(steps).counted)
                };
            lemma_held_nodes(capacity as nat, slot, heap@, items@, old(context)@, steps);
            assert(self.measures(
                heap@,
                old(context)@,
                slot_map_cost::<Node>(
                    capacity as nat,
                    heap@,
                    slot_map_nodes(*self),
                    old(context)@,
                ),
            ));
        }
        bytes
    }
}

} // verus!
