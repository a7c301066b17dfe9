//! Insertion-ordered maps and sets: a dense array of entries beside a table
//! of indices into it.
//!
//! Only one capacity can be observed, the smaller of the two structures'.
//! Where the two differ, the estimate is below what is allocated.
use crate::capability::DeepSizeOf;
use crate::context::Context;
use crate::engine::{add_bytes, borrowed, lemma_saturate_sum, saturate};
use crate::laws::lemma_seq_push;
use crate::layout::{borrowed_pairs, buffered_cost, interleaved, lemma_saturated_slot};
use crate::model::{seq_cost, Alloc, Heap, Node, Tally};
use crate::structural::{total, walks};
use crate::walk::{
    all_measurable, deref_all, deref_pairs, held_tally, lemma_held_nodes, lemma_node_pairs_walk,
    lemma_nodes_measurable, walk_held, walk_held_pairs,
};
use vstd::prelude::*;

verus! {

/// `indexmap::IndexMap`, carried as it is: nothing of its inside is known here.
#[verifier::external_type_specification]
#[verifier::external_body]
#[verifier::reject_recursive_types(K)]
#[verifier::reject_recursive_types(V)]
#[verifier::reject_recursive_types(S)]
pub struct ExIndexMap<K, V, S>(indexmap::IndexMap<K, V, S>);

/// `indexmap::IndexSet`, carried as it is: nothing of its inside is known here.
#[verifier::external_type_specification]
#[verifier::external_body]
#[verifier::reject_recursive_types(T)]
#[verifier::reject_recursive_types(S)]
pub struct ExIndexSet<T, S>(indexmap::IndexSet<T, S>);

/// The entries that an insertion-ordered map holds, in its order.
pub uninterp spec fn index_map_entries(map: indexmap::IndexMap<Node, Node>) -> Seq<(Node, Node)>;

/// The values that an insertion-ordered set holds, in its order.
pub uninterp spec fn index_set_nodes(set: indexmap::IndexSet<Node>) -> Seq<Node>;

/// `indexmap::IndexMap::iter`: the entries, in the map's order.
#[verifier::external_body]
fn index_map_iter(map: &indexmap::IndexMap<Node, Node>) -> (entries: Vec<(&Node, &Node)>)
    ensures
        borrowed_pairs(entries@) == index_map_entries(*map),
{
    map.iter().collect()
}

/// `indexmap::IndexMap::capacity`: how many entries the map can hold without
/// allocating again, which is no less than the number of entries in it.
#[verifier::external_body]
fn index_map_capacity(map: &indexmap::IndexMap<Node, Node>) -> (capacity: usize)
    ensures
        capacity >= index_map_entries(*map).len(),
{
    map.capacity()
}

/// `indexmap::IndexSet::iter`: the values, in the set's order.
#[verifier::external_body]
fn index_set_iter(set: &indexmap::IndexSet<Node>) -> (items: Vec<&Node>)
    ensures
        borrowed(items@) == index_set_nodes(*set),
{
    set.iter().collect()
}

/// `indexmap::IndexSet::capacity`: how many values the set can hold without
/// allocating again, which is no less than the number of values in it.
#[verifier::external_body]
fn index_set_capacity(set: &indexmap::IndexSet<Node>) -> (capacity: usize)
    ensures
        capacity >= index_set_nodes(*set).len(),
{
    set.capacity()
}

/// The bytes that one entry of a map from `K` to `V` takes in both
/// structures: the hash, the key and the value in the array, and the index
/// in the table.
pub open spec fn index_map_slot<K, V>() -> nat {
    vstd::layout::size_of::<usize>() + vstd::layout::size_of::<K>() + vstd::layout::size_of::<V>()
        + vstd::layout::size_of::<usize>()
}

/// The bytes that one value of a set of `K` takes in both structures: those
/// of an entry of a map from `K` to nothing.
pub open spec fn index_set_slot<K>() -> nat {
    index_map_slot::<K, ()>()
}

/// The bytes that one entry of a map from `K` to `V` takes in both
/// structures.
pub fn index_slot<K, V>() -> (slot: usize)
    ensures
        slot == saturate(index_map_slot::<K, V>()),
{
    let hash = core::mem::size_of::<usize>();
    let key = core::mem::size_of::<K>();
    let value = core::mem::size_of::<V>();
    let index = core::mem::size_of::<usize>();
    proof {
        lemma_saturate_sum(hash as nat + key as nat, value as nat + index as nat);
    }
    add_bytes(add_bytes(hash, key), add_bytes(value, index))
}

/// What a map from `K` to `V` of capacity `capacity` costs where its keys
/// and values are descriptions: its two structures, and what the described
/// keys and values own.
pub open spec fn index_map_cost<K, V>(
    capacity: nat,
    heap: Seq<Alloc>,
    entries: Seq<(Node, Node)>,
    visited: Set<usize>,
) -> Tally {
    buffered_cost(capacity, index_map_slot::<K, V>(), heap, interleaved(entries), visited)
}

/// What a set of `K` of capacity `capacity` costs where its values are
/// descriptions: its two structures, and what the described values own.
pub open spec fn index_set_cost<K>(
    capacity: nat,
    heap: Seq<Alloc>,
    nodes: Seq<Node>,
    visited: Set<usize>,
) -> Tally {
    buffered_cost(capacity, index_set_slot::<K>(), heap, nodes, visited)
}

/// The entries of a map from the values `nodes` to nothing.
pub open spec fn with_units(nodes: Seq<Node>) -> Seq<(Node, Node)> {
    nodes.map_values(|node: Node| (node, Node::Flat))
}

/// A set costs what a map from its values to nothing costs.
pub proof fn law_set_is_map_of_units<K>(
    capacity: nat,
    heap: Seq<Alloc>,
    nodes: Seq<Node>,
    visited: Set<usize>,
)
    ensures
        index_set_cost::<K>(capacity, heap, nodes, visited) == index_map_cost::<K, ()>(
            capacity,
            heap,
            with_units(nodes),
            visited,
        ),
{
    lemma_units_own_nothing(heap, nodes, visited);
}

/// Values of no size between the keys add nothing to a walk.
proof fn lemma_units_own_nothing(heap: Seq<Alloc>, nodes: Seq<Node>, visited: Set<usize>)
    ensures
        seq_cost(heap, interleaved(with_units(nodes)), visited) == seq_cost(heap, nodes, visited),
    decreases nodes.len(),
{
    if nodes.len() == 0 {
        assert(interleaved(with_units(nodes)) =~= nodes);
    } else {
        let front = nodes.drop_last();
        let keys = interleaved(with_units(front)).push(nodes.last());
        lemma_units_own_nothing(heap, front, visited);
        assert(with_units(nodes).drop_last() =~= with_units(front));
        assert(interleaved(with_units(nodes)) =~= keys.push(Node::Flat));
        lemma_seq_push(heap, keys, Node::Flat, visited);
        lemma_seq_push(heap, interleaved(with_units(front)), nodes.last(), visited);
        assert(nodes =~= front.push(nodes.last()));
        lemma_seq_push(heap, front, nodes.last(), visited);
        let walked = seq_cost(heap, keys, visited);
        assert(walked.then_walk(Tally::zero()).counted =~= walked.counted);
    }
}

/// The heap bytes of an insertion-ordered map of capacity `capacity` that
/// holds `entries`: `capacity` times the four sizes of one entry, and what
/// each key and then its value report, one entry after another.
pub fn index_map_children<K: DeepSizeOf, V: DeepSizeOf>(
    capacity: usize,
    entries: &Vec<(&K, &V)>,
    heap: &Heap,
    context: &mut Context,
) -> (bytes: usize)
    requires
        all_measurable(deref_pairs(entries@)),
    ensures
        exists|steps: Seq<Tally>|
            {
                &&& walks(deref_pairs(entries@), heap@, old(context)@, steps)
                &&& bytes == saturate(
                    (#[trigger] held_tally(capacity as nat, index_map_slot::<K, V>(), steps)).bytes,
                )
                &&& final(context)@ == old(context)@.union(total(steps).counted)
            },
{
    let slot = index_slot::<K, V>();
    let bytes = walk_held_pairs(capacity, slot, entries, heap, context);
    proof {
        let steps = choose|steps: Seq<Tally>|
            {
                &&& walks(deref_pairs(entries@), heap@, old(context)@, steps)
                &&& bytes == saturate(
                    (#[trigger] held_tally(capacity as nat, slot as nat, steps)).bytes,
                )
                &&& context@ == old(context)@.union(total(steps).counted)
            };
        lemma_saturated_slot(total(steps).bytes, capacity as nat, index_map_slot::<K, V>());
        assert(bytes == saturate(
            held_tally(capacity as nat, index_map_slot::<K, V>(), steps).bytes,
        ));
    }
    bytes
}

/// The heap bytes of an insertion-ordered set of capacity `capacity` that
/// holds `items`: `capacity` times the sizes of one entry of a map from
/// these values to nothing, and what the values report one after another.
pub fn index_set_children<K: DeepSizeOf>(
    capacity: usize,
    items: &Vec<&K>,
    heap: &Heap,
    context: &mut Context,
) -> (bytes: usize)
    requires
        all_measurable(deref_all(items@)),
    ensures
        exists|steps: Seq<Tally>|
            {
                &&& walks(deref_all(items@), heap@, old(context)@, steps)
                &&& bytes == saturate(
                    (#[trigger] held_tally(capacity as nat, index_set_slot::<K>(), steps)).bytes,
                )
                &&& final(context)@ == old(context)@.union(total(steps).counted)
            },
{
    let slot = index_slot::<K, ()>();
    let bytes = walk_held(capacity, slot, items, heap, context);
    proof {
        let steps = choose|steps: Seq<Tally>|
            {
                &&& walks(deref_all(items@), heap@, old(context)@, steps)
                &&& bytes == saturate(
                    (#[trigger] held_tally(capacity as nat, slot as nat, steps)).bytes,
                )
                &&& context@ == old(context)@.union(total(steps).counted)
            };
        lemma_saturated_slot(total(steps).bytes, capacity as nat, index_set_slot::<K>());
        assert(bytes == saturate(held_tally(capacity as nat, index_set_slot::<K>(), steps).bytes));
    }
    bytes
}

impl DeepSizeOf for indexmap::IndexMap<Node, Node> {
    open spec fn measurable(&self) -> bool {
        true
    }

    /// The map's structures at some capacity that holds its entries, and
    /// what the entries own.
    open spec fn measures(&self, heap: Seq<Alloc>, visited: Set<usize>, tally: Tally) -> bool {
        exists|capacity: usize|
            {
                &&& capacity >= index_map_entries(*self).len()
                &&& tally == #[trigger] index_map_cost::<Node, Node>(
                    capacity as nat,
                    heap,
                    index_map_entries(*self),
                    visited,
                )
            }
    }

    fn deep_size_of_children(&self, heap: &Heap, context: &mut Context) -> (bytes: usize) {
        let capacity = index_map_capacity(self);
        let entries = index_map_iter(self);
        proof {
            assert forall|j: int| 0 <= j < entries@.len() implies (#[trigger] deref_pairs(
                entries@,
            )[j]).measurable() by {}
        }
        let bytes = index_map_children::<Node, Node>(capacity, &entries, heap, context);
        proof {
            let slot = index_map_slot::<Node, Node>();
            let steps = choose|steps: Seq<Tally>|
                {
                    &&& walks(deref_pairs(entries@), heap@, old(context)@, steps)
                    &&& bytes == saturate((#[trigger] held_tally(capacity as nat, slot, steps)).bytes)
                    &&& context@ == old(context)@.union(total(steps).counted)
                };
            assert(deref_pairs(entries@) =~= borrowed_pairs(entries@));
            lemma_node_pairs_walk(heap@, index_map_entries(*self), old(context)@, steps);
            assert(self.measures(
                heap@,
                old(context)@,
                index_map_cost::<Node, Node>(
                    capacity as nat,
                    heap@,
                    index_map_entries(*self),
                    old(context)@,
                ),
            ));
        }
        bytes
    }
}

impl DeepSizeOf for indexmap::IndexSet<Node> {
    open spec fn measurable(&self) -> bool {
        true
    }

    /// The set's structures at some capacity that holds its values, and
    /// what the values own.
    open spec fn measures(&self, heap: Seq<Alloc>, visited: Set<usize>, tally: Tally) -> bool {
        exists|capacity: usize|
            {
                &&& capacity >= index_set_nodes(*self).len()
                &&& tally == #[trigger] index_set_cost::<Node>(
                    capacity as nat,
                    heap,
                    index_set_nodes(*self),
                    visited,
                )
            }
    }

    fn deep_size_of_children(&self, heap: &Heap, context: &mut Context) -> (bytes: usize) {
        let capacity = index_set_capacity(self);
        let items = index_set_iter(self);
        proof {
            lemma_nodes_measurable(items@);
        }
        let bytes = index_set_children::<Node>(capacity, &items, heap, context);
        proof {
            let slot = index_set_slot::<Node>();
            let steps = choose|steps: Seq<Tally>|
                {
                    &&& walks(deref_all(items@), heap@, old(context)@, steps)
                    &&& bytes == saturate((#[trigger] held_tally(capacity as nat, slot, steps)).bytes)
                    &&& context@ == old(context)@.union(total(steps).counted)
                };
            lemma_held_nodes(capacity as nat, slot, heap@, items@, old(context)@, steps);
            assert(self.measures(
                heap@,
                old(context)@,
                index_set_cost::<Node>(
                    capacity as nat,
                    heap@,
                    index_set_nodes(*self),
                    old(context)@,
                ),
            ));
        }
        bytes
    }
}

} // verus!
