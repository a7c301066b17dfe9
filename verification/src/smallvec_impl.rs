//! Small vectors: values kept inside the vector itself until they outgrow
//! it, and in a heap buffer from then on.
use crate::capability::DeepSizeOf;
use crate::context::Context;
use crate::engine::{borrowed, saturate};
use crate::layout::buffered_cost;
use crate::model::{seq_cost, Alloc, Heap, Node, Tally};
use crate::structural::{total, walks};
use crate::walk::{
    all_measurable, deref_all, held_tally, lemma_held_nodes, lemma_nodes_measurable, walk_held,
};
use vstd::prelude::*;

verus! {

/// How many values a small vector keeps inline.
pub const INLINE: usize = 4;

/// A small vector of values: a `smallvec::SmallVec` that keeps up to
/// [`INLINE`] of them inline.
#[verifier::external_body]
pub struct NodeSmallVec {
    inner: smallvec::SmallVec<[Node; INLINE]>,
}

/// The values that a small vector holds, in order.
pub uninterp spec fn small_vec_nodes(vector: NodeSmallVec) -> Seq<Node>;

/// `smallvec::SmallVec::new`: an empty vector.
#[verifier::external_body]
fn small_vec_new() -> (vector: NodeSmallVec)
    ensures
        small_vec_nodes(vector) == Seq::<Node>::empty(),
{
    NodeSmallVec { inner: smallvec::SmallVec::new() }
}

/// `smallvec::SmallVec::push`: the value is added at the end.
#[verifier::external_body]
fn small_vec_push(vector: &mut NodeSmallVec, node: Node)
    ensures
        small_vec_nodes(*final(vector)) == small_vec_nodes(*old(vector)).push(node),
{
    vector.inner.push(node)
}

/// `smallvec::SmallVec::iter`: the values, in order.
#[verifier::external_body]
fn small_vec_iter(vector: &NodeSmallVec) -> (items: Vec<&Node>)
    ensures
        borrowed(items@) == small_vec_nodes(*vector),
{
    vector.inner.iter().collect()
}

/// `smallvec::SmallVec::spilled`: whether the values have moved to a heap
/// buffer. A vector that holds more values than fit inline has spilled; one
/// that holds fewer may have spilled earlier.
#[verifier::external_body]
fn small_vec_spilled(vector: &NodeSmallVec) -> (spilled: bool)
    ensures
        small_vec_nodes(*vector).len() > INLINE ==> spilled,
{
    vector.inner.spilled()
}

/// `smallvec::SmallVec::capacity`: how many values the vector can hold
/// without allocating again, which is no less than the number of values in
/// it, nor than the number that it keeps inline.
#[verifier::external_body]
fn small_vec_capacity(vector: &NodeSmallVec) -> (capacity: usize)
    ensures
        capacity >= small_vec_nodes(*vector).len(),
        capacity >= INLINE,
{
    vector.inner.capacity()
}

/// What a small vector of values of type `T` costs where its values are
/// descriptions: once spilled, its heap buffer of `capacity` slots; inline,
/// no buffer at all. What the described values own counts either way.
pub open spec fn small_vec_cost<T>(
    spilled: bool,
    capacity: nat,
    heap: Seq<Alloc>,
    nodes: Seq<Node>,
    visited: Set<usize>,
) -> Tally {
    if spilled {
        buffered_cost(capacity, vstd::layout::size_of::<T>(), heap, nodes, visited)
    } else {
        seq_cost(heap, nodes, visited)
    }
}

/// What a small vector of values of type `T` costs whose values reported
/// `steps`: once spilled, its heap buffer of `capacity` slots besides;
/// inline, no buffer at all.
pub open spec fn small_vec_tally<T>(spilled: bool, capacity: nat, steps: Seq<Tally>) -> Tally {
    if spilled {
        held_tally(capacity, vstd::layout::size_of::<T>(), steps)
    } else {
        total(steps)
    }
}

/// The heap bytes of a small vector of capacity `capacity`, spilled or not,
/// that holds the values `items`.
pub fn small_vec_children<T: DeepSizeOf>(
    spilled: bool,
    capacity: usize,
    items: &Vec<&T>,
    heap: &Heap,
    context: &mut Context,
) -> (bytes: usize)
    requires
        all_measurable(deref_all(items@)),
    ensures
        exists|steps: Seq<Tally>|
            {
                &&& walks(deref_all(items@), heap@, old(context)@, steps)
                &&& bytes == saturate(
                    (#[trigger] small_vec_tally::<T>(spilled, capacity as nat, steps)).bytes,
                )
                &&& final(context)@ == old(context)@.union(total(steps).counted)
            },
{
    if spilled {
        let bytes = walk_held(capacity, core::mem::size_of::<T>(), items, heap, context);
        proof {
            let slot = vstd::layout::size_of::<T>();
            let steps = choose|steps: Seq<Tally>|
                {
                    &&& walks(deref_all(items@), heap@, old(context)@, steps)
                    &&& bytes == saturate((#[trigger] held_tally(capacity as nat, slot, steps)).bytes)
                    &&& context@ == old(context)@.union(total(steps).counted)
                };
            assert(small_vec_tally::<T>(true, capacity as nat, steps) == held_tally(
                capacity as nat,
                slot,
                steps,
            ));
        }
        bytes
    } else {
        let bytes = walk_held(0, 0, items, heap, context);
        proof {
            let steps = choose|steps: Seq<Tally>|
                {
                    &&& walks(deref_all(items@), heap@, old(context)@, steps)
                    &&& bytes == saturate((#[trigger] held_tally(0, 0, steps)).bytes)
                    &&& context@ == old(context)@.union(total(steps).counted)
                };
            assert(small_vec_tally::<T>(false, capacity as nat, steps).bytes == held_tally(
                0,
                0,
                steps,
            ).bytes);
        }
        bytes
    }
}

/// The boundary for values of any type: inline, the vector reports what
/// its values report; spilled, it reports `capacity` slots more. What the
/// values report is the same on both sides.
pub proof fn law_small_vec_boundary_of<T>(capacity: nat, steps: Seq<Tally>)
    ensures
        small_vec_tally::<T>(false, capacity, steps) == total(steps),
        small_vec_tally::<T>(true, capacity, steps).bytes == small_vec_tally::<T>(
            false,
            capacity,
            steps,
        ).bytes + capacity * vstd::layout::size_of::<T>(),
        small_vec_tally::<T>(true, capacity, steps).counted == small_vec_tally::<T>(
            false,
            capacity,
            steps,
        ).counted,
{
}

/// The boundary between inline and spilled: inline, the vector reports no
/// buffer; spilled, it reports `capacity` slots more. What the values own is
/// the same on both sides.
pub proof fn law_small_vec_boundary<T>(
    capacity: nat,
    heap: Seq<Alloc>,
    nodes: Seq<Node>,
    visited: Set<usize>,
)
    ensures
        small_vec_cost::<T>(false, capacity, heap, nodes, visited) == seq_cost(heap, nodes, visited),
        small_vec_cost::<T>(true, capacity, heap, nodes, visited).bytes == small_vec_cost::<T>(
            false,
            capacity,
            heap,
            nodes,
            visited,
        ).bytes + capacity * vstd::layout::size_of::<T>(),
        small_vec_cost::<T>(true, capacity, heap, nodes, visited).counted == small_vec_cost::<T>(
            false,
            capacity,
            heap,
            nodes,
            visited,
        ).counted,
{
}

impl NodeSmallVec {
    /// The small vector that holds `nodes`, in their order.
    pub fn from_nodes(nodes: Vec<Node>) -> (vector: NodeSmallVec)
        ensures
            small_vec_nodes(vector) == nodes@,
    {
        let mut nodes = nodes;
        let ghost all = nodes@;
        let mut vector = small_vec_new();
        while nodes.len() > 0
            invariant
                small_vec_nodes(vector) + nodes@ == all,
            decreases nodes.len(),
        {
            let ghost held = small_vec_nodes(vector);
            let ghost rest = nodes@;
            let node = nodes.remove(0);
            small_vec_push(&mut vector, node);
            assert(held.push(node) + nodes@ =~= held + rest);
        }
        assert(small_vec_nodes(vector) + nodes@ =~= small_vec_nodes(vector));
        vector
    }
}

impl DeepSizeOf for NodeSmallVec {
    open spec fn measurable(&self) -> bool {
        true
    }

    /// Inline or spilled at some capacity, spilled for certain where more
    /// values are held than fit inline.
    open spec fn measures(&self, heap: Seq<Alloc>, visited: Set<usize>, tally: Tally) -> bool {
        exists|spilled: bool, capacity: usize|
            {
                &&& small_vec_nodes(*self).len() > INLINE ==> spilled
                &&& capacity >= small_vec_nodes(*self).len()
                &&& capacity >= INLINE
                &&& tally == #[trigger] small_vec_cost::<Node>(
                    spilled,
                    capacity as nat,
                    heap,
                    small_vec_nodes(*self),
                    visited,
                )
            }
    }

    fn deep_size_of_children(&self, heap: &Heap, context: &mut Context) -> (bytes: usize) {
        let spilled = small_vec_spilled(self);
        let capacity = small_vec_capacity(self);
        let items = small_vec_iter(self);
        proof {
            lemma_nodes_measurable(items@);
        }
        let bytes = small_vec_children::<Node>(spilled, capacity, &items, heap, context);
        proof {
            let steps = choose|steps: Seq<Tally>|
                {
                    &&& walks(deref_all(items@), heap@, old(context)@, steps)
                    &&& bytes == saturate(
                        (#[trigger] small_vec_tally::<Node>(spilled, capacity as nat, steps)).bytes,
                    )
                    &&& context@ == old(context)@.union(total(steps).counted)
                };
            lemma_held_nodes(
                capacity as nat,
                vstd::layout::size_of::<Node>(),
                heap@,
                items@,
                old(context)@,
                steps,
            );
            assert(small_vec_tally::<Node>(spilled, capacity as nat, steps)
                == small_vec_cost::<Node>(
                spilled,
                capacity as nat,
                heap@,
                small_vec_nodes(*self),
                old(context)@,
            ));
            assert(self.measures(
                heap@,
                old(context)@,
                small_vec_cost::<Node>(
                    spilled,
                    capacity as nat,
                    heap@,
                    small_vec_nodes(*self),
                    old(context)@,
                ),
            ));
        }
        bytes
    }
}

} // verus!
