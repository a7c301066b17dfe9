//! Size formulas for backing storage, over the numbers that a container
//! makes public.
use crate::context::Context;
use crate::engine::{add_bytes, borrowed, lemma_saturate_sum, saturate};
use crate::model::{seq_cost, Alloc, Heap, Node, Tally};
use vstd::prelude::*;

verus! {

/// The bytes of a buffer of `capacity` slots of `slot` bytes each. The
/// capacity counts, not the length: a container that has grown keeps its
/// buffer when values leave it.
pub fn slots(capacity: usize, slot: usize) -> (bytes: usize)
    ensures
        bytes == saturate(capacity as nat * slot as nat),
{
    match capacity.checked_mul(slot) {
        Some(bytes) => bytes,
        None => usize::MAX,
    }
}

/// A slot whose size is held at the largest `usize` gives the same bytes,
/// once these are held there too.
pub proof fn lemma_saturated_slot(owned: nat, capacity: nat, slot: nat)
    ensures
        saturate(owned + capacity * (saturate(slot) as nat)) == saturate(owned + capacity * slot),
{
    if slot > usize::MAX && capacity > 0 {
        assert(capacity * slot >= slot) by (nonlinear_arith)
            requires
                capacity >= 1,
        ;
        assert(capacity * (usize::MAX as nat) >= usize::MAX as nat) by (nonlinear_arith)
            requires
                capacity >= 1,
        ;
    } else if capacity == 0 {
        assert(capacity * slot == 0) by (nonlinear_arith)
            requires
                capacity == 0,
        ;
        assert(capacity * (saturate(slot) as nat) == 0) by (nonlinear_arith)
            requires
                capacity == 0,
        ;
    }
}

/// What a container costs that keeps the values `nodes` in one buffer of
/// `capacity` slots of `slot` bytes: the buffer, and what the values own.
pub open spec fn buffered_cost(
    capacity: nat,
    slot: nat,
    heap: Seq<Alloc>,
    nodes: Seq<Node>,
    visited: Set<usize>,
) -> Tally {
    seq_cost(heap, nodes, visited).plus(capacity * slot)
}

/// The heap bytes of a container that keeps the values `items` in one
/// buffer of `capacity` slots of `slot` bytes.
pub fn buffered_children(
    capacity: usize,
    slot: usize,
    items: &Vec<&Node>,
    heap: &Heap,
    context: &mut Context,
) -> (bytes: usize)
    ensures
        bytes == saturate(
            buffered_cost(capacity as nat, slot as nat, heap@, borrowed(items@), old(context)@).bytes,
        ),
        final(context)@ == old(context)@.union(
            buffered_cost(capacity as nat, slot as nat, heap@, borrowed(items@), old(context)@).counted,
        ),
{
    let buffer = slots(capacity, slot);
    let owned = heap.sum_borrowed(items, context);
    proof {
        lemma_saturate_sum(
            seq_cost(heap@, borrowed(items@), old(context)@).bytes,
            capacity as nat * slot as nat,
        );
    }
    add_bytes(owned, buffer)
}

/// The keys and values behind a sequence of borrowed entries.
pub open spec fn borrowed_pairs(entries: Seq<(&Node, &Node)>) -> Seq<(Node, Node)> {
    entries.map_values(|entry: (&Node, &Node)| (*entry.0, *entry.1))
}

/// The entries of a map in the order in which they are measured: each key,
/// then its value.
pub open spec fn interleaved(entries: Seq<(Node, Node)>) -> Seq<Node>
    decreases entries.len(),
{
    if entries.len() == 0 {
        Seq::empty()
    } else {
        interleaved(entries.drop_last()).push(entries.last().0).push(entries.last().1)
    }
}

} // verus!
