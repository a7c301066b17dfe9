//! What holds of every measurement.
use crate::layout::buffered_cost;
use crate::model::{
    lemma_unvisited_insert, lemma_unvisited_monotone, node_cost, seq_cost, unvisited, Alloc, Node,
    Tally,
};
use vstd::prelude::*;

verus! {

/// A walk counts only allocations of the table that had not been counted.
pub proof fn lemma_node_counts_new(heap: Seq<Alloc>, node: Node, visited: Set<usize>)
    ensures
        forall|id: usize|
            #![trigger node_cost(heap, node, visited).counted.contains(id)]
            node_cost(heap, node, visited).counted.contains(id) ==> id < heap.len()
                && !visited.contains(id),
    decreases unvisited(heap.len(), visited), node,
{
    match node {
        Node::Inline(fields) => {
            lemma_seq_counts_new(heap, fields@, visited);
            assert(node_cost(heap, node, visited) == seq_cost(heap, fields@, visited));
        },
        Node::Buffer { bytes, items } => {
            lemma_seq_counts_new(heap, items@, visited);
            assert(node_cost(heap, node, visited).counted == seq_cost(
                heap,
                items@,
                visited,
            ).counted);
        },
        Node::Shared { id } => {
            if id < heap.len() && heap.len() <= usize::MAX && !visited.contains(id) {
                lemma_unvisited_insert(heap.len(), visited, id);
                let inner = node_cost(heap, heap[id as int].content, visited.insert(id));
                lemma_node_counts_new(heap, heap[id as int].content, visited.insert(id));
                assert(node_cost(heap, node, visited).counted == inner.counted.insert(id));
                assert forall|other: usize|
                    inner.counted.insert(id).contains(other) implies other < heap.len()
                    && !visited.contains(other) by {
                    if other != id {
                        assert(inner.counted.contains(other));
                        assert(!visited.insert(id).contains(other));
                    }
                }
            }
        },
        _ => {},
    }
}

/// The same of a walk over several values.
pub proof fn lemma_seq_counts_new(heap: Seq<Alloc>, items: Seq<Node>, visited: Set<usize>)
    ensures
        forall|id: usize|
            #![trigger seq_cost(heap, items, visited).counted.contains(id)]
            seq_cost(heap, items, visited).counted.contains(id) ==> id < heap.len()
                && !visited.contains(id),
    decreases unvisited(heap.len(), visited), items,
{
    if items.len() > 0 {
        let front = seq_cost(heap, items.drop_last(), visited);
        lemma_seq_counts_new(heap, items.drop_last(), visited);
        lemma_unvisited_monotone(heap.len(), visited, visited.union(front.counted));
        let last = node_cost(heap, items.last(), visited.union(front.counted));
        lemma_node_counts_new(heap, items.last(), visited.union(front.counted));
        assert forall|id: usize| front.counted.union(last.counted).contains(id) implies id
            < heap.len() && !visited.contains(id) by {
            if last.counted.contains(id) {
                assert(!visited.union(front.counted).contains(id));
            } else {
                assert(front.counted.contains(id));
            }
        }
    }
}

/// Allocations that a walk does not reach make no difference to it: with
/// them counted beforehand, the walk yields the same.
pub proof fn lemma_node_frame(heap: Seq<Alloc>, node: Node, visited: Set<usize>, extra: Set<usize>)
    requires
        extra.disjoint(node_cost(heap, node, visited).counted),
    ensures
        node_cost(heap, node, visited.union(extra)) == node_cost(heap, node, visited),
    decreases unvisited(heap.len(), visited), node,
{
    match node {
        Node::Inline(fields) => lemma_seq_frame(heap, fields@, visited, extra),
        Node::Buffer { bytes, items } => lemma_seq_frame(heap, items@, visited, extra),
        Node::Shared { id } => {
            if id < heap.len() && heap.len() <= usize::MAX && !visited.contains(id) {
                assert(node_cost(heap, node, visited).counted.contains(id));
                lemma_unvisited_insert(heap.len(), visited, id);
                lemma_node_frame(heap, heap[id as int].content, visited.insert(id), extra);
                assert(visited.union(extra).insert(id) =~= visited.insert(id).union(extra));
            }
        },
        _ => {},
    }
}

/// The same of a walk over several values.
pub proof fn lemma_seq_frame(heap: Seq<Alloc>, items: Seq<Node>, visited: Set<usize>, extra: Set<usize>)
    requires
        extra.disjoint(seq_cost(heap, items, visited).counted),
    ensures
        seq_cost(heap, items, visited.union(extra)) == seq_cost(heap, items, visited),
    decreases unvisited(heap.len(), visited), items,
{
    if items.len() > 0 {
        let front = seq_cost(heap, items.drop_last(), visited);
        lemma_seq_frame(heap, items.drop_last(), visited, extra);
        lemma_unvisited_monotone(heap.len(), visited, visited.union(front.counted));
        lemma_node_frame(heap, items.last(), visited.union(front.counted), extra);
        assert(visited.union(extra).union(front.counted) =~= visited.union(front.counted).union(
            extra,
        ));
    }
}

/// Walking one more value after `items`.
pub proof fn lemma_seq_push(heap: Seq<Alloc>, items: Seq<Node>, node: Node, visited: Set<usize>)
    ensures
        seq_cost(heap, items.push(node), visited) == seq_cost(heap, items, visited).then_walk(
            node_cost(heap, node, visited.union(seq_cost(heap, items, visited).counted)),
        ),
{
    assert(items.push(node).drop_last() =~= items);
    assert(items.push(node).last() == node);
}

/// Walking a single value.
pub proof fn lemma_seq_single(heap: Seq<Alloc>, node: Node, visited: Set<usize>)
    ensures
        seq_cost(heap, seq![node], visited) == node_cost(heap, node, visited),
{
    lemma_seq_push(heap, Seq::empty(), node, visited);
    assert(Seq::<Node>::empty().push(node) =~= seq![node]);
    assert(seq_cost(heap, Seq::<Node>::empty(), visited) == Tally::zero());
    assert(visited.union(Set::empty()) =~= visited);
    let one = node_cost(heap, node, visited);
    assert(Tally::zero().then_walk(one).counted =~= one.counted);
}

/// Walking `front` and then `back` is walking the two in one sequence.
pub proof fn lemma_seq_concat(heap: Seq<Alloc>, front: Seq<Node>, back: Seq<Node>, visited: Set<usize>)
    ensures
        seq_cost(heap, front + back, visited) == seq_cost(heap, front, visited).then_walk(
            seq_cost(heap, back, visited.union(seq_cost(heap, front, visited).counted)),
        ),
    decreases back.len(),
{
    let first = seq_cost(heap, front, visited);
    let second = seq_cost(heap, back, visited.union(first.counted));
    if back.len() == 0 {
        assert(front + back =~= front);
        assert(first.then_walk(second).counted =~= first.counted);
    } else {
        lemma_seq_concat(heap, front, back.drop_last(), visited);
        assert((front + back).drop_last() =~= front + back.drop_last());
        assert((front + back).last() == back.last());
        let middle = seq_cost(heap, back.drop_last(), visited.union(first.counted));
        let last = node_cost(heap, back.last(), visited.union(first.counted).union(middle.counted));
        assert(visited.union(first.then_walk(middle).counted) =~= visited.union(
            first.counted,
        ).union(middle.counted));
        assert(first.then_walk(middle).then_walk(last).counted =~= first.then_walk(
            middle.then_walk(last),
        ).counted);
    }
}

/// No double counting: a root that holds two owners of one shared
/// allocation costs what one owner costs.
pub proof fn law_no_double_counting(heap: Seq<Alloc>, id: usize, visited: Set<usize>)
    ensures
        seq_cost(heap, seq![Node::Shared { id }, Node::Shared { id }], visited) == node_cost(
            heap,
            Node::Shared { id },
            visited,
        ),
{
    let owner = Node::Shared { id };
    let both = seq![owner, owner];
    let one = node_cost(heap, owner, visited);
    lemma_seq_single(heap, owner, visited);
    lemma_seq_push(heap, seq![owner], owner, visited);
    assert(seq![owner].push(owner) =~= both);
    let again = node_cost(heap, owner, visited.union(one.counted));
    assert(again == Tally::zero());
    assert(one.then_walk(again).counted =~= one.counted);
}

/// An owner of an allocation that was counted before adds nothing, and
/// leaves the record as it was.
pub proof fn law_counted_owner_is_free(heap: Seq<Alloc>, id: usize, visited: Set<usize>)
    requires
        visited.contains(id),
    ensures
        node_cost(heap, Node::Shared { id }, visited) == Tally::zero(),
{
}

/// Cycles end: an allocation that owns itself, directly or through other
/// values of its own, is charged once, for its bytes and for what else
/// it owns.
pub proof fn law_cycle_is_charged_once(heap: Seq<Alloc>, id: usize, visited: Set<usize>)
    requires
        id < heap.len(),
        heap.len() <= usize::MAX,
        !visited.contains(id),
        heap[id as int].content == (Node::Shared { id }),
    ensures
        node_cost(heap, Node::Shared { id }, visited) == (Tally {
            bytes: heap[id as int].size as nat,
            counted: set![id],
        }),
{
    let inner = node_cost(heap, heap[id as int].content, visited.insert(id));
    assert(inner == Tally::zero());
    assert(inner.counted.insert(id) =~= set![id]);
}

/// Additivity: two values that share no allocation, kept in one buffer,
/// cost the buffer and what each costs alone.
pub proof fn law_disjoint_values_add_up(
    capacity: nat,
    slot: nat,
    heap: Seq<Alloc>,
    a: Node,
    b: Node,
    visited: Set<usize>,
)
    requires
        node_cost(heap, a, visited).counted.disjoint(node_cost(heap, b, visited).counted),
    ensures
        buffered_cost(capacity, slot, heap, seq![a, b], visited).bytes == capacity * slot
            + node_cost(heap, a, visited).bytes + node_cost(heap, b, visited).bytes,
        buffered_cost(capacity, slot, heap, seq![a, b], visited).counted == node_cost(
            heap,
            a,
            visited,
        ).counted.union(node_cost(heap, b, visited).counted),
{
    let first = node_cost(heap, a, visited);
    lemma_seq_single(heap, a, visited);
    lemma_seq_push(heap, seq![a], b, visited);
    assert(seq![a].push(b) =~= seq![a, b]);
    lemma_node_frame(heap, b, visited, first.counted);
}

/// Additivity of sequences: when what `back` counts alone is apart from
/// what `front` counts, the two in one sequence cost the sum.
pub proof fn law_disjoint_sequences_add_up(
    heap: Seq<Alloc>,
    front: Seq<Node>,
    back: Seq<Node>,
    visited: Set<usize>,
)
    requires
        seq_cost(heap, front, visited).counted.disjoint(seq_cost(heap, back, visited).counted),
    ensures
        seq_cost(heap, front + back, visited) == seq_cost(heap, front, visited).then_walk(
            seq_cost(heap, back, visited),
        ),
{
    lemma_seq_concat(heap, front, back, visited);
    lemma_seq_frame(heap, back, visited, seq_cost(heap, front, visited).counted);
}

/// What the values of `items` cost when each is measured alone, added up.
pub open spec fn alone_bytes(heap: Seq<Alloc>, items: Seq<Node>, visited: Set<usize>) -> nat
    decreases items.len(),
{
    if items.len() == 0 {
        0
    } else {
        alone_bytes(heap, items.drop_last(), visited) + node_cost(
            heap,
            items.last(),
            visited,
        ).bytes
    }
}

/// The allocations that the values of `items` count when each is measured
/// alone.
pub open spec fn alone_counted(heap: Seq<Alloc>, items: Seq<Node>, visited: Set<usize>) -> Set<
    usize,
>
    decreases items.len(),
{
    if items.len() == 0 {
        Set::empty()
    } else {
        alone_counted(heap, items.drop_last(), visited).union(
            node_cost(heap, items.last(), visited).counted,
        )
    }
}

/// Whether no two values of `items` share an allocation: what one counts
/// alone, no other counts alone.
pub open spec fn apart(heap: Seq<Alloc>, items: Seq<Node>, visited: Set<usize>) -> bool {
    forall|i: int, j: int|
        0 <= i < j < items.len() ==> (#[trigger] node_cost(
            heap,
            items[i],
            visited,
        )).counted.disjoint((#[trigger] node_cost(heap, items[j], visited)).counted)
}

/// An allocation that the values count alone is counted by one of them.
proof fn lemma_alone_counted_by_one(
    heap: Seq<Alloc>,
    items: Seq<Node>,
    visited: Set<usize>,
    id: usize,
)
    requires
        alone_counted(heap, items, visited).contains(id),
    ensures
        exists|i: int|
            0 <= i < items.len() && (#[trigger] node_cost(heap, items[i], visited)).counted.contains(
                id,
            ),
    decreases items.len(),
{
    if items.len() > 0 {
        if node_cost(heap, items.last(), visited).counted.contains(id) {
            assert(node_cost(heap, items[items.len() - 1], visited).counted.contains(id));
        } else {
            lemma_alone_counted_by_one(heap, items.drop_last(), visited, id);
            let i = choose|i: int|
                0 <= i < items.drop_last().len() && (#[trigger] node_cost(
                    heap,
                    items.drop_last()[i],
                    visited,
                )).counted.contains(id);
            assert(items.drop_last()[i] == items[i]);
            assert(node_cost(heap, items[i], visited).counted.contains(id));
        }
    }
}

/// Additivity of any number of values: where no two of them share an
/// allocation, the values in one sequence cost the sum of what each costs
/// alone, and count what each counts alone.
pub proof fn law_values_apart_add_up(heap: Seq<Alloc>, items: Seq<Node>, visited: Set<usize>)
    requires
        apart(heap, items, visited),
    ensures
        seq_cost(heap, items, visited).bytes == alone_bytes(heap, items, visited),
        seq_cost(heap, items, visited).counted == alone_counted(heap, items, visited),
    decreases items.len(),
{
    if items.len() > 0 {
        let front = items.drop_last();
        let walked = seq_cost(heap, front, visited);
        let last = node_cost(heap, items.last(), visited);
        assert(apart(heap, front, visited)) by {
            assert forall|i: int, j: int| 0 <= i < j < front.len() implies (#[trigger] node_cost(
                heap,
                front[i],
                visited,
            )).counted.disjoint((#[trigger] node_cost(heap, front[j], visited)).counted) by {
                assert(front[i] == items[i] && front[j] == items[j]);
            }
        }
        law_values_apart_add_up(heap, front, visited);
        assert(walked.counted.disjoint(last.counted)) by {
            assert forall|id: usize| walked.counted.contains(id) implies !last.counted.contains(
                id,
            ) by {
                lemma_alone_counted_by_one(heap, front, visited, id);
                let i = choose|i: int|
                    0 <= i < front.len() && (#[trigger] node_cost(
                        heap,
                        front[i],
                        visited,
                    )).counted.contains(id);
                assert(front[i] == items[i]);
                assert(items[items.len() - 1] == items.last());
                assert(node_cost(heap, items[i], visited).counted.disjoint(
                    node_cost(heap, items[items.len() - 1], visited).counted,
                ));
            }
        }
        lemma_node_frame(heap, items.last(), visited, walked.counted);
        assert(seq_cost(heap, items, visited).counted =~= alone_counted(heap, items, visited));
    }
}

/// Additivity in a container: values that share no allocation, kept in one
/// buffer, cost the buffer and the sum of what each costs alone.
pub proof fn law_container_of_values_apart(
    capacity: nat,
    slot: nat,
    heap: Seq<Alloc>,
    items: Seq<Node>,
    visited: Set<usize>,
)
    requires
        apart(heap, items, visited),
    ensures
        buffered_cost(capacity, slot, heap, items, visited).bytes == capacity * slot + alone_bytes(
            heap,
            items,
            visited,
        ),
{
    law_values_apart_add_up(heap, items, visited);
}

/// Declared zero: a value that owns no heap memory reports nothing and
/// counts nothing, whatever was counted before.
pub proof fn law_flat_reports_zero(heap: Seq<Alloc>, visited: Set<usize>)
    ensures
        node_cost(heap, Node::Flat, visited) == Tally::zero(),
        forall|id: usize| node_cost(heap, Node::Weak { id }, visited) == Tally::zero(),
{
}

/// Capacity sensitivity: the buffer is charged by its capacity alone. With
/// the capacity kept, a container holds at least the buffer's bytes however
/// few values are left in it, and dropping a value that owns nothing
/// changes nothing.
pub proof fn law_capacity_drives_buffer(
    capacity: nat,
    slot: nat,
    heap: Seq<Alloc>,
    items: Seq<Node>,
    visited: Set<usize>,
)
    ensures
        buffered_cost(capacity, slot, heap, items, visited).bytes == capacity * slot + seq_cost(
            heap,
            items,
            visited,
        ).bytes,
        buffered_cost(capacity, slot, heap, Seq::empty(), visited).bytes == capacity * slot,
        buffered_cost(capacity, slot, heap, items.push(Node::Flat), visited) == buffered_cost(
            capacity,
            slot,
            heap,
            items,
            visited,
        ),
{
    let front = seq_cost(heap, items, visited);
    lemma_seq_push(heap, items, Node::Flat, visited);
    assert(front.then_walk(Tally::zero()).counted =~= front.counted);
}

/// A larger capacity never costs less.
pub proof fn law_capacity_is_monotone(
    small: nat,
    large: nat,
    slot: nat,
    heap: Seq<Alloc>,
    items: Seq<Node>,
    visited: Set<usize>,
)
    requires
        small <= large,
    ensures
        buffered_cost(small, slot, heap, items, visited).bytes <= buffered_cost(
            large,
            slot,
            heap,
            items,
            visited,
        ).bytes,
{
    assert(small * slot <= large * slot) by (nonlinear_arith)
        requires
            small <= large,
    ;
}

} // verus!
