//! What a walk counts, said without walking: the bytes of the buffers that
//! a value owns itself, and the weight of each allocation that it reaches.
use crate::laws::lemma_node_counts_new;
use crate::model::{
    lemma_unvisited_insert, lemma_unvisited_monotone, node_cost, seq_cost, unvisited, Alloc, Node,
};
use vstd::prelude::*;

verus! {

/// The bytes of the buffers that `node` owns without passing through a
/// shared allocation.
pub open spec fn local_bytes(node: Node) -> nat
    decreases node,
{
    match node {
        Node::Inline(fields) => local_sum(fields@),
        Node::Buffer { bytes, items } => bytes as nat + local_sum(items@),
        _ => 0,
    }
}

/// The same of several values together.
pub open spec fn local_sum(items: Seq<Node>) -> nat
    decreases items,
{
    if items.len() == 0 {
        0
    } else {
        local_sum(items.drop_last()) + local_bytes(items.last())
    }
}

/// What counting the allocation `id` adds: the bytes of the value in it, and
/// the buffers that this value owns itself.
pub open spec fn alloc_weight(heap: Seq<Alloc>, id: int) -> nat {
    heap[id].size as nat + local_bytes(heap[id].content)
}

/// The weight of the allocations `0 .. n` that are in `set`.
pub open spec fn weight(heap: Seq<Alloc>, set: Set<usize>, n: nat) -> nat
    decreases n,
{
    if n == 0 {
        0
    } else {
        let rest = weight(heap, set, (n - 1) as nat);
        if set.contains((n - 1) as usize) {
            rest + alloc_weight(heap, n - 1)
        } else {
            rest
        }
    }
}

/// Two sets that agree below `n` weigh the same.
pub proof fn lemma_weight_agrees(heap: Seq<Alloc>, a: Set<usize>, b: Set<usize>, n: nat)
    requires
        n <= usize::MAX + 1,
        forall|id: usize| id < n ==> (a.contains(id) <==> b.contains(id)),
    ensures
        weight(heap, a, n) == weight(heap, b, n),
    decreases n,
{
    if n > 0 {
        lemma_weight_agrees(heap, a, b, (n - 1) as nat);
        assert(((n - 1) as usize) < n);
    }
}

/// One more allocation adds its weight.
pub proof fn lemma_weight_insert(heap: Seq<Alloc>, set: Set<usize>, id: usize, n: nat)
    requires
        n <= usize::MAX + 1,
        id < n,
        !set.contains(id),
    ensures
        weight(heap, set.insert(id), n) == weight(heap, set, n) + alloc_weight(heap, id as int),
    decreases n,
{
    if n - 1 == id {
        lemma_weight_agrees(heap, set.insert(id), set, (n - 1) as nat);
    } else {
        lemma_weight_insert(heap, set, id, (n - 1) as nat);
    }
}

/// Sets that have nothing in common weigh together what they weigh apart.
pub proof fn lemma_weight_union(heap: Seq<Alloc>, a: Set<usize>, b: Set<usize>, n: nat)
    requires
        a.disjoint(b),
    ensures
        weight(heap, a.union(b), n) == weight(heap, a, n) + weight(heap, b, n),
    decreases n,
{
    if n > 0 {
        lemma_weight_union(heap, a, b, (n - 1) as nat);
    }
}

/// What a walk charges: the buffers that the value owns itself, and the
/// weight of each allocation that the walk counts.
pub proof fn lemma_node_bytes(heap: Seq<Alloc>, node: Node, visited: Set<usize>)
    ensures
        node_cost(heap, node, visited).bytes == local_bytes(node) + weight(
            heap,
            node_cost(heap, node, visited).counted,
            heap.len(),
        ),
    decreases unvisited(heap.len(), visited), node,
{
    match node {
        Node::Inline(fields) => lemma_seq_bytes(heap, fields@, visited),
        Node::Buffer { bytes, items } => lemma_seq_bytes(heap, items@, visited),
        Node::Shared { id } => {
            if id < heap.len() && heap.len() <= usize::MAX && !visited.contains(id) {
                let inner = node_cost(heap, heap[id as int].content, visited.insert(id));
                lemma_unvisited_insert(heap.len(), visited, id);
                lemma_node_bytes(heap, heap[id as int].content, visited.insert(id));
                lemma_node_counts_new(heap, heap[id as int].content, visited.insert(id));
                assert(!inner.counted.contains(id)) by {
                    assert(visited.insert(id).contains(id));
                }
                lemma_weight_insert(heap, inner.counted, id, heap.len());
            } else {
                assert(weight(heap, Set::empty(), heap.len()) == 0) by {
                    lemma_weight_empty(heap, heap.len());
                }
            }
        },
        _ => {
            lemma_weight_empty(heap, heap.len());
        },
    }
}

/// The same of a walk over several values.
pub proof fn lemma_seq_bytes(heap: Seq<Alloc>, items: Seq<Node>, visited: Set<usize>)
    ensures
        seq_cost(heap, items, visited).bytes == local_sum(items) + weight(
            heap,
            seq_cost(heap, items, visited).counted,
            heap.len(),
        ),
    decreases unvisited(heap.len(), visited), items,
{
    if items.len() == 0 {
        lemma_weight_empty(heap, heap.len());
    } else {
        let front = seq_cost(heap, items.drop_last(), visited);
        let last = node_cost(heap, items.last(), visited.union(front.counted));
        lemma_seq_bytes(heap, items.drop_last(), visited);
        lemma_unvisited_monotone(heap.len(), visited, visited.union(front.counted));
        lemma_node_bytes(heap, items.last(), visited.union(front.counted));
        lemma_node_counts_new(heap, items.last(), visited.union(front.counted));
        assert(front.counted.disjoint(last.counted)) by {
            assert forall|id: usize| front.counted.contains(id) implies !last.counted.contains(
                id,
            ) by {
                assert(visited.union(front.counted).contains(id));
            }
        }
        lemma_weight_union(heap, front.counted, last.counted, heap.len());
    }
}

/// No allocations weigh nothing.
pub proof fn lemma_weight_empty(heap: Seq<Alloc>, n: nat)
    ensures
        weight(heap, Set::empty(), n) == 0,
    decreases n,
{
    if n > 0 {
        lemma_weight_empty(heap, (n - 1) as nat);
    }
}

/// Whether every shared allocation that `node` owns directly, of a table of
/// `n` allocations, is in `set`.
pub open spec fn satisfied(node: Node, set: Set<usize>, n: nat) -> bool
    decreases node,
{
    match node {
        Node::Inline(fields) => all_satisfied(fields@, set, n),
        Node::Buffer { bytes, items } => all_satisfied(items@, set, n),
        Node::Shared { id } => set.contains(id) || id >= n,
        _ => true,
    }
}

/// The same of several values.
pub open spec fn all_satisfied(items: Seq<Node>, set: Set<usize>, n: nat) -> bool
    decreases items,
{
    if items.len() == 0 {
        true
    } else {
        all_satisfied(items.drop_last(), set, n) && satisfied(items.last(), set, n)
    }
}

/// Whether `set` holds, with each of its allocations outside `base`, all
/// that this allocation owns directly.
pub open spec fn closed(heap: Seq<Alloc>, set: Set<usize>, base: Set<usize>) -> bool {
    forall|id: usize|
        set.contains(id) && !base.contains(id) && id < heap.len() ==> #[trigger] satisfied(
            heap[id as int].content,
            set,
            heap.len(),
        )
}

/// A larger set satisfies what a smaller one does.
pub proof fn lemma_satisfied_monotone(node: Node, small: Set<usize>, large: Set<usize>, n: nat)
    requires
        small.subset_of(large),
        satisfied(node, small, n),
    ensures
        satisfied(node, large, n),
    decreases node,
{
    match node {
        Node::Inline(fields) => lemma_all_satisfied_monotone(fields@, small, large, n),
        Node::Buffer { bytes, items } => lemma_all_satisfied_monotone(items@, small, large, n),
        _ => {},
    }
}

/// The same of several values.
pub proof fn lemma_all_satisfied_monotone(
    items: Seq<Node>,
    small: Set<usize>,
    large: Set<usize>,
    n: nat,
)
    requires
        small.subset_of(large),
        all_satisfied(items, small, n),
    ensures
        all_satisfied(items, large, n),
    decreases items,
{
    if items.len() > 0 {
        lemma_all_satisfied_monotone(items.drop_last(), small, large, n);
        lemma_satisfied_monotone(items.last(), small, large, n);
    }
}

/// Several values are satisfied where each of them is.
pub proof fn lemma_all_satisfied_each(items: Seq<Node>, set: Set<usize>, n: nat)
    ensures
        all_satisfied(items, set, n) <==> forall|i: int|
            0 <= i < items.len() ==> satisfied(#[trigger] items[i], set, n),
    decreases items.len(),
{
    if items.len() > 0 {
        let front = items.drop_last();
        lemma_all_satisfied_each(front, set, n);
        if all_satisfied(items, set, n) {
            assert forall|i: int| 0 <= i < items.len() implies satisfied(
                #[trigger] items[i],
                set,
                n,
            ) by {
                if i < front.len() {
                    assert(front[i] == items[i]);
                }
            }
        }
        if forall|i: int| 0 <= i < items.len() ==> satisfied(#[trigger] items[i], set, n) {
            assert forall|i: int| 0 <= i < front.len() implies satisfied(
                #[trigger] front[i],
                set,
                n,
            ) by {
                assert(front[i] == items[i]);
            }
            assert(satisfied(items[items.len() - 1], set, n));
        }
    }
}

/// After a walk, what was visited before together with what the walk
/// counted holds all that the value owns directly, and all that each
/// counted allocation owns directly.
pub proof fn lemma_node_closes(heap: Seq<Alloc>, node: Node, visited: Set<usize>)
    requires
        heap.len() <= usize::MAX,
    ensures
        satisfied(node, visited.union(node_cost(heap, node, visited).counted), heap.len()),
        closed(heap, visited.union(node_cost(heap, node, visited).counted), visited),
    decreases unvisited(heap.len(), visited), node,
{
    let after = visited.union(node_cost(heap, node, visited).counted);
    match node {
        Node::Inline(fields) => lemma_seq_closes(heap, fields@, visited),
        Node::Buffer { bytes, items } => lemma_seq_closes(heap, items@, visited),
        Node::Shared { id } => {
            if id < heap.len() && !visited.contains(id) {
                let inner = node_cost(heap, heap[id as int].content, visited.insert(id));
                lemma_unvisited_insert(heap.len(), visited, id);
                lemma_node_closes(heap, heap[id as int].content, visited.insert(id));
                assert(after =~= visited.insert(id).union(inner.counted));
                assert forall|other: usize|
                    after.contains(other) && !visited.contains(other) && other
                        < heap.len() implies #[trigger] satisfied(
                    heap[other as int].content,
                    after,
                    heap.len(),
                ) by {
                    if other != id {
                        assert(!visited.insert(id).contains(other));
                    }
                }
            } else {
                assert(after =~= visited);
            }
        },
        _ => {
            assert(after =~= visited);
        },
    }
}

/// The same of a walk over several values.
pub proof fn lemma_seq_closes(heap: Seq<Alloc>, items: Seq<Node>, visited: Set<usize>)
    requires
        heap.len() <= usize::MAX,
    ensures
        all_satisfied(items, visited.union(seq_cost(heap, items, visited).counted), heap.len()),
        closed(heap, visited.union(seq_cost(heap, items, visited).counted), visited),
    decreases unvisited(heap.len(), visited), items,
{
    let after = visited.union(seq_cost(heap, items, visited).counted);
    if items.len() == 0 {
        assert(after =~= visited);
    } else {
        let front = seq_cost(heap, items.drop_last(), visited);
        let middle = visited.union(front.counted);
        let last = node_cost(heap, items.last(), middle);
        lemma_seq_closes(heap, items.drop_last(), visited);
        lemma_unvisited_monotone(heap.len(), visited, middle);
        lemma_node_closes(heap, items.last(), middle);
        assert(after =~= middle.union(last.counted));
        lemma_all_satisfied_monotone(items.drop_last(), middle, after, heap.len());
        assert forall|id: usize|
            after.contains(id) && !visited.contains(id) && id < heap.len() implies #[trigger] satisfied(
            heap[id as int].content,
            after,
            heap.len(),
        ) by {
            if middle.contains(id) {
                assert(satisfied(heap[id as int].content, middle, heap.len()));
                lemma_satisfied_monotone(heap[id as int].content, middle, after, heap.len());
            }
        }
    }
}

/// A walk counts no more than it must: whatever set holds what was visited
/// before, all that the value owns directly and all that each of its own
/// new allocations owns directly, holds what the walk counts.
pub proof fn lemma_node_counts_least(
    heap: Seq<Alloc>,
    node: Node,
    visited: Set<usize>,
    base: Set<usize>,
    set: Set<usize>,
)
    requires
        heap.len() <= usize::MAX,
        base.subset_of(visited),
        visited.subset_of(set),
        satisfied(node, set, heap.len()),
        closed(heap, set, base),
    ensures
        node_cost(heap, node, visited).counted.subset_of(set),
    decreases unvisited(heap.len(), visited), node,
{
    match node {
        Node::Inline(fields) => lemma_seq_counts_least(heap, fields@, visited, base, set),
        Node::Buffer { bytes, items } => lemma_seq_counts_least(heap, items@, visited, base, set),
        Node::Shared { id } => {
            if id < heap.len() && !visited.contains(id) {
                lemma_unvisited_insert(heap.len(), visited, id);
                assert(satisfied(heap[id as int].content, set, heap.len()));
                lemma_node_counts_least(
                    heap,
                    heap[id as int].content,
                    visited.insert(id),
                    base,
                    set,
                );
            }
        },
        _ => {},
    }
}

/// The same of a walk over several values.
pub proof fn lemma_seq_counts_least(
    heap: Seq<Alloc>,
    items: Seq<Node>,
    visited: Set<usize>,
    base: Set<usize>,
    set: Set<usize>,
)
    requires
        heap.len() <= usize::MAX,
        base.subset_of(visited),
        visited.subset_of(set),
        all_satisfied(items, set, heap.len()),
        closed(heap, set, base),
    ensures
        seq_cost(heap, items, visited).counted.subset_of(set),
    decreases unvisited(heap.len(), visited), items,
{
    if items.len() > 0 {
        let front = seq_cost(heap, items.drop_last(), visited);
        lemma_seq_counts_least(heap, items.drop_last(), visited, base, set);
        lemma_unvisited_monotone(heap.len(), visited, visited.union(front.counted));
        lemma_node_counts_least(heap, items.last(), visited.union(front.counted), base, set);
    }
}

/// The allocation that comes after `id` in a ring of `n`.
pub open spec fn next_in_ring(id: int, n: nat) -> usize {
    if id + 1 == n {
        0
    } else {
        (id + 1) as usize
    }
}

/// Whether the table is one ring of owners: each allocation owns the next,
/// and the last owns the first.
pub open spec fn is_ring(heap: Seq<Alloc>) -> bool {
    &&& 0 < heap.len() <= usize::MAX
    &&& forall|id: int|
        0 <= id < heap.len() ==> (#[trigger] heap[id]).content == (Node::Shared {
            id: next_in_ring(id, heap.len()),
        })
}

/// The bytes of the values in the allocations `0 .. n`.
pub open spec fn sizes(heap: Seq<Alloc>, n: nat) -> nat
    decreases n,
{
    if n == 0 {
        0
    } else {
        sizes(heap, (n - 1) as nat) + heap[n - 1].size as nat
    }
}

/// In a ring, a set that holds what each of its allocations owns holds
/// every allocation from one of its own upwards.
proof fn lemma_ring_upwards(heap: Seq<Alloc>, set: Set<usize>, from: usize, to: usize)
    requires
        is_ring(heap),
        closed(heap, set, Set::empty()),
        set.contains(from),
        from <= to < heap.len(),
    ensures
        set.contains(to),
    decreases to - from,
{
    if from < to {
        lemma_ring_upwards(heap, set, from, (to - 1) as usize);
        let before = (to - 1) as usize;
        assert(satisfied(heap[before as int].content, set, heap.len()));
        assert(heap[before as int].content == (Node::Shared {
            id: next_in_ring(before as int, heap.len()),
        }));
    }
}

/// In a ring, the allocations `0 .. n` weigh what the values in them take.
proof fn lemma_ring_weight(heap: Seq<Alloc>, set: Set<usize>, n: nat)
    requires
        is_ring(heap),
        n <= heap.len(),
        forall|id: usize| id < n ==> set.contains(id),
    ensures
        weight(heap, set, n) == sizes(heap, n),
    decreases n,
{
    if n > 0 {
        lemma_ring_weight(heap, set, (n - 1) as nat);
        assert(set.contains((n - 1) as usize));
        assert(heap[n - 1].content == (Node::Shared { id: next_in_ring(n - 1, heap.len()) }));
    }
}

/// Cycles end: in a ring of owners, whichever allocation the walk enters
/// by, each allocation of the ring is counted, and charged, once.
pub proof fn law_ring_is_charged_once(heap: Seq<Alloc>, start: usize)
    requires
        is_ring(heap),
        start < heap.len(),
    ensures
        node_cost(heap, Node::Shared { id: start }, Set::empty()).bytes == sizes(heap, heap.len()),
        forall|id: usize|
            node_cost(heap, Node::Shared { id: start }, Set::empty()).counted.contains(id) <==> id
                < heap.len(),
{
    let entry = Node::Shared { id: start };
    let counted = node_cost(heap, entry, Set::empty()).counted;
    lemma_node_closes(heap, entry, Set::empty());
    lemma_node_counts_new(heap, entry, Set::empty());
    assert(Set::<usize>::empty().union(counted) =~= counted);
    assert(counted.contains(start));
    let last = (heap.len() - 1) as usize;
    lemma_ring_upwards(heap, counted, start, last);
    assert(counted.contains(0)) by {
        assert(satisfied(heap[last as int].content, counted, heap.len()));
        assert(heap[last as int].content == (Node::Shared {
            id: next_in_ring(last as int, heap.len()),
        }));
    }
    assert forall|id: usize| id < heap.len() implies counted.contains(id) by {
        lemma_ring_upwards(heap, counted, 0, id);
    }
    lemma_node_bytes(heap, entry, Set::empty());
    lemma_ring_weight(heap, counted, heap.len());
}

} // verus!
