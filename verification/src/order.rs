//! The order in which values are walked makes no difference to the total.
use crate::laws::lemma_seq_counts_new;
use crate::model::{seq_cost, Alloc, Node};
use crate::reach::{
    all_satisfied, lemma_all_satisfied_each, lemma_seq_bytes, lemma_seq_closes,
    lemma_seq_counts_least, local_bytes, local_sum,
};
use vstd::prelude::*;

verus! {

/// A walk over `other` counts nothing that a walk over `items` does not,
/// where each value of `other` is among `items`.
proof fn lemma_counts_within(
    heap: Seq<Alloc>,
    items: Seq<Node>,
    other: Seq<Node>,
    visited: Set<usize>,
)
    requires
        heap.len() <= usize::MAX,
        forall|j: int| 0 <= j < other.len() ==> items.contains(#[trigger] other[j]),
    ensures
        seq_cost(heap, other, visited).counted.subset_of(seq_cost(heap, items, visited).counted),
{
    let counted = seq_cost(heap, items, visited).counted;
    let after = visited.union(counted);
    lemma_seq_closes(heap, items, visited);
    lemma_all_satisfied_each(items, after, heap.len());
    lemma_all_satisfied_each(other, after, heap.len());
    assert forall|j: int| 0 <= j < other.len() implies crate::reach::satisfied(
        #[trigger] other[j],
        after,
        heap.len(),
    ) by {
        let i = choose|i: int| 0 <= i < items.len() && items[i] == other[j];
        assert(crate::reach::satisfied(items[i], after, heap.len()));
    }
    assert(all_satisfied(other, after, heap.len()));
    lemma_seq_counts_least(heap, other, visited, visited, after);
    lemma_seq_counts_new(heap, other, visited);
}

/// A value of one sequence is a value of each sequence of the same values.
proof fn lemma_same_members(items: Seq<Node>, other: Seq<Node>, node: Node)
    requires
        items.to_multiset() == other.to_multiset(),
        items.contains(node),
    ensures
        other.contains(node),
{
    items.to_multiset_ensures();
    other.to_multiset_ensures();
    assert(items.to_multiset().count(node) > 0);
    assert(other.to_multiset().count(node) > 0);
}

/// Taking one value out of a sequence takes out what it owns itself.
proof fn lemma_local_sum_remove(items: Seq<Node>, at: int)
    requires
        0 <= at < items.len(),
    ensures
        local_sum(items) == local_sum(items.remove(at)) + local_bytes(items[at]),
    decreases items.len(),
{
    if at == items.len() - 1 {
        assert(items.remove(at) =~= items.drop_last());
    } else {
        lemma_local_sum_remove(items.drop_last(), at);
        assert(items.remove(at).drop_last() =~= items.drop_last().remove(at));
        assert(items.remove(at).last() == items.last());
    }
}

/// What the values own themselves does not depend on their order.
proof fn lemma_local_sum_permutes(items: Seq<Node>, other: Seq<Node>)
    requires
        items.to_multiset() == other.to_multiset(),
    ensures
        local_sum(items) == local_sum(other),
    decreases items.len(),
{
    items.to_multiset_ensures();
    other.to_multiset_ensures();
    if items.len() == 0 {
        assert(other.len() == 0);
    } else {
        let last = items.last();
        assert(items.contains(last)) by {
            assert(items[items.len() - 1] == last);
        }
        lemma_same_members(items, other, last);
        let at = choose|at: int| 0 <= at < other.len() && other[at] == last;
        vstd::seq_lib::to_multiset_remove(items, items.len() - 1);
        vstd::seq_lib::to_multiset_remove(other, at);
        assert(items.remove(items.len() - 1) =~= items.drop_last());
        lemma_local_sum_permutes(items.drop_last(), other.remove(at));
        lemma_local_sum_remove(other, at);
    }
}

/// The order of the values is irrelevant: two sequences of the same values,
/// each as often in one as in the other, cost the same and count the same
/// allocations.
pub proof fn law_order_is_irrelevant(
    heap: Seq<Alloc>,
    items: Seq<Node>,
    other: Seq<Node>,
    visited: Set<usize>,
)
    requires
        heap.len() <= usize::MAX,
        items.to_multiset() == other.to_multiset(),
    ensures
        seq_cost(heap, items, visited) == seq_cost(heap, other, visited),
{
    items.to_multiset_ensures();
    other.to_multiset_ensures();
    assert forall|j: int| 0 <= j < other.len() implies items.contains(#[trigger] other[j]) by {
        assert(other.contains(other[j]));
        lemma_same_members(other, items, other[j]);
    }
    assert forall|i: int| 0 <= i < items.len() implies other.contains(#[trigger] items[i]) by {
        assert(items.contains(items[i]));
        lemma_same_members(items, other, items[i]);
    }
    lemma_counts_within(heap, items, other, visited);
    lemma_counts_within(heap, other, items, visited);
    assert(seq_cost(heap, items, visited).counted =~= seq_cost(heap, other, visited).counted);
    lemma_seq_bytes(heap, items, visited);
    lemma_seq_bytes(heap, other, visited);
    lemma_local_sum_permutes(items, other);
}

} // verus!
