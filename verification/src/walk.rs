//! Walking the values that a container holds, whatever their type.
use crate::capability::DeepSizeOf;
use crate::context::Context;
use crate::engine::{add_bytes, borrowed, lemma_saturate_sum, saturate};
use crate::laws::lemma_seq_push;
use crate::layout::{buffered_cost, interleaved, slots};
use crate::model::{node_cost, seq_cost, Alloc, Heap, Node, Tally};
use crate::structural::{total, walks};
use vstd::prelude::*;

verus! {

/// The values behind a sequence of references.
pub open spec fn deref_all<T>(items: Seq<&T>) -> Seq<T> {
    items.map_values(|item: &T| *item)
}

/// The keys and values behind a sequence of borrowed entries.
pub open spec fn deref_pairs<K, V>(entries: Seq<(&K, &V)>) -> Seq<(K, V)> {
    entries.map_values(|entry: (&K, &V)| (*entry.0, *entry.1))
}

/// Whether each of the values can be measured.
pub open spec fn all_measurable<T: DeepSizeOf>(items: Seq<T>) -> bool {
    forall|i: int| 0 <= i < items.len() ==> (#[trigger] items[i]).measurable()
}

/// What a container costs that keeps its values in one buffer of `capacity`
/// slots of `slot` bytes, where the values reported `steps`.
pub open spec fn held_tally(capacity: nat, slot: nat, steps: Seq<Tally>) -> Tally {
    total(steps).plus(capacity * slot)
}

/// The heap bytes of a container that keeps the values `items` in one
/// buffer of `capacity` slots of `slot` bytes: the buffer, and what the
/// values report one after another.
pub fn walk_held<T: DeepSizeOf>(
    capacity: usize,
    slot: usize,
    items: &Vec<&T>,
    heap: &Heap,
    context: &mut Context,
) -> (bytes: usize)
    requires
        all_measurable(deref_all(items@)),
    ensures
        exists|steps: Seq<Tally>|
            {
                &&& walks(deref_all(items@), heap@, old(context)@, steps)
                &&& bytes == saturate(
                    (#[trigger] held_tally(capacity as nat, slot as nat, steps)).bytes,
                )
                &&& final(context)@ == old(context)@.union(total(steps).counted)
            },
{
    let ghost before = context@;
    let ghost values = deref_all(items@);
    let ghost mut steps: Seq<Tally> = Seq::empty();
    let mut owned: usize = 0;
    let mut i: usize = 0;
    assert(context@ =~= before.union(Set::empty()));
    while i < items.len()
        invariant
            i <= items.len(),
            steps.len() == i,
            values == deref_all(items@),
            all_measurable(values),
            forall|j: int|
                0 <= j < i ==> #[trigger] values[j].measures(
                    heap@,
                    before.union(total(steps.take(j)).counted),
                    steps[j],
                ),
            owned == saturate(total(steps).bytes),
            context@ == before.union(total(steps).counted),
        decreases items.len() - i,
    {
        let ghost at = context@;
        let item: &T = items[i];
        assert(*item == values[i as int]);
        assert(values[i as int].measurable());
        let one = item.deep_size_of_children(heap, context);
        proof {
            let step = choose|step: Tally|
                {
                    &&& #[trigger] values[i as int].measures(heap@, at, step)
                    &&& one == saturate(step.bytes)
                    &&& context@ == at.union(step.counted)
                };
            let next = steps.push(step);
            assert(next.drop_last() =~= steps);
            assert(next.take(i as int) =~= steps);
            assert forall|j: int| 0 <= j < i + 1 implies #[trigger] values[j].measures(
                heap@,
                before.union(total(next.take(j)).counted),
                next[j],
            ) by {
                if j < i {
                    assert(next.take(j) =~= steps.take(j));
                }
            }
            lemma_saturate_sum(total(steps).bytes, step.bytes);
            assert(context@ =~= before.union(total(next).counted));
            steps = next;
        }
        owned = add_bytes(owned, one);
        i += 1;
    }
    let buffer = slots(capacity, slot);
    proof {
        assert(walks(values, heap@, before, steps));
        lemma_saturate_sum(total(steps).bytes, capacity as nat * slot as nat);
        assert(held_tally(capacity as nat, slot as nat, steps).bytes == total(steps).bytes
            + capacity as nat * slot as nat);
    }
    add_bytes(owned, buffer)
}

/// The heap bytes of a container that keeps the entries `entries` in one
/// buffer of `capacity` slots of `slot` bytes: the buffer, and what each
/// key and then its value report, one entry after another.
pub fn walk_held_pairs<K: DeepSizeOf, V: DeepSizeOf>(
    capacity: usize,
    slot: usize,
    entries: &Vec<(&K, &V)>,
    heap: &Heap,
    context: &mut Context,
) -> (bytes: usize)
    requires
        all_measurable(deref_pairs(entries@)),
    ensures
        exists|steps: Seq<Tally>|
            {
                &&& walks(deref_pairs(entries@), heap@, old(context)@, steps)
                &&& bytes == saturate(
                    (#[trigger] held_tally(capacity as nat, slot as nat, steps)).bytes,
                )
                &&& final(context)@ == old(context)@.union(total(steps).counted)
            },
{
    let ghost before = context@;
    let ghost pairs = deref_pairs(entries@);
    let ghost mut steps: Seq<Tally> = Seq::empty();
    let mut owned: usize = 0;
    let mut i: usize = 0;
    assert(context@ =~= before.union(Set::empty()));
    while i < entries.len()
        invariant
            i <= entries.len(),
            steps.len() == i,
            pairs == deref_pairs(entries@),
            all_measurable(pairs),
            forall|j: int|
                0 <= j < i ==> #[trigger] pairs[j].measures(
                    heap@,
                    before.union(total(steps.take(j)).counted),
                    steps[j],
                ),
            owned == saturate(total(steps).bytes),
            context@ == before.union(total(steps).counted),
        decreases entries.len() - i,
    {
        let ghost at = context@;
        let entry = entries[i];
        let key: &K = entry.0;
        let value: &V = entry.1;
        assert(pairs[i as int] == (*key, *value));
        assert(pairs[i as int].measurable());
        let one = key.deep_size_of_children(heap, context);
        let ghost middle = context@;
        let two = value.deep_size_of_children(heap, context);
        proof {
            let first = choose|first: Tally|
                {
                    &&& #[trigger] key.measures(heap@, at, first)
                    &&& one == saturate(first.bytes)
                    &&& middle == at.union(first.counted)
                };
            let second = choose|second: Tally|
                {
                    &&& #[trigger] value.measures(heap@, middle, second)
                    &&& two == saturate(second.bytes)
                    &&& context@ == middle.union(second.counted)
                };
            let step = first.then_walk(second);
            assert(pairs[i as int].measures(heap@, at, step));
            let next = steps.push(step);
            assert(next.drop_last() =~= steps);
            assert(next.take(i as int) =~= steps);
            assert forall|j: int| 0 <= j < i + 1 implies #[trigger] pairs[j].measures(
                heap@,
                before.union(total(next.take(j)).counted),
                next[j],
            ) by {
                if j < i {
                    assert(next.take(j) =~= steps.take(j));
                }
            }
            lemma_saturate_sum(first.bytes, second.bytes);
            lemma_saturate_sum(total(steps).bytes, step.bytes);
            assert(context@ =~= before.union(total(next).counted));
            steps = next;
        }
        owned = add_bytes(owned, add_bytes(one, two));
        i += 1;
    }
    let buffer = slots(capacity, slot);
    proof {
        assert(walks(pairs, heap@, before, steps));
        lemma_saturate_sum(total(steps).bytes, capacity as nat * slot as nat);
        assert(held_tally(capacity as nat, slot as nat, steps).bytes == total(steps).bytes
            + capacity as nat * slot as nat);
    }
    add_bytes(owned, buffer)
}

/// A front part of a walk is a walk of the front part.
pub proof fn lemma_walks_front<T: DeepSizeOf>(
    items: Seq<T>,
    heap: Seq<Alloc>,
    visited: Set<usize>,
    steps: Seq<Tally>,
)
    requires
        walks(items, heap, visited, steps),
        items.len() > 0,
    ensures
        walks(items.drop_last(), heap, visited, steps.drop_last()),
        items.last().measures(
            heap,
            visited.union(total(steps.drop_last()).counted),
            steps.last(),
        ),
{
    let front = items.drop_last();
    let fewer = steps.drop_last();
    assert forall|i: int| 0 <= i < front.len() implies #[trigger] front[i].measures(
        heap,
        visited.union(total(fewer.take(i)).counted),
        fewer[i],
    ) by {
        assert(front[i] == items[i]);
        assert(fewer.take(i) =~= steps.take(i));
        assert(items[i].measures(heap, visited.union(total(steps.take(i)).counted), steps[i]));
    }
    let last = items.len() - 1;
    assert(steps.take(last) =~= fewer);
    assert(items[last].measures(heap, visited.union(total(steps.take(last)).counted), steps[last]));
}

/// Described values report what the walk over their descriptions yields.
pub proof fn lemma_nodes_walk(
    heap: Seq<Alloc>,
    nodes: Seq<Node>,
    visited: Set<usize>,
    steps: Seq<Tally>,
)
    requires
        walks(nodes, heap, visited, steps),
    ensures
        total(steps) == seq_cost(heap, nodes, visited),
    decreases nodes.len(),
{
    if nodes.len() > 0 {
        lemma_walks_front(nodes, heap, visited, steps);
        lemma_nodes_walk(heap, nodes.drop_last(), visited, steps.drop_last());
    }
}

/// Described keys and values report what the walk over their descriptions
/// yields, each key followed by its value.
pub proof fn lemma_node_pairs_walk(
    heap: Seq<Alloc>,
    pairs: Seq<(Node, Node)>,
    visited: Set<usize>,
    steps: Seq<Tally>,
)
    requires
        walks(pairs, heap, visited, steps),
    ensures
        total(steps) == seq_cost(heap, interleaved(pairs), visited),
    decreases pairs.len(),
{
    if pairs.len() > 0 {
        lemma_walks_front(pairs, heap, visited, steps);
        lemma_node_pairs_walk(heap, pairs.drop_last(), visited, steps.drop_last());
        let front = interleaved(pairs.drop_last());
        let walked = seq_cost(heap, front, visited);
        let key = pairs.last().0;
        let value = pairs.last().1;
        let first = node_cost(heap, key, visited.union(walked.counted));
        let second = node_cost(heap, value, visited.union(walked.counted).union(first.counted));
        lemma_seq_push(heap, front, key, visited);
        lemma_seq_push(heap, front.push(key), value, visited);
        assert(visited.union(walked.then_walk(first).counted) =~= visited.union(
            walked.counted,
        ).union(first.counted));
        assert(walked.then_walk(first).then_walk(second).counted =~= walked.then_walk(
            first.then_walk(second),
        ).counted);
    }
}

/// A container of described values costs what its buffer and the walk over
/// the descriptions cost.
pub proof fn lemma_held_nodes(
    capacity: nat,
    slot: nat,
    heap: Seq<Alloc>,
    items: Seq<&Node>,
    visited: Set<usize>,
    steps: Seq<Tally>,
)
    requires
        walks(deref_all(items), heap, visited, steps),
    ensures
        held_tally(capacity, slot, steps) == buffered_cost(
            capacity,
            slot,
            heap,
            borrowed(items),
            visited,
        ),
{
    assert(deref_all(items) =~= borrowed(items));
    lemma_nodes_walk(heap, borrowed(items), visited, steps);
}

/// Descriptions can always be measured.
pub proof fn lemma_nodes_measurable(items: Seq<&Node>)
    ensures
        all_measurable(deref_all(items)),
{
}

} // verus!
