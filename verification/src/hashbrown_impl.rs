//! Hash tables: one buffer of slots, walked in an order that the table
//! does not promise.
use crate::capability::DeepSizeOf;
use crate::context::Context;
use crate::engine::saturate;
use crate::laws::lemma_seq_push;
use crate::layout::buffered_cost;
use crate::model::{node_cost, seq_cost, Alloc, Heap, Node, Tally};
use crate::order::law_order_is_irrelevant;
use crate::structural::{total, walks};
use crate::walk::{
    all_measurable, deref_all, deref_pairs, held_tally, lemma_walks_front, walk_held_pairs,
};
use vstd::prelude::*;

verus! {

/// A hash map from numbers to values: a `hashbrown::HashMap` with its
/// default hasher.
#[verifier::external_body]
pub struct NodeHashMap {
    inner: hashbrown::HashMap<u64, Node>,
}

/// A hash set of numbers: a `hashbrown::HashSet` with its default hasher.
#[verifier::external_body]
pub struct KeyHashSet {
    inner: hashbrown::HashSet<u64>,
}

/// The entries that a hash map holds.
pub uninterp spec fn hash_map_entries(map: NodeHashMap) -> Map<u64, Node>;

/// The numbers that a hash set holds.
pub uninterp spec fn hash_set_keys(set: KeyHashSet) -> Set<u64>;

/// Whether `entries` lists each entry of `map` once, in whatever order.
pub open spec fn lists(entries: Seq<(u64, Node)>, map: Map<u64, Node>) -> bool {
    &&& map.dom().finite()
    &&& entries.len() == map.dom().len()
    &&& forall|i: int|
        0 <= i < entries.len() ==> map.dom().contains(#[trigger] entries[i].0) && map[entries[i].0]
            == entries[i].1
    &&& forall|i: int, j: int|
        0 <= i < j < entries.len() ==> #[trigger] entries[i].0 != #[trigger] entries[j].0
}

/// The entries of `map` in an order of their own, fixed once and for all.
/// The total does not depend on the order, so any one will do.
pub open spec fn listing(map: Map<u64, Node>) -> Seq<(u64, Node)> {
    choose|order: Seq<(u64, Node)>| lists(order, map)
}

/// The entries behind a sequence of borrowed keys and values.
pub open spec fn keyed(entries: Seq<(&u64, &Node)>) -> Seq<(u64, Node)> {
    entries.map_values(|entry: (&u64, &Node)| (*entry.0, *entry.1))
}

/// The values of a sequence of entries.
pub open spec fn values_of(entries: Seq<(u64, Node)>) -> Seq<Node> {
    entries.map_values(|entry: (u64, Node)| entry.1)
}

/// `hashbrown::HashMap::new`: an empty map.
#[verifier::external_body]
fn hash_map_new() -> (table: NodeHashMap)
    ensures
        hash_map_entries(table) == (Map::<u64, Node>::empty()),
{
    NodeHashMap { inner: hashbrown::HashMap::new() }
}

/// `hashbrown::HashMap::insert`: the key holds the value from now on,
/// whether it was there before or not.
#[verifier::external_body]
fn hash_map_insert(map: &mut NodeHashMap, key: u64, node: Node)
    ensures
        hash_map_entries(*final(map)) == hash_map_entries(*old(map)).insert(key, node),
{
    map.inner.insert(key, node);
}

/// `hashbrown::HashMap::iter`: each entry once, in an order of the table's
/// choosing.
#[verifier::external_body]
fn hash_map_iter(map: &NodeHashMap) -> (entries: Vec<(&u64, &Node)>)
    ensures
        lists(keyed(entries@), hash_map_entries(*map)),
{
    map.inner.iter().collect()
}

/// `hashbrown::HashMap::capacity`: how many entries the map can hold
/// without allocating again, which is no less than the number of entries in
/// it.
#[verifier::external_body]
fn hash_map_capacity(map: &NodeHashMap) -> (capacity: usize)
    ensures
        capacity >= hash_map_entries(*map).dom().len(),
{
    map.inner.capacity()
}

/// `hashbrown::HashSet::new`: an empty set.
#[verifier::external_body]
fn hash_set_new() -> (set: KeyHashSet)
    ensures
        hash_set_keys(set) == Set::<u64>::empty(),
{
    KeyHashSet { inner: hashbrown::HashSet::new() }
}

/// `hashbrown::HashSet::insert`: the set holds the number from now on.
#[verifier::external_body]
fn hash_set_insert(set: &mut KeyHashSet, key: u64)
    ensures
        hash_set_keys(*final(set)) == hash_set_keys(*old(set)).insert(key),
{
    set.inner.insert(key);
}

/// `hashbrown::HashSet::capacity`: how many numbers the set can hold
/// without allocating again, which is no less than the number of numbers in
/// it.
#[verifier::external_body]
fn hash_set_capacity(set: &KeyHashSet) -> (capacity: usize)
    ensures
        capacity >= hash_set_keys(*set).len(),
{
    set.inner.capacity()
}

/// What a hash map from keys of type `K` to values of type `V` of capacity
/// `capacity` costs where `nodes` describes what it holds: its slots of one
/// key and one value each, and what the described keys and values own.
pub open spec fn hash_map_cost<K, V>(
    capacity: nat,
    heap: Seq<Alloc>,
    nodes: Seq<Node>,
    visited: Set<usize>,
) -> Tally {
    buffered_cost(capacity, vstd::layout::size_of::<(K, V)>(), heap, nodes, visited)
}

/// What a hash set of keys of type `K` of capacity `capacity` costs where
/// `nodes` describes its keys: what a hash map from these keys to nothing
/// costs.
pub open spec fn hash_set_cost<K>(
    capacity: nat,
    heap: Seq<Alloc>,
    nodes: Seq<Node>,
    visited: Set<usize>,
) -> Tally {
    hash_map_cost::<K, ()>(capacity, heap, nodes, visited)
}

/// The map that inserting `entries` one after another gives: where a key
/// comes twice, its last value stays.
pub open spec fn collected(entries: Seq<(u64, Node)>) -> Map<u64, Node>
    decreases entries.len(),
{
    if entries.len() == 0 {
        Map::empty()
    } else {
        collected(entries.drop_last()).insert(entries.last().0, entries.last().1)
    }
}

/// The entries of a map from the values `keys` to nothing.
pub open spec fn with_unit<K>(keys: Seq<K>) -> Seq<(K, ())> {
    keys.map_values(|key: K| (key, ()))
}

/// The heap bytes of a hash map of capacity `capacity` that holds
/// `entries`: `capacity` slots of one key and one value, and what each key
/// and then its value report, one entry after another.
pub fn hash_map_children<K: DeepSizeOf, V: DeepSizeOf>(
    capacity: usize,
    entries: &Vec<(&K, &V)>,
    heap: &Heap,
    context: &mut Context,
) -> (bytes: usize)
    requires
        all_measurable(deref_pairs(entries@)),
    ensures
        exists|steps: Seq<Tally>|
            {
                &&& walks(deref_pairs(entries@), heap@, old(context)@, steps)
                &&& bytes == saturate(
                    (#[trigger] held_tally(
                        capacity as nat,
                        vstd::layout::size_of::<(K, V)>(),
                        steps,
                    )).bytes,
                )
                &&& final(context)@ == old(context)@.union(total(steps).counted)
            },
{
    walk_held_pairs(capacity, core::mem::size_of::<(K, V)>(), entries, heap, context)
}

/// The heap bytes of a hash set of capacity `capacity` that holds `keys`:
/// those of a hash map from these keys to nothing.
pub fn hash_set_children<K: DeepSizeOf>(
    capacity: usize,
    keys: &Vec<&K>,
    heap: &Heap,
    context: &mut Context,
) -> (bytes: usize)
    requires
        all_measurable(deref_all(keys@)),
    ensures
        exists|steps: Seq<Tally>|
            {
                &&& walks(with_unit(deref_all(keys@)), heap@, old(context)@, steps)
                &&& bytes == saturate(
                    (#[trigger] held_tally(
                        capacity as nat,
                        vstd::layout::size_of::<(K, ())>(),
                        steps,
                    )).bytes,
                )
                &&& final(context)@ == old(context)@.union(total(steps).counted)
            },
{
    let unit = ();
    let mut entries: Vec<(&K, &())> = Vec::new();
    let mut i: usize = 0;
    while i < keys.len()
        invariant
            i <= keys.len(),
            entries@.len() == i,
            forall|j: int| 0 <= j < i ==> *(#[trigger] entries@[j]).0 == *keys@[j],
        decreases keys.len() - i,
    {
        entries.push((keys[i], &unit));
        i += 1;
    }
    proof {
        assert(deref_pairs(entries@) =~= with_unit(deref_all(keys@)));
        assert forall|j: int| 0 <= j < entries@.len() implies (#[trigger] deref_pairs(
            entries@,
        )[j]).measurable() by {
            assert(deref_all(keys@)[j].measurable());
        }
    }
    hash_map_children::<K, ()>(capacity, &entries, heap, context)
}

/// Entries under plain numbers report what the walk over the descriptions
/// of their values yields.
proof fn lemma_keyed_walk(
    heap: Seq<Alloc>,
    pairs: Seq<(u64, Node)>,
    visited: Set<usize>,
    steps: Seq<Tally>,
)
    requires
        walks(pairs, heap, visited, steps),
    ensures
        total(steps) == seq_cost(heap, values_of(pairs), visited),
    decreases pairs.len(),
{
    if pairs.len() == 0 {
        assert(values_of(pairs) =~= Seq::<Node>::empty());
    } else {
        lemma_walks_front(pairs, heap, visited, steps);
        lemma_keyed_walk(heap, pairs.drop_last(), visited, steps.drop_last());
        let walked = seq_cost(heap, values_of(pairs.drop_last()), visited);
        let before = visited.union(walked.counted);
        assert(values_of(pairs) =~= values_of(pairs.drop_last()).push(pairs.last().1));
        lemma_seq_push(heap, values_of(pairs.drop_last()), pairs.last().1, visited);
        assert(before.union(Set::empty()) =~= before);
        let value = node_cost(heap, pairs.last().1, before);
        assert(Tally::zero().then_walk(value).counted =~= value.counted);
    }
}

/// A list of the entries of a map holds each key of the map.
proof fn lemma_lists_covers(entries: Seq<(u64, Node)>, map: Map<u64, Node>, key: u64)
    requires
        lists(entries, map),
        map.dom().contains(key),
    ensures
        exists|i: int| 0 <= i < entries.len() && (#[trigger] entries[i]).0 == key,
{
    let keys = entries.map_values(|entry: (u64, Node)| entry.0);
    assert(keys.no_duplicates()) by {
        assert forall|i: int, j: int|
            0 <= i < keys.len() && 0 <= j < keys.len() && i != j implies keys[i] != keys[j] by {
            if i < j {
                assert(entries[i].0 != entries[j].0);
            } else {
                assert(entries[j].0 != entries[i].0);
            }
        }
    }
    keys.unique_seq_to_set();
    assert(keys.to_set().subset_of(map.dom())) by {
        assert forall|k: u64| keys.to_set().contains(k) implies map.dom().contains(k) by {
            let i = choose|i: int| 0 <= i < keys.len() && keys[i] == k;
            assert(map.dom().contains(entries[i].0));
        }
    }
    vstd::set_lib::lemma_len_subset(keys.to_set(), map.dom());
    vstd::set_lib::lemma_subset_equality(keys.to_set(), map.dom());
    assert(keys.to_set().contains(key));
    let i = choose|i: int| 0 <= i < keys.len() && keys[i] == key;
    assert(entries[i].0 == key);
}

/// Two lists of the entries of one map hold the same entries.
proof fn lemma_lists_agree(a: Seq<(u64, Node)>, b: Seq<(u64, Node)>, map: Map<u64, Node>)
    requires
        lists(a, map),
        lists(b, map),
    ensures
        forall|entry: (u64, Node)| a.contains(entry) ==> b.contains(entry),
{
    assert forall|entry: (u64, Node)| a.contains(entry) implies b.contains(entry) by {
        let i = choose|i: int| 0 <= i < a.len() && a[i] == entry;
        assert(map.dom().contains(a[i].0));
        lemma_lists_covers(b, map, entry.0);
        let j = choose|j: int| 0 <= j < b.len() && (#[trigger] b[j]).0 == entry.0;
        assert(map.dom().contains(b[j].0) && map[b[j].0] == b[j].1);
        assert(b[j] == entry);
    }
}

/// A list of the entries of a map holds no entry twice.
proof fn lemma_lists_once(entries: Seq<(u64, Node)>, map: Map<u64, Node>)
    requires
        lists(entries, map),
    ensures
        entries.no_duplicates(),
{
    assert forall|i: int, j: int|
        0 <= i < entries.len() && 0 <= j < entries.len() && i != j implies entries[i]
        != entries[j] by {
        if i < j {
            assert(entries[i].0 != entries[j].0);
        } else {
            assert(entries[j].0 != entries[i].0);
        }
    }
}

/// Two lists of the entries of one map are rearrangements of each other.
proof fn lemma_lists_permute(a: Seq<(u64, Node)>, b: Seq<(u64, Node)>, map: Map<u64, Node>)
    requires
        lists(a, map),
        lists(b, map),
    ensures
        a.to_multiset() == b.to_multiset(),
{
    lemma_lists_agree(a, b, map);
    lemma_lists_agree(b, a, map);
    lemma_lists_once(a, map);
    lemma_lists_once(b, map);
    a.lemma_multiset_has_no_duplicates();
    b.lemma_multiset_has_no_duplicates();
    a.to_multiset_ensures();
    b.to_multiset_ensures();
    assert forall|entry: (u64, Node)|
        a.to_multiset().count(entry) == b.to_multiset().count(entry) by {
        if a.contains(entry) {
            assert(b.contains(entry));
            assert(a.to_multiset().count(entry) > 0);
            assert(b.to_multiset().count(entry) > 0);
            assert(a.to_multiset().contains(entry));
            assert(b.to_multiset().contains(entry));
        } else {
            assert(!b.contains(entry));
            assert(a.to_multiset().count(entry) == 0);
            assert(b.to_multiset().count(entry) == 0);
        }
    }
    assert(a.to_multiset() =~= b.to_multiset());
}

/// The values of rearranged entries are rearranged values.
proof fn lemma_values_permute(a: Seq<(u64, Node)>, b: Seq<(u64, Node)>)
    requires
        a.to_multiset() == b.to_multiset(),
    ensures
        values_of(a).to_multiset() == values_of(b).to_multiset(),
    decreases a.len(),
{
    a.to_multiset_ensures();
    b.to_multiset_ensures();
    if a.len() == 0 {
        assert(b.len() == 0);
        assert(values_of(a) =~= values_of(b));
    } else {
        let last = a.last();
        assert(a[a.len() - 1] == last);
        assert(a.contains(last));
        assert(a.to_multiset().count(last) > 0);
        assert(b.to_multiset().count(last) > 0);
        assert(b.contains(last));
        let at = choose|at: int| 0 <= at < b.len() && b[at] == last;
        vstd::seq_lib::to_multiset_remove(a, a.len() - 1);
        vstd::seq_lib::to_multiset_remove(b, at);
        assert(a.remove(a.len() - 1) =~= a.drop_last());
        lemma_values_permute(a.drop_last(), b.remove(at));
        assert(values_of(a) =~= values_of(a.drop_last()).push(last.1));
        assert(values_of(b) =~= values_of(b.remove(at)).insert(at, last.1));
        vstd::seq_lib::to_multiset_build(values_of(a.drop_last()), last.1);
        vstd::seq_lib::to_multiset_insert(values_of(b.remove(at)), at, last.1);
    }
}

/// Whatever the order in which the entries of `map` were walked, the
/// values cost what they cost in the order of [`listing`].
pub proof fn lemma_any_order(
    heap: Seq<Alloc>,
    map: Map<u64, Node>,
    order: Seq<(u64, Node)>,
    visited: Set<usize>,
)
    requires
        heap.len() <= usize::MAX,
        lists(order, map),
    ensures
        lists(listing(map), map),
        seq_cost(heap, values_of(order), visited) == seq_cost(
            heap,
            values_of(listing(map)),
            visited,
        ),
{
    lemma_lists_permute(order, listing(map), map);
    lemma_values_permute(order, listing(map));
    law_order_is_irrelevant(heap, values_of(order), values_of(listing(map)), visited);
}

impl NodeHashMap {
    /// The hash map into which `entries` were inserted one after another.
    pub fn from_entries(entries: Vec<(u64, Node)>) -> (map: NodeHashMap)
        ensures
            hash_map_entries(map) == collected(entries@),
    {
        let mut entries = entries;
        let ghost all = entries@;
        let total = entries.len();
        let mut map = hash_map_new();
        let mut done: usize = 0;
        assert(all.take(0) =~= Seq::<(u64, Node)>::empty());
        while entries.len() > 0
            invariant
                all.len() == total,
                done + entries@.len() == all.len(),
                entries@ == all.skip(done as int),
                hash_map_entries(map) == collected(all.take(done as int)),
            decreases entries.len(),
        {
            let entry = entries.remove(0);
            hash_map_insert(&mut map, entry.0, entry.1);
            proof {
                assert(all.take(done + 1).drop_last() =~= all.take(done as int));
                assert(all.take(done + 1).last() == entry);
                assert(entries@ =~= all.skip(done + 1));
            }
            done += 1;
        }
        assert(all.take(done as int) =~= all);
        map
    }
}

impl KeyHashSet {
    /// The hash set that holds the numbers `keys`.
    pub fn from_keys(keys: &Vec<u64>) -> (set: KeyHashSet)
        ensures
            hash_set_keys(set) == keys@.to_set(),
    {
        let mut set = hash_set_new();
        let mut i: usize = 0;
        assert(keys@.take(0).to_set() =~= Set::<u64>::empty());
        while i < keys.len()
            invariant
                i <= keys.len(),
                hash_set_keys(set) == keys@.take(i as int).to_set(),
            decreases keys.len() - i,
        {
            hash_set_insert(&mut set, keys[i]);
            proof {
                let before = keys@.take(i as int);
                assert(keys@.take(i + 1) =~= before.push(keys@[i as int]));
                before.lemma_push_to_set_commute(keys@[i as int]);
            }
            i += 1;
        }
        assert(keys@.take(i as int) =~= keys@);
        set
    }
}

impl DeepSizeOf for NodeHashMap {
    open spec fn measurable(&self) -> bool {
        true
    }

    /// The map's slots at some capacity that holds its entries, and what
    /// its values own. The order in which the table walks them makes no
    /// difference.
    open spec fn measures(&self, heap: Seq<Alloc>, visited: Set<usize>, tally: Tally) -> bool {
        exists|capacity: usize|
            {
                &&& capacity >= hash_map_entries(*self).dom().len()
                &&& tally == #[trigger] hash_map_cost::<u64, Node>(
                    capacity as nat,
                    heap,
                    values_of(listing(hash_map_entries(*self))),
                    visited,
                )
            }
    }

    fn deep_size_of_children(&self, heap: &Heap, context: &mut Context) -> (bytes: usize) {
        let capacity = hash_map_capacity(self);
        let entries = hash_map_iter(self);
        proof {
            assert forall|j: int| 0 <= j < entries@.len() implies (#[trigger] deref_pairs(
                entries@,
            )[j]).measurable() by {}
        }
        let bytes = hash_map_children::<u64, Node>(capacity, &entries, heap, context);
        proof {
            let slot = vstd::layout::size_of::<(u64, Node)>();
            let steps = choose|steps: Seq<Tally>|
                {
                    &&& walks(deref_pairs(entries@), heap@, old(context)@, steps)
                    &&& bytes == saturate((#[trigger] held_tally(capacity as nat, slot, steps)).bytes)
                    &&& context@ == old(context)@.union(total(steps).counted)
                };
            assert(deref_pairs(entries@) =~= keyed(entries@));
            lemma_keyed_walk(heap@, keyed(entries@), old(context)@, steps);
            assert(heap@.len() == heap.allocs.len());
            lemma_any_order(heap@, hash_map_entries(*self), keyed(entries@), old(context)@);
            assert(self.measures(
                heap@,
                old(context)@,
                hash_map_cost::<u64, Node>(
                    capacity as nat,
                    heap@,
                    values_of(listing(hash_map_entries(*self))),
                    old(context)@,
                ),
            ));
        }
        bytes
    }
}

impl DeepSizeOf for KeyHashSet {
    open spec fn measurable(&self) -> bool {
        true
    }

    /// The set's slots at some capacity that holds its numbers. Numbers
    /// own nothing, so nothing describes them.
    open spec fn measures(&self, heap: Seq<Alloc>, visited: Set<usize>, tally: Tally) -> bool {
        exists|capacity: usize|
            {
                &&& capacity >= hash_set_keys(*self).len()
                &&& tally == #[trigger] hash_set_cost::<u64>(
                    capacity as nat,
                    heap,
                    Seq::empty(),
                    visited,
                )
            }
    }

    fn deep_size_of_children(&self, heap: &Heap, context: &mut Context) -> (bytes: usize) {
        let capacity = hash_set_capacity(self);
        let keys: Vec<&u64> = Vec::new();
        let bytes = hash_set_children::<u64>(capacity, &keys, heap, context);
        proof {
            let slot = vstd::layout::size_of::<(u64, ())>();
            let steps = choose|steps: Seq<Tally>|
                {
                    &&& walks(with_unit(deref_all(keys@)), heap@, old(context)@, steps)
                    &&& bytes == saturate((#[trigger] held_tally(capacity as nat, slot, steps)).bytes)
                    &&& context@ == old(context)@.union(total(steps).counted)
                };
            assert(steps.len() == 0);
            assert(total(steps) == Tally::zero());
        }
        assert(self.measures(
            heap@,
            old(context)@,
            hash_set_cost::<u64>(capacity as nat, heap@, Seq::empty(), old(context)@),
        ));
        bytes
    }
}

} // verus!
