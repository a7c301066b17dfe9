use deepsize::arrayvec_impl::{array_vec_children, FIXED};
use deepsize::capability::{deep_size_of, DeepSizeOf};
use deepsize::context::Context;
use deepsize::hashbrown_impl::{hash_map_children, hash_set_children, KeyHashSet, NodeHashMap};
use deepsize::indexmap_impl::{index_map_children, index_set_children, index_slot};
use deepsize::model::{Alloc, Heap, Node};
use deepsize::slab_impl::{slab_children, SlabEntry};
use deepsize::slotmap_impl::{slot_map_children, NodeSlotMap};
use deepsize::smallvec_impl::{small_vec_children, NodeSmallVec, INLINE};
use std::mem::size_of;

fn empty_heap() -> Heap {
    Heap { allocs: Vec::new() }
}

fn text(capacity: usize) -> Node {
    Node::Buffer { bytes: capacity, items: Vec::new() }
}

fn shared_heap() -> Heap {
    Heap { allocs: vec![Alloc { size: 24, content: text(100) }] }
}

#[test]
fn slab_counts_capacity_and_values() {
    let mut slab = slab::Slab::with_capacity(16);
    slab.insert(text(5));
    slab.insert(text(7));
    let expected = slab.capacity() * size_of::<SlabEntry<Node>>() + 12;
    assert!(slab.capacity() >= 16);
    let mut context = Context::new();
    assert_eq!(slab.deep_size_of_children(&empty_heap(), &mut context), expected);
}

#[test]
fn slab_keeps_its_buffer_when_values_leave() {
    let mut slab = slab::Slab::with_capacity(16);
    let first = slab.insert(Node::Flat);
    slab.insert(Node::Flat);
    let heap = empty_heap();
    let full = slab.deep_size_of_children(&heap, &mut Context::new());
    slab.remove(first);
    let after = slab.deep_size_of_children(&heap, &mut Context::new());
    assert_eq!(full, after);
    assert_eq!(after, slab.capacity() * size_of::<SlabEntry<Node>>());
}

#[test]
fn slab_counts_a_shared_allocation_once() {
    let mut slab = slab::Slab::new();
    slab.insert(Node::Shared { id: 0 });
    slab.insert(Node::Shared { id: 0 });
    let expected = slab.capacity() * size_of::<SlabEntry<Node>>() + 124;
    assert_eq!(slab.deep_size_of_children(&shared_heap(), &mut Context::new()), expected);
}

#[test]
fn slab_formula_is_exact() {
    let (a, b) = (text(3), text(4));
    let bytes = slab_children::<Node>(10, &vec![&a, &b], &empty_heap(), &mut Context::new());
    assert_eq!(bytes, 10 * size_of::<SlabEntry<Node>>() + 7);
}

#[test]
fn empty_slab_owns_nothing() {
    let slab: slab::Slab<Node> = slab::Slab::new();
    assert_eq!(slab.deep_size_of_children(&empty_heap(), &mut Context::new()), 0);
    assert_eq!(deep_size_of(&slab, &empty_heap()), size_of::<slab::Slab<Node>>());
}

#[test]
fn index_map_counts_keys_and_values() {
    let mut map = indexmap::IndexMap::new();
    map.insert(text(1), text(10));
    map.insert(text(2), text(20));
    let slot = 2 * size_of::<usize>() + 2 * size_of::<Node>();
    let expected = map.capacity() * slot + 33;
    assert_eq!(map.deep_size_of_children(&empty_heap(), &mut Context::new()), expected);
}

#[test]
fn index_map_formula_is_exact() {
    let (k, v) = (text(3), Node::Shared { id: 0 });
    let slot = 2 * size_of::<usize>() + 2 * size_of::<Node>();
    let mut context = Context::new();
    let bytes =
        index_map_children::<Node, Node>(7, &vec![(&k, &v), (&k, &v)], &shared_heap(), &mut context);
    assert_eq!(bytes, 7 * slot + 3 + 124 + 3);
    assert!(context.contains(0));
}

#[test]
fn index_set_counts_its_values() {
    let mut set = indexmap::IndexSet::new();
    set.insert(text(1));
    set.insert(text(2));
    set.insert(text(4));
    let slot = 2 * size_of::<usize>() + size_of::<Node>();
    let expected = set.capacity() * slot + 7;
    assert_eq!(set.deep_size_of_children(&empty_heap(), &mut Context::new()), expected);
    let a = text(9);
    assert_eq!(
        index_set_children::<Node>(2, &vec![&a], &empty_heap(), &mut Context::new()),
        2 * slot + 9
    );
}

#[test]
fn array_vec_has_no_buffer() {
    let mut vector: arrayvec::ArrayVec<Node, FIXED> = arrayvec::ArrayVec::new();
    assert_eq!(vector.deep_size_of_children(&empty_heap(), &mut Context::new()), 0);
    vector.push(Node::Flat);
    vector.push(text(13));
    vector.push(Node::Shared { id: 0 });
    assert_eq!(vector.deep_size_of_children(&shared_heap(), &mut Context::new()), 137);
}

#[test]
fn array_string_owns_nothing() {
    let text = arrayvec::ArrayString::<16>::from("sixteen letters!").unwrap();
    let mut context = Context::new();
    assert_eq!(text.deep_size_of_children(&empty_heap(), &mut context), 0);
    assert_eq!(context.len(), 0);
}

#[test]
fn small_vec_inline_has_no_buffer() {
    let vector = NodeSmallVec::from_nodes(vec![text(1), text(2), text(3), text(4)]);
    assert_eq!(INLINE, 4);
    assert_eq!(vector.deep_size_of_children(&empty_heap(), &mut Context::new()), 10);
}

#[test]
fn small_vec_over_the_threshold_counts_its_buffer() {
    let mut twin: smallvec::SmallVec<[Node; INLINE]> = smallvec::SmallVec::new();
    for _ in 0..5 {
        twin.push(Node::Flat);
    }
    assert!(twin.spilled());
    let vector = NodeSmallVec::from_nodes(vec![text(1), text(2), text(3), text(4), text(5)]);
    let expected = twin.capacity() * size_of::<Node>() + 15;
    assert_eq!(vector.deep_size_of_children(&empty_heap(), &mut Context::new()), expected);
}

#[test]
fn small_vec_formula_meets_at_the_boundary() {
    let heap = shared_heap();
    let (a, b) = (text(6), Node::Shared { id: 0 });
    let items = vec![&a, &b];
    let inline = small_vec_children::<Node>(false, 4, &items, &heap, &mut Context::new());
    let spilled = small_vec_children::<Node>(true, 8, &items, &heap, &mut Context::new());
    assert_eq!(inline, 130);
    assert_eq!(spilled, 130 + 8 * size_of::<Node>());
}

#[test]
fn slot_map_counts_capacity_and_values() {
    let mut twin: slotmap::SlotMap<slotmap::DefaultKey, Node> = slotmap::SlotMap::new();
    for _ in 0..3 {
        twin.insert(Node::Flat);
    }
    let map = NodeSlotMap::from_nodes(vec![text(2), text(4), text(8)]);
    let expected = twin.capacity() * size_of::<(u32, Node)>() + 14;
    assert_eq!(map.deep_size_of_children(&empty_heap(), &mut Context::new()), expected);
    let a = text(5);
    let exact = slot_map_children::<Node>(9, &vec![&a], &empty_heap(), &mut Context::new());
    assert_eq!(exact, 9 * size_of::<(u32, Node)>() + 5);
}

#[test]
fn slot_map_keys_own_nothing() {
    let mut map: slotmap::SlotMap<slotmap::DefaultKey, u8> = slotmap::SlotMap::new();
    let key = map.insert(1);
    assert_eq!(key.deep_size_of_children(&empty_heap(), &mut Context::new()), 0);
    assert_eq!(slotmap::Key::data(&key).deep_size_of_children(&empty_heap(), &mut Context::new()), 0);
}

#[test]
fn hash_map_counts_capacity_and_values() {
    let mut twin: hashbrown::HashMap<u64, Node> = hashbrown::HashMap::new();
    for key in [3u64, 1, 2] {
        twin.insert(key, Node::Flat);
    }
    let map = NodeHashMap::from_entries(vec![(3, text(30)), (1, text(10)), (2, text(20))]);
    let expected = twin.capacity() * size_of::<(u64, Node)>() + 60;
    assert_eq!(map.deep_size_of_children(&empty_heap(), &mut Context::new()), expected);
}

#[test]
fn hash_map_keeps_the_last_value_of_a_key() {
    let mut twin: hashbrown::HashMap<u64, Node> = hashbrown::HashMap::new();
    twin.insert(1, Node::Flat);
    let map = NodeHashMap::from_entries(vec![(1, text(10)), (1, text(25))]);
    let expected = twin.capacity() * size_of::<(u64, Node)>() + 25;
    assert_eq!(map.deep_size_of_children(&empty_heap(), &mut Context::new()), expected);
}

#[test]
fn hash_map_formula_is_exact() {
    let (a, b) = (text(6), Node::Shared { id: 0 });
    let entries = vec![(&9u64, &a), (&4u64, &b), (&5u64, &b)];
    let bytes = hash_map_children::<u64, Node>(14, &entries, &shared_heap(), &mut Context::new());
    assert_eq!(bytes, 14 * size_of::<(u64, Node)>() + 130);
}

#[test]
fn hash_set_counts_its_slots() {
    let mut twin: hashbrown::HashSet<u64> = hashbrown::HashSet::new();
    for key in [5u64, 6, 7, 8, 5] {
        twin.insert(key);
    }
    let set = KeyHashSet::from_keys(&vec![5, 6, 7, 8, 5]);
    let mut context = Context::new();
    assert_eq!(set.deep_size_of_children(&empty_heap(), &mut context), twin.capacity() * 8);
    assert_eq!(context.len(), 0);
    let none: Vec<&u64> = Vec::new();
    assert_eq!(hash_set_children::<u64>(16, &none, &empty_heap(), &mut context), 128);
    assert_eq!(hash_set_children::<u64>(16, &vec![&1, &2], &empty_heap(), &mut context), 128);
    assert_eq!(
        hash_set_children::<u64>(usize::MAX, &none, &empty_heap(), &mut context),
        usize::MAX
    );
}

#[test]
fn hash_map_total_does_not_depend_on_insertion_order() {
    let heap = Heap {
        allocs: vec![
            Alloc { size: 24, content: text(100) },
            Alloc { size: 8, content: Node::Shared { id: 0 } },
        ],
    };
    let one = NodeHashMap::from_entries(vec![
        (1, Node::Shared { id: 0 }),
        (2, Node::Shared { id: 1 }),
        (3, text(9)),
    ]);
    let other = NodeHashMap::from_entries(vec![
        (3, text(9)),
        (2, Node::Shared { id: 1 }),
        (1, Node::Shared { id: 0 }),
    ]);
    let first = one.deep_size_of_children(&heap, &mut Context::new());
    let second = other.deep_size_of_children(&heap, &mut Context::new());
    assert_eq!(first, second);
    let mut twin: hashbrown::HashMap<u64, Node> = hashbrown::HashMap::new();
    for key in [1u64, 2, 3] {
        twin.insert(key, Node::Flat);
    }
    assert_eq!(first, twin.capacity() * size_of::<(u64, Node)>() + 124 + 8 + 9);
}

#[test]
fn slot_map_counts_a_shared_allocation_once() {
    let mut twin: slotmap::SlotMap<slotmap::DefaultKey, Node> = slotmap::SlotMap::new();
    for _ in 0..2 {
        twin.insert(Node::Flat);
    }
    let map = NodeSlotMap::from_nodes(vec![Node::Shared { id: 0 }, Node::Shared { id: 0 }]);
    let expected = twin.capacity() * size_of::<(u32, Node)>() + 124;
    assert_eq!(map.deep_size_of_children(&shared_heap(), &mut Context::new()), expected);
}

#[test]
fn small_vec_of_five_numbers_at_capacity_five_reports_twenty() {
    let numbers: Vec<u32> = vec![1, 2, 3, 4, 5];
    let items: Vec<&u32> = numbers.iter().collect();
    let bytes = small_vec_children(true, 5, &items, &empty_heap(), &mut Context::new());
    assert_eq!(bytes, 20);
}

#[test]
fn small_vec_at_capacity_sixteen_with_two_numbers_reports_sixty_four() {
    let numbers: Vec<u32> = vec![1, 2];
    let items: Vec<&u32> = numbers.iter().collect();
    let bytes = small_vec_children(true, 16, &items, &empty_heap(), &mut Context::new());
    assert_eq!(bytes, 64);
    let inline = small_vec_children(false, 4, &items, &empty_heap(), &mut Context::new());
    assert_eq!(inline, 0);
}

#[test]
fn small_vec_of_texts_counts_them_on_both_sides() {
    let texts = vec![String::with_capacity(10), String::with_capacity(20)];
    let owned = texts[0].capacity() + texts[1].capacity();
    let items: Vec<&String> = texts.iter().collect();
    let inline = small_vec_children(false, 4, &items, &empty_heap(), &mut Context::new());
    let spilled = small_vec_children(true, 8, &items, &empty_heap(), &mut Context::new());
    assert_eq!(inline, owned);
    assert_eq!(spilled, owned + 8 * size_of::<String>());
}

#[test]
fn slab_of_numbers_counts_entries_of_numbers() {
    let mut slab: slab::Slab<u32> = slab::Slab::with_capacity(16);
    let first = slab.insert(1);
    slab.insert(2);
    let items: Vec<&u32> = slab.iter().map(|(_, number)| number).collect();
    let bytes = slab_children(slab.capacity(), &items, &empty_heap(), &mut Context::new());
    assert_eq!(bytes, slab.capacity() * size_of::<SlabEntry<u32>>());
    assert_eq!(size_of::<SlabEntry<u32>>(), 2 * size_of::<usize>());
    slab.remove(first);
    let fewer: Vec<&u32> = slab.iter().map(|(_, number)| number).collect();
    assert_eq!(slab_children(slab.capacity(), &fewer, &empty_heap(), &mut Context::new()), bytes);
}

#[test]
fn slot_map_of_numbers_counts_slots_of_numbers() {
    let numbers: Vec<u64> = vec![1, 2, 3];
    let items: Vec<&u64> = numbers.iter().collect();
    let bytes = slot_map_children(8, &items, &empty_heap(), &mut Context::new());
    assert_eq!(bytes, 8 * size_of::<(u32, u64)>());
}

#[test]
fn hash_set_is_a_hash_map_of_units() {
    let keys = vec![String::with_capacity(3), String::with_capacity(4)];
    let owned = keys[0].capacity() + keys[1].capacity();
    let items: Vec<&String> = keys.iter().collect();
    let entries: Vec<(&String, &())> = keys.iter().map(|key| (key, &())).collect();
    let set = hash_set_children(7, &items, &empty_heap(), &mut Context::new());
    let map = hash_map_children(7, &entries, &empty_heap(), &mut Context::new());
    assert_eq!(set, map);
    assert_eq!(set, 7 * size_of::<String>() + owned);
}

#[test]
fn hash_map_of_numbers_counts_pairs_of_numbers() {
    let entries = vec![(&1u64, &10u64), (&2u64, &20u64)];
    let bytes = hash_map_children(14, &entries, &empty_heap(), &mut Context::new());
    assert_eq!(bytes, 14 * size_of::<(u64, u64)>());
}

#[test]
fn index_map_of_numbers_counts_the_four_sizes() {
    let none: Vec<(&u64, &u64)> = Vec::new();
    let bytes = index_map_children(10, &none, &empty_heap(), &mut Context::new());
    assert_eq!(bytes, 10 * (2 * size_of::<usize>() + 16));
    let held = index_map_children(10, &vec![(&1u64, &2u64)], &empty_heap(), &mut Context::new());
    assert_eq!(held, bytes);
    assert_eq!(index_slot::<u64, u64>(), 2 * size_of::<usize>() + 16);
    assert_eq!(index_slot::<u8, ()>(), 2 * size_of::<usize>() + 1);
}

#[test]
fn index_map_of_texts_counts_keys_and_values() {
    let (key, value) = (String::with_capacity(6), String::with_capacity(9));
    let owned = key.capacity() + value.capacity();
    let bytes =
        index_map_children(3, &vec![(&key, &value)], &empty_heap(), &mut Context::new());
    assert_eq!(bytes, 3 * (2 * size_of::<usize>() + 2 * size_of::<String>()) + owned);
}

#[test]
fn index_set_is_an_index_map_of_units() {
    let keys = vec![String::with_capacity(3), String::with_capacity(4)];
    let owned = keys[0].capacity() + keys[1].capacity();
    let items: Vec<&String> = keys.iter().collect();
    let entries: Vec<(&String, &())> = keys.iter().map(|key| (key, &())).collect();
    let set = index_set_children(5, &items, &empty_heap(), &mut Context::new());
    let map = index_map_children(5, &entries, &empty_heap(), &mut Context::new());
    assert_eq!(set, map);
    assert_eq!(set, 5 * (2 * size_of::<usize>() + size_of::<String>()) + owned);
}

#[test]
fn array_vec_of_texts_counts_only_the_texts() {
    let texts = vec![String::with_capacity(10), String::with_capacity(20)];
    let owned = texts[0].capacity() + texts[1].capacity();
    let items: Vec<&String> = texts.iter().collect();
    assert_eq!(array_vec_children(&items, &empty_heap(), &mut Context::new()), owned);
    let numbers: Vec<&u32> = vec![&1, &2, &3];
    assert_eq!(array_vec_children(&numbers, &empty_heap(), &mut Context::new()), 0);
}
