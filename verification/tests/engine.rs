use deepsize::capability::{deep_size_of, DeepSizeOf};
use deepsize::context::Context;
use deepsize::engine::add_bytes;
use deepsize::layout::{buffered_children, slots};
use deepsize::model::{Alloc, Heap, Node};

fn empty_heap() -> Heap {
    Heap { allocs: Vec::new() }
}

fn text(capacity: usize) -> Node {
    Node::Buffer { bytes: capacity, items: Vec::new() }
}

fn numbers(capacity: usize, width: usize, len: usize) -> Node {
    let mut items = Vec::new();
    for _ in 0..len {
        items.push(Node::Flat);
    }
    Node::Buffer { bytes: capacity * width, items }
}

#[test]
fn flat_value_owns_nothing() {
    let heap = empty_heap();
    let mut context = Context::new();
    assert_eq!(heap.deep_size_of_children(&Node::Flat, &mut context), 0);
    assert_eq!(context.len(), 0);
}

#[test]
fn flat_value_owns_nothing_whatever_was_counted() {
    let heap = Heap { allocs: vec![Alloc { size: 8, content: Node::Flat }] };
    let mut context = Context::new();
    context.add(0);
    context.add(7);
    assert_eq!(heap.deep_size_of_children(&Node::Flat, &mut context), 0);
    assert_eq!(context.len(), 2);
}

#[test]
fn weak_reference_is_never_walked() {
    let heap = Heap { allocs: vec![Alloc { size: 64, content: text(100) }] };
    let mut context = Context::new();
    assert_eq!(heap.deep_size_of_children(&Node::Weak { id: 0 }, &mut context), 0);
    assert!(!context.contains(0));
}

#[test]
fn shared_allocation_is_counted_once() {
    let heap = Heap { allocs: vec![Alloc { size: 24, content: text(100) }] };
    let root = Node::Inline(vec![Node::Shared { id: 0 }, Node::Shared { id: 0 }]);
    let mut context = Context::new();
    assert_eq!(heap.deep_size_of_children(&root, &mut context), 124);
    assert!(context.contains(0));
    assert_eq!(context.len(), 1);
}

#[test]
fn two_owners_cost_what_one_costs() {
    let heap = Heap { allocs: vec![Alloc { size: 24, content: text(100) }] };
    let one = Node::Inline(vec![Node::Shared { id: 0 }]);
    let two = Node::Inline(vec![Node::Shared { id: 0 }, Node::Shared { id: 0 }]);
    assert_eq!(heap.deep_size_of(16, &one), heap.deep_size_of(16, &two));
    assert_eq!(heap.deep_size_of(16, &two), 16 + 24 + 100);
}

#[test]
fn counted_allocation_is_free_for_a_later_owner() {
    let heap = Heap { allocs: vec![Alloc { size: 24, content: text(100) }] };
    let mut context = Context::new();
    assert_eq!(heap.deep_size_of_children(&Node::Shared { id: 0 }, &mut context), 124);
    assert_eq!(heap.deep_size_of_children(&Node::Shared { id: 0 }, &mut context), 0);
}

#[test]
fn unknown_allocation_counts_nothing() {
    let heap = empty_heap();
    let mut context = Context::new();
    assert_eq!(heap.deep_size_of_children(&Node::Shared { id: 3 }, &mut context), 0);
    assert_eq!(context.len(), 0);
}

#[test]
fn self_owning_allocation_terminates() {
    let heap = Heap { allocs: vec![Alloc { size: 40, content: Node::Shared { id: 0 } }] };
    let mut context = Context::new();
    assert_eq!(heap.deep_size_of_children(&Node::Shared { id: 0 }, &mut context), 40);
    assert_eq!(context.len(), 1);
}

#[test]
fn ring_of_owners_terminates() {
    let heap = Heap {
        allocs: vec![
            Alloc { size: 10, content: Node::Inline(vec![text(5), Node::Shared { id: 1 }]) },
            Alloc { size: 20, content: Node::Shared { id: 2 } },
            Alloc { size: 30, content: Node::Buffer { bytes: 7, items: vec![Node::Shared { id: 0 }] } },
        ],
    };
    let mut context = Context::new();
    let bytes = heap.deep_size_of_children(&Node::Shared { id: 1 }, &mut context);
    assert_eq!(bytes, 20 + 30 + 7 + 10 + 5);
    assert_eq!(context.len(), 3);
}

#[test]
fn disjoint_values_add_up_in_a_sequence() {
    let heap = Heap {
        allocs: vec![
            Alloc { size: 8, content: text(3) },
            Alloc { size: 16, content: Node::Flat },
        ],
    };
    let a = Node::Inline(vec![Node::Shared { id: 0 }, text(11)]);
    let b = Node::Buffer { bytes: 32, items: vec![Node::Shared { id: 1 }] };
    let alone_a = heap.deep_size_of_children(&a, &mut Context::new());
    let alone_b = heap.deep_size_of_children(&b, &mut Context::new());
    assert_eq!(alone_a, 22);
    assert_eq!(alone_b, 48);
    let mut context = Context::new();
    let both = buffered_children(4, 24, &vec![&a, &b], &heap, &mut context);
    assert_eq!(both, 4 * 24 + alone_a + alone_b);
}

#[test]
fn capacity_not_length_drives_the_buffer() {
    let heap = empty_heap();
    let two = vec![Node::Flat, Node::Flat];
    let items: Vec<&Node> = two.iter().collect();
    let mut context = Context::new();
    assert_eq!(buffered_children(16, 4, &items, &heap, &mut context), 64);
    let none: Vec<&Node> = Vec::new();
    assert_eq!(buffered_children(16, 4, &none, &heap, &mut context), 64);
}

#[test]
fn text_and_numbers_report_twenty_one() {
    let heap = empty_heap();
    let value = Node::Inline(vec![text(5), numbers(4, 4, 3)]);
    let mut context = Context::new();
    assert_eq!(heap.deep_size_of_children(&value, &mut context), 21);
    assert_eq!(value.deep_size_of_children(&heap, &mut context), 21);
}

#[test]
fn deep_size_adds_the_value_itself() {
    let heap = empty_heap();
    let value = Node::Inline(vec![text(5), numbers(4, 4, 3)]);
    assert_eq!(heap.deep_size_of(48, &value), 69);
    assert_eq!(deep_size_of(&value, &heap), std::mem::size_of::<Node>() + 21);
}

#[test]
fn sums_are_held_at_the_largest_number() {
    assert_eq!(add_bytes(3, 4), 7);
    assert_eq!(add_bytes(usize::MAX, 1), usize::MAX);
    assert_eq!(add_bytes(usize::MAX - 1, 1), usize::MAX);
    assert_eq!(slots(3, 8), 24);
    assert_eq!(slots(0, 8), 0);
    assert_eq!(slots(usize::MAX, 2), usize::MAX);
    let heap = empty_heap();
    let value = Node::Inline(vec![text(usize::MAX), text(usize::MAX)]);
    assert_eq!(heap.deep_size_of_children(&value, &mut Context::new()), usize::MAX);
}

#[test]
fn sequences_are_walked_in_order() {
    let heap = Heap { allocs: vec![Alloc { size: 10, content: Node::Flat }] };
    let items = vec![text(1), Node::Shared { id: 0 }, text(2), Node::Shared { id: 0 }];
    let mut context = Context::new();
    assert_eq!(heap.sum_children(&items, &mut context), 13);
    let borrowed: Vec<&Node> = items.iter().collect();
    assert_eq!(heap.sum_borrowed(&borrowed, &mut Context::new()), 13);
    assert_eq!(heap.sum_borrowed(&borrowed, &mut context), 3);
}

#[test]
fn context_records_what_was_added() {
    let mut context = Context::new();
    assert!(!context.contains(5));
    assert!(context.add(5));
    assert!(!context.add(5));
    assert!(context.contains(5));
    assert_eq!(context.len(), 1);
}

#[test]
fn order_of_values_is_irrelevant() {
    let heap = Heap {
        allocs: vec![
            Alloc { size: 10, content: text(5) },
            Alloc { size: 20, content: Node::Inline(vec![Node::Shared { id: 0 }, text(1)]) },
            Alloc { size: 40, content: Node::Shared { id: 1 } },
        ],
    };
    let forward = vec![Node::Shared { id: 0 }, text(3), Node::Shared { id: 2 }, Node::Shared { id: 1 }];
    let backward = vec![Node::Shared { id: 1 }, Node::Shared { id: 2 }, text(3), Node::Shared { id: 0 }];
    let mut first = Context::new();
    let mut second = Context::new();
    let total = heap.sum_children(&forward, &mut first);
    assert_eq!(total, 3 + 10 + 5 + 20 + 1 + 40);
    assert_eq!(heap.sum_children(&backward, &mut second), total);
    assert_eq!(first.len(), 3);
    assert_eq!(second.len(), 3);
}

#[test]
fn each_allocation_of_a_ring_is_charged_once() {
    let heap = Heap {
        allocs: vec![
            Alloc { size: 10, content: Node::Shared { id: 1 } },
            Alloc { size: 20, content: Node::Shared { id: 2 } },
            Alloc { size: 30, content: Node::Shared { id: 0 } },
        ],
    };
    for start in 0..3 {
        let mut context = Context::new();
        let bytes = heap.deep_size_of_children(&Node::Shared { id: start }, &mut context);
        assert_eq!(bytes, 60);
        assert_eq!(context.len(), 3);
    }
}

#[test]
fn three_values_apart_add_up() {
    let heap = Heap {
        allocs: vec![
            Alloc { size: 8, content: text(3) },
            Alloc { size: 16, content: Node::Flat },
            Alloc { size: 32, content: text(1) },
        ],
    };
    let items = vec![
        Node::Inline(vec![Node::Shared { id: 0 }, text(11)]),
        Node::Shared { id: 1 },
        Node::Buffer { bytes: 5, items: vec![Node::Shared { id: 2 }] },
    ];
    let mut alone = 0;
    for item in items.iter() {
        alone += heap.deep_size_of_children(item, &mut Context::new());
    }
    assert_eq!(alone, 22 + 16 + 38);
    let borrowed: Vec<&Node> = items.iter().collect();
    let together = buffered_children(6, 24, &borrowed, &heap, &mut Context::new());
    assert_eq!(together, 6 * 24 + alone);
}
