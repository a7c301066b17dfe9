use deepsize::capability::{deep_size_of, DeepSizeOf};
use deepsize::context::Context;
use deepsize::model::{Alloc, Heap, Node};
use std::mem::size_of;

fn heap() -> Heap {
    Heap { allocs: vec![Alloc { size: 24, content: Node::Buffer { bytes: 100, items: Vec::new() } }] }
}

fn children<T: DeepSizeOf>(value: &T) -> usize {
    value.deep_size_of_children(&heap(), &mut Context::new())
}

#[test]
fn numbers_own_nothing() {
    assert_eq!(children(&7u8), 0);
    assert_eq!(children(&7u16), 0);
    assert_eq!(children(&7u32), 0);
    assert_eq!(children(&7u64), 0);
    assert_eq!(children(&7u128), 0);
    assert_eq!(children(&7usize), 0);
    assert_eq!(children(&-7i8), 0);
    assert_eq!(children(&-7i16), 0);
    assert_eq!(children(&-7i32), 0);
    assert_eq!(children(&-7i64), 0);
    assert_eq!(children(&-7i128), 0);
    assert_eq!(children(&-7isize), 0);
    assert_eq!(children(&true), 0);
    assert_eq!(children(&'x'), 0);
    assert_eq!(children(&()), 0);
    assert_eq!(deep_size_of(&7u32, &heap()), 4);
}

#[test]
fn text_of_five_bytes_and_three_numbers_report_twenty_one() {
    let mut text = String::with_capacity(5);
    text.push_str("hello");
    let mut numbers: Vec<u32> = Vec::with_capacity(4);
    numbers.extend_from_slice(&[1, 2, 3]);
    assert_eq!(text.capacity(), 5);
    assert_eq!(numbers.capacity(), 4);
    let value = (text, numbers);
    assert_eq!(children(&value), 21);
    assert_eq!(deep_size_of(&value, &heap()), size_of::<(String, Vec<u32>)>() + 21);
}

#[test]
fn vector_of_capacity_sixteen_with_two_values_reports_sixteen_slots() {
    let mut numbers: Vec<u64> = Vec::with_capacity(16);
    numbers.push(1);
    numbers.push(2);
    assert_eq!(numbers.capacity(), 16);
    assert_eq!(children(&numbers), 16 * 8);
    numbers.pop();
    assert_eq!(children(&numbers), 16 * 8);
    numbers.clear();
    assert_eq!(children(&numbers), 16 * 8);
}

#[test]
fn vector_adds_what_its_values_own() {
    let mut texts: Vec<String> = Vec::with_capacity(3);
    texts.push(String::with_capacity(10));
    texts.push(String::with_capacity(20));
    let expected = texts.capacity() * size_of::<String>()
        + texts[0].capacity()
        + texts[1].capacity();
    assert_eq!(children(&texts), expected);
}

#[test]
fn vector_of_described_values_counts_shared_once() {
    let owners = vec![Node::Shared { id: 0 }, Node::Shared { id: 0 }, Node::Shared { id: 0 }];
    let expected = owners.capacity() * size_of::<Node>() + 124;
    let mut context = Context::new();
    assert_eq!(owners.deep_size_of_children(&heap(), &mut context), expected);
    assert!(context.contains(0));
    assert_eq!(owners.deep_size_of_children(&heap(), &mut context), expected - 124);
}

#[test]
fn pair_threads_the_context() {
    let pair = (Node::Shared { id: 0 }, Node::Shared { id: 0 });
    assert_eq!(children(&pair), 124);
}

#[test]
fn optional_value_reports_what_is_there() {
    let none: Option<String> = None;
    assert_eq!(children(&none), 0);
    let some = Some(String::with_capacity(12));
    let capacity = some.as_ref().unwrap().capacity();
    assert_eq!(children(&some), capacity);
}

#[test]
fn owned_box_counts_its_allocation() {
    let boxed: Box<u64> = Box::new(9);
    assert_eq!(children(&boxed), 8);
    let text = Box::new(String::with_capacity(30));
    let capacity = text.capacity();
    assert_eq!(children(&text), size_of::<String>() + capacity);
}

#[test]
fn disjoint_values_add_up_in_a_vector() {
    let a = String::with_capacity(11);
    let b = String::with_capacity(22);
    let alone = children(&a) + children(&b);
    let mut both = Vec::with_capacity(2);
    both.push(a);
    both.push(b);
    assert_eq!(children(&both), alone + both.capacity() * size_of::<String>());
}

#[test]
fn text_reports_no_less_than_its_bytes() {
    let text = String::from("héllo wörld");
    assert_eq!(text.len(), 13);
    assert!(children(&text) >= 13);
    assert_eq!(children(&text), text.capacity());
}

#[test]
fn vector_reports_no_less_than_its_values() {
    let numbers: Vec<u64> = vec![1, 2, 3, 4, 5];
    assert!(children(&numbers) >= 5 * 8);
    assert_eq!(children(&numbers), numbers.capacity() * 8);
}
