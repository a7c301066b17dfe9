use deepsize::capability::DeepSizeOf;
use deepsize::context::Context;
use deepsize::model::{Heap, Node};
use deepsize::serde_json_impl::{
    checked_deep_size_of_children, describe, describe_map, detect_backing, json_children,
    keyed_map_backing, keyed_map_storage, Backing, BTREE_B, BTREE_MAX, BTREE_MIN,
};
use serde_json::{Number, Value};
use std::collections::BTreeMap;
use std::mem::size_of;

fn measure(value: &Value) -> usize {
    let mut context = Context::new();
    let bytes = value.deep_size_of_children(&Heap { allocs: Vec::new() }, &mut context);
    assert_eq!(context.len(), 0);
    bytes
}

fn tree_node() -> usize {
    size_of::<(usize, u16, u16, [(String, Value); BTREE_MAX], [usize; BTREE_B])>()
}

fn indexed_entry() -> usize {
    2 * size_of::<usize>() + size_of::<String>() + size_of::<Value>()
}

fn storage(len: usize) -> usize {
    match keyed_map_backing().unwrap() {
        Backing::Tree => len * tree_node() * 2 / (BTREE_MAX + BTREE_MIN),
        Backing::Indexed => len * 2 * indexed_entry(),
    }
}

fn text(content: &str, capacity: usize) -> (Value, usize) {
    let mut text = String::with_capacity(capacity);
    text.push_str(content);
    let capacity = text.capacity();
    (Value::String(text), capacity)
}

#[test]
fn the_two_backings_differ_in_size() {
    assert_ne!(
        size_of::<BTreeMap<String, Value>>(),
        size_of::<indexmap::IndexMap<String, Value>>()
    );
    let expected = if size_of::<serde_json::Map<String, Value>>() == size_of::<BTreeMap<String, Value>>() {
        Backing::Tree
    } else {
        Backing::Indexed
    };
    assert_eq!(keyed_map_backing(), Some(expected));
}

#[test]
fn backing_is_told_by_size() {
    assert_eq!(detect_backing(24, 24, 56), Backing::Tree);
    assert_eq!(detect_backing(56, 24, 56), Backing::Indexed);
    assert_eq!(detect_backing(40, 24, 56), Backing::Indexed);
}

#[test]
fn storage_estimates_are_exact() {
    assert_eq!(BTREE_MAX, 11);
    assert_eq!(BTREE_MIN, 5);
    assert_eq!(BTREE_B, 6);
    assert_eq!(keyed_map_storage(Backing::Tree, 0), 0);
    assert_eq!(keyed_map_storage(Backing::Tree, 8), 8 * tree_node() * 2 / 16);
    assert_eq!(keyed_map_storage(Backing::Tree, 3), 3 * tree_node() * 2 / 16);
    assert_eq!(keyed_map_storage(Backing::Indexed, 3), 6 * indexed_entry());
    assert_eq!(keyed_map_storage(Backing::Indexed, usize::MAX), usize::MAX);
    assert_eq!(keyed_map_storage(Backing::Tree, usize::MAX), usize::MAX / 16);
}

#[test]
fn plain_values_own_nothing() {
    assert_eq!(measure(&Value::Null), 0);
    assert_eq!(measure(&Value::Bool(true)), 0);
    assert_eq!(measure(&Value::Number(Number::from(12u64))), 0);
    assert_eq!(checked_deep_size_of_children(&Value::Null), Some(0));
}

#[test]
fn text_owns_its_buffer() {
    let (value, capacity) = text("hello", 5);
    assert!(capacity >= 5);
    assert_eq!(measure(&value), capacity);
    let (roomy, capacity) = text("hi", 64);
    assert!(capacity >= 64);
    assert_eq!(measure(&roomy), capacity);
}

#[test]
fn array_owns_its_buffer_and_its_values() {
    let mut values = Vec::with_capacity(4);
    let (first, a) = text("one", 3);
    let (second, b) = text("three", 16);
    values.push(first);
    values.push(Value::Null);
    values.push(second);
    let expected = values.capacity() * size_of::<Value>() + a + b;
    let value = Value::Array(values);
    assert_eq!(measure(&value), expected);
    assert_eq!(checked_deep_size_of_children(&value), Some(expected));
}

#[test]
fn object_owns_storage_keys_and_values() {
    let mut map = serde_json::Map::new();
    let (first, a) = text("x", 8);
    map.insert(String::from("alpha"), first);
    map.insert(String::from("beta"), Value::Bool(false));
    let keys: usize = map.keys().map(|key| key.capacity()).sum();
    let expected = storage(2) + keys + a;
    assert_eq!(
        map.deep_size_of_children(&Heap { allocs: Vec::new() }, &mut Context::new()),
        expected
    );
    assert_eq!(measure(&Value::Object(map)), expected);
}

#[test]
fn nested_values_are_walked() {
    let mut inner = serde_json::Map::new();
    let (leaf, a) = text("leaf", 4);
    inner.insert(String::from("k"), leaf);
    let inner_keys: usize = inner.keys().map(|key| key.capacity()).sum();
    let values = vec![Value::Object(inner), Value::Array(Vec::new())];
    let outer = values.capacity() * size_of::<Value>();
    let expected = outer + storage(1) + inner_keys + a;
    assert_eq!(measure(&Value::Array(values)), expected);
}

#[test]
fn description_follows_the_value() {
    let (value, capacity) = text("abc", 3);
    assert_eq!(
        describe(&value, Backing::Tree),
        Node::Buffer { bytes: capacity, items: Vec::new() }
    );
    assert_eq!(describe(&Value::Null, Backing::Indexed), Node::Flat);
    let mut map = serde_json::Map::new();
    map.insert(String::from("key"), Value::Null);
    let key = map.keys().next().unwrap().capacity();
    let node = describe_map(&map, Backing::Indexed);
    assert_eq!(
        node,
        Node::Buffer {
            bytes: 2 * indexed_entry(),
            items: vec![Node::Buffer { bytes: key, items: Vec::new() }, Node::Flat],
        }
    );
    assert_eq!(json_children(&node), 2 * indexed_entry() + key);
}
