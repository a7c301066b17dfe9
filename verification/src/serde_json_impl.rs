//! JSON values: a tagged union over nothing, truth values, numbers, text,
//! sequences and keyed maps.
//!
//! A keyed map is stored either in a tree or in an insertion-ordered map,
//! and its public type does not say which. The two have different sizes, so
//! the size of the map type tells them apart. This holds only as long as the
//! two layouts keep different sizes.
use crate::capability::DeepSizeOf;
use crate::context::Context;
use crate::engine::saturate;
use crate::indexmap_impl::{index_map_slot, index_slot};
use crate::layout::{lemma_saturated_slot, slots};
use crate::model::{node_cost, Alloc, Heap, Node, Tally};
use crate::structural::{byte_len, string_capacity, vec_capacity};
use std::collections::BTreeMap;
use vstd::prelude::*;

verus! {

/// `serde_json::Value`, carried as it is: nothing of its inside is known here.
#[verifier::external_type_specification]
#[verifier::external_body]
pub struct ExValue(serde_json::Value);

/// `serde_json::Map`, carried as it is: nothing of its inside is known here.
#[verifier::external_type_specification]
#[verifier::external_body]
#[verifier::reject_recursive_types(K)]
#[verifier::reject_recursive_types(V)]
pub struct ExJsonMap<K, V>(serde_json::Map<K, V>);

/// The shape of a JSON value: its tag, its text where it is one, and the
/// shapes of the values in it.
pub ghost enum Json {
    Null,
    Bool,
    Number,
    Text(Seq<char>),
    Array(Seq<Json>),
    Object { keys: Seq<Seq<char>>, values: Seq<Json> },
}

/// The shape of a JSON value.
pub uninterp spec fn json_view(value: serde_json::Value) -> Json;

/// The shapes of the values that a keyed map holds, in the map's order.
pub uninterp spec fn json_map_values(map: serde_json::Map<String, serde_json::Value>) -> Seq<Json>;

/// The keys that a keyed map holds, in the map's order.
pub uninterp spec fn json_map_keys(map: serde_json::Map<String, serde_json::Value>) -> Seq<
    Seq<char>,
>;

/// A JSON value taken apart: its tag, with what it holds still in place.
pub enum JsonParts<'a> {
    Null,
    Bool(bool),
    Number,
    Text(&'a String),
    Array(&'a Vec<serde_json::Value>),
    Object(&'a serde_json::Map<String, serde_json::Value>),
}

/// The shapes of a sequence of JSON values.
pub open spec fn json_views(values: Seq<serde_json::Value>) -> Seq<Json> {
    values.map_values(|value: serde_json::Value| json_view(value))
}

/// Whether `parts` are the parts of a value of shape `json`.
pub open spec fn shows(parts: JsonParts, json: Json) -> bool {
    match parts {
        JsonParts::Null => json == Json::Null,
        JsonParts::Bool(_) => json == Json::Bool,
        JsonParts::Number => json == Json::Number,
        JsonParts::Text(text) => json == Json::Text(text@),
        JsonParts::Array(values) => json == Json::Array(json_views(values@)),
        JsonParts::Object(map) => json == (Json::Object {
            keys: json_map_keys(*map),
            values: json_map_values(*map),
        }),
    }
}

/// The shapes of the values of borrowed entries.
pub open spec fn entry_views(entries: Seq<(&String, &serde_json::Value)>) -> Seq<Json> {
    entries.map_values(|entry: (&String, &serde_json::Value)| json_view(*entry.1))
}

/// The keys of borrowed entries.
pub open spec fn entry_keys(entries: Seq<(&String, &serde_json::Value)>) -> Seq<Seq<char>> {
    entries.map_values(|entry: (&String, &serde_json::Value)| entry.0@)
}

/// The variants of `serde_json::Value`, told apart: which one the value is,
/// and what it holds.
#[verifier::external_body]
fn json_parts(value: &serde_json::Value) -> (parts: JsonParts<'_>)
    ensures
        shows(parts, json_view(*value)),
{
    match value {
        serde_json::Value::Null => JsonParts::Null,
        serde_json::Value::Bool(truth) => JsonParts::Bool(*truth),
        serde_json::Value::Number(_) => JsonParts::Number,
        serde_json::Value::String(text) => JsonParts::Text(text),
        serde_json::Value::Array(values) => JsonParts::Array(values),
        serde_json::Value::Object(map) => JsonParts::Object(map),
    }
}

/// `serde_json::Map::iter`: the entries, in the map's order.
#[verifier::external_body]
fn json_map_iter(map: &serde_json::Map<String, serde_json::Value>) -> (entries: Vec<
    (&String, &serde_json::Value),
>)
    ensures
        entry_views(entries@) == json_map_values(*map),
        entry_keys(entries@) == json_map_keys(*map),
{
    map.iter().collect()
}

/// The most entries that a node of a tree map holds.
pub const BTREE_MAX: usize = 11;

/// The fewest entries that a node of a tree map holds, the root apart.
pub const BTREE_MIN: usize = 5;

/// The most children that a node of a tree map has.
pub const BTREE_B: usize = 6;

/// How a keyed map stores its entries.
#[derive(Clone, Copy, Debug, PartialEq, Eq, Structural)]
pub enum Backing {
    /// In the nodes of a tree ordered by key.
    Tree,
    /// In a dense array in insertion order, beside a table of indices.
    Indexed,
}

/// Whether the two ways of storing a keyed map can be told apart by size.
pub open spec fn candidates_differ() -> bool {
    vstd::layout::size_of::<BTreeMap<String, serde_json::Value>>() != vstd::layout::size_of::<
        indexmap::IndexMap<String, serde_json::Value>,
    >()
}

/// The way in which a keyed map of `actual` bytes stores its entries, where
/// a tree map takes `tree` bytes.
pub open spec fn backing_of(actual: nat, tree: nat) -> Backing {
    if actual == tree {
        Backing::Tree
    } else {
        Backing::Indexed
    }
}

/// The way in which keyed maps store their entries on this machine.
pub open spec fn detected() -> Backing {
    backing_of(
        vstd::layout::size_of::<serde_json::Map<String, serde_json::Value>>(),
        vstd::layout::size_of::<BTreeMap<String, serde_json::Value>>(),
    )
}

/// Tells the two ways of storing a keyed map apart by the size of the map
/// type. The two candidate sizes must differ: were they equal, the answer
/// would be a guess.
pub fn detect_backing(actual: usize, tree: usize, indexed: usize) -> (backing: Backing)
    requires
        tree != indexed,
    ensures
        backing == backing_of(actual as nat, tree as nat),
{
    if actual == tree {
        Backing::Tree
    } else {
        Backing::Indexed
    }
}

/// The way in which keyed maps store their entries on this machine, or
/// `None` where the two candidates have one size and cannot be told apart.
pub fn keyed_map_backing() -> (backing: Option<Backing>)
    ensures
        backing == if candidates_differ() {
            Some(detected())
        } else {
            None::<Backing>
        },
{
    let actual = core::mem::size_of::<serde_json::Map<String, serde_json::Value>>();
    let tree = core::mem::size_of::<BTreeMap<String, serde_json::Value>>();
    let indexed = core::mem::size_of::<indexmap::IndexMap<String, serde_json::Value>>();
    if tree == indexed {
        None
    } else {
        Some(detect_backing(actual, tree, indexed))
    }
}

/// The bytes of one node of a tree map: its parent, its place in the
/// parent, its length, its entries and its children.
pub open spec fn tree_node_size() -> nat {
    vstd::layout::size_of::<
        (usize, u16, u16, [(String, serde_json::Value); BTREE_MAX], [usize; BTREE_B]),
    >()
}

/// The bytes that one entry takes in an insertion-ordered map: the hash,
/// the key and the value in the array, and the index in the table.
pub open spec fn indexed_entry_size() -> nat {
    index_map_slot::<String, serde_json::Value>()
}

/// The estimated bytes of the storage of a keyed map of `len` entries.
///
/// A tree's shape cannot be observed: its nodes are taken to be filled
/// halfway between the fewest and the most entries that a node holds. An
/// insertion-ordered map's capacity cannot be observed either: it is taken
/// to be twice the length.
pub open spec fn keyed_map_bytes(backing: Backing, len: nat) -> usize {
    match backing {
        Backing::Tree => (saturate(saturate(len * tree_node_size()) as nat * 2) as nat / ((
            BTREE_MAX + BTREE_MIN) as nat)) as usize,
        Backing::Indexed => saturate(saturate(len * 2) as nat * indexed_entry_size()),
    }
}

/// The estimated bytes of the storage of a keyed map of `len` entries.
pub fn keyed_map_storage(backing: Backing, len: usize) -> (bytes: usize)
    ensures
        bytes == keyed_map_bytes(backing, len as nat),
{
    match backing {
        Backing::Tree => {
            let node = core::mem::size_of::<
                (usize, u16, u16, [(String, serde_json::Value); BTREE_MAX], [usize; BTREE_B]),
            >();
            slots(slots(len, node), 2) / (BTREE_MAX + BTREE_MIN)
        },
        Backing::Indexed => {
            let entry = index_slot::<String, serde_json::Value>();
            proof {
                lemma_saturated_slot(0, saturate(len as nat * 2) as nat, indexed_entry_size());
            }
            slots(slots(len, 2), entry)
        },
    }
}

/// Whether `node` describes the text `text`: one buffer that holds the
/// bytes of the text, with no values in it.
pub open spec fn is_text(node: Node, text: Seq<char>) -> bool {
    match node {
        Node::Buffer { bytes, items } => items@.len() == 0 && bytes >= byte_len(text),
        _ => false,
    }
}

/// The bytes of a buffer with room for `capacity` JSON values.
pub open spec fn array_bytes(capacity: nat) -> usize {
    saturate(capacity * vstd::layout::size_of::<serde_json::Value>())
}

/// Whether `bytes` is the size of a buffer of JSON values at some capacity
/// that holds `len` of them.
pub open spec fn is_array_bytes(bytes: usize, len: nat) -> bool {
    exists|capacity: usize| capacity >= len && bytes == #[trigger] array_bytes(capacity as nat)
}

/// Whether `node` describes a JSON value of shape `json`, with keyed maps
/// stored as `backing` says. Capacities are not part of a shape, so one
/// value has many descriptions.
pub open spec fn describes(json: Json, node: Node, backing: Backing) -> bool
    decreases json,
{
    match json {
        Json::Null => node == Node::Flat,
        Json::Bool => node == Node::Flat,
        Json::Number => node == Node::Flat,
        Json::Text(text) => is_text(node, text),
        Json::Array(values) => match node {
            Node::Buffer { bytes, items } => {
                &&& is_array_bytes(bytes, values.len())
                &&& describes_values(values, items@, backing)
            },
            _ => false,
        },
        Json::Object { keys, values } => match node {
            Node::Buffer { bytes, items } => {
                &&& bytes == keyed_map_bytes(backing, values.len())
                &&& describes_entries(keys, values, items@, backing)
            },
            _ => false,
        },
    }
}

/// Whether `items` describe the values of a sequence, one each.
pub open spec fn describes_values(values: Seq<Json>, items: Seq<Node>, backing: Backing) -> bool
    decreases values,
{
    if values.len() == 0 {
        items.len() == 0
    } else {
        &&& items.len() > 0
        &&& describes(values.last(), items.last(), backing)
        &&& describes_values(values.drop_last(), items.drop_last(), backing)
    }
}

/// Whether `items` describe the entries of a keyed map: for each entry the
/// text of its key, then its value.
pub open spec fn describes_entries(
    keys: Seq<Seq<char>>,
    values: Seq<Json>,
    items: Seq<Node>,
    backing: Backing,
) -> bool
    decreases values,
{
    if values.len() == 0 {
        keys.len() == 0 && items.len() == 0
    } else {
        &&& keys.len() == values.len()
        &&& items.len() >= 2
        &&& is_text(items[items.len() - 2], keys.last())
        &&& describes(values.last(), items.last(), backing)
        &&& describes_entries(
            keys.drop_last(),
            values.drop_last(),
            items.take(items.len() - 2),
            backing,
        )
    }
}

/// What a described JSON value owns. JSON values share nothing, so no
/// allocation is counted.
pub open spec fn json_cost(node: Node) -> Tally {
    Tally { bytes: node_cost(Seq::empty(), node, Set::empty()).bytes, counted: Set::empty() }
}

/// Describes a JSON value: each text and sequence by its buffer, each keyed
/// map by the estimate for `backing`.
pub fn describe(value: &serde_json::Value, backing: Backing) -> (node: Node)
    ensures
        describes(json_view(*value), node, backing),
    decreases json_view(*value),
{
    match json_parts(value) {
        JsonParts::Null => Node::Flat,
        JsonParts::Bool(_) => Node::Flat,
        JsonParts::Number => Node::Flat,
        JsonParts::Text(text) => {
            let node = Node::Buffer { bytes: string_capacity(text), items: Vec::new() };
            assert(is_text(node, text@));
            node
        },
        JsonParts::Array(values) => {
            let capacity = vec_capacity(values);
            let bytes = slots(capacity, core::mem::size_of::<serde_json::Value>());
            let ghost shapes = json_views(values@);
            let mut items: Vec<Node> = Vec::new();
            let mut i: usize = 0;
            assert(shapes.take(0) =~= Seq::<Json>::empty());
            while i < values.len()
                invariant
                    i <= values.len(),
                    items@.len() == i,
                    shapes == json_views(values@),
                    json_view(*value) == Json::Array(shapes),
                    describes_values(shapes.take(i as int), items@, backing),
                decreases values.len() - i,
            {
                proof {
                    let whole = json_view(*value);
                    assert(shapes[i as int] == json_view(values@[i as int]));
                    assert(decreases_to!(whole => whole->Array_0));
                    assert(decreases_to!(whole->Array_0 => whole->Array_0[i as int]));
                }
                let item = describe(&values[i], backing);
                let ghost before = items@;
                items.push(item);
                proof {
                    assert(shapes.take(i + 1).drop_last() =~= shapes.take(i as int));
                    assert(shapes.take(i + 1).last() == shapes[i as int]);
                    assert(items@.drop_last() =~= before);
                }
                i += 1;
            }
            let node = Node::Buffer { bytes, items };
            assert(is_array_bytes(bytes, shapes.len())) by {
                assert(bytes == array_bytes(capacity as nat));
                assert(shapes.len() == values@.len());
            }
            assert(shapes.take(i as int) =~= shapes);
            node
        },
        JsonParts::Object(map) => {
            proof {
                let whole = json_view(*value);
                assert(decreases_to!(whole => whole->Object_values));
            }
            describe_map(map, backing)
        },
    }
}

/// Describes a keyed map: its storage by the estimate for `backing`, and in
/// it each key's text followed by the key's value.
pub fn describe_map(map: &serde_json::Map<String, serde_json::Value>, backing: Backing) -> (node:
    Node)
    ensures
        describes(
            Json::Object { keys: json_map_keys(*map), values: json_map_values(*map) },
            node,
            backing,
        ),
    decreases json_map_values(*map),
{
    let entries = json_map_iter(map);
    let bytes = keyed_map_storage(backing, entries.len());
    let ghost shapes = json_map_values(*map);
    let ghost keys = json_map_keys(*map);
    let mut items: Vec<Node> = Vec::new();
    let mut i: usize = 0;
    assert(shapes.take(0) =~= Seq::<Json>::empty());
    assert(keys.take(0) =~= Seq::<Seq<char>>::empty());
    while i < entries.len()
        invariant
            i <= entries.len(),
            items@.len() == 2 * i,
            shapes == json_map_values(*map),
            shapes == entry_views(entries@),
            keys == entry_keys(entries@),
            describes_entries(keys.take(i as int), shapes.take(i as int), items@, backing),
        decreases entries.len() - i,
    {
        let entry = entries[i];
        assert(shapes[i as int] == json_view(*entry.1));
        let key = Node::Buffer { bytes: string_capacity(entry.0), items: Vec::new() };
        let item = describe(entry.1, backing);
        let ghost before = items@;
        items.push(key);
        items.push(item);
        proof {
            assert(items@ =~= before.push(key).push(item));
            assert(keys[i as int] == entry.0@);
            assert(is_text(key, keys[i as int]));
            assert(keys.take(i + 1).drop_last() =~= keys.take(i as int));
            assert(keys.take(i + 1).last() == keys[i as int]);
            assert(shapes.take(i + 1).drop_last() =~= shapes.take(i as int));
            assert(shapes.take(i + 1).last() == shapes[i as int]);
            assert(items@.take(items@.len() - 2) =~= before);
        }
        i += 1;
    }
    let node = Node::Buffer { bytes, items };
    assert(shapes.take(i as int) =~= shapes);
    assert(keys.take(i as int) =~= keys);
    node
}

/// The heap bytes that a described JSON value owns.
pub fn json_children(node: &Node) -> (bytes: usize)
    ensures
        bytes == saturate(json_cost(*node).bytes),
{
    let heap = Heap { allocs: Vec::new() };
    let mut context = Context::new();
    heap.deep_size_of_children(node, &mut context)
}

impl DeepSizeOf for serde_json::Value {
    /// Measurable where the two ways of storing a keyed map differ in size.
    open spec fn measurable(&self) -> bool {
        candidates_differ()
    }

    /// What some description of the value owns.
    open spec fn measures(&self, heap: Seq<Alloc>, visited: Set<usize>, tally: Tally) -> bool {
        exists|node: Node| #[trigger]
            describes(json_view(*self), node, detected()) && tally == json_cost(node)
    }

    fn deep_size_of_children(&self, heap: &Heap, context: &mut Context) -> (bytes: usize) {
        let backing = keyed_map_backing().unwrap();
        let node = describe(self, backing);
        let bytes = json_children(&node);
        assert(self.measures(heap@, old(context)@, json_cost(node)));
        assert(context@ =~= context@.union(Set::empty()));
        bytes
    }
}

impl DeepSizeOf for serde_json::Map<String, serde_json::Value> {
    /// Measurable where the two ways of storing a keyed map differ in size.
    open spec fn measurable(&self) -> bool {
        candidates_differ()
    }

    /// What some description of the map owns.
    open spec fn measures(&self, heap: Seq<Alloc>, visited: Set<usize>, tally: Tally) -> bool {
        exists|node: Node| #[trigger]
            describes(
                Json::Object { keys: json_map_keys(*self), values: json_map_values(*self) },
                node,
                detected(),
            ) && tally == json_cost(node)
    }

    fn deep_size_of_children(&self, heap: &Heap, context: &mut Context) -> (bytes: usize) {
        let backing = keyed_map_backing().unwrap();
        let node = describe_map(self, backing);
        let bytes = json_children(&node);
        assert(self.measures(heap@, old(context)@, json_cost(node)));
        assert(context@ =~= context@.union(Set::empty()));
        bytes
    }
}

/// The heap bytes that the children of a JSON value own, or `None` where
/// the two ways of storing a keyed map cannot be told apart on this machine.
pub fn checked_deep_size_of_children(value: &serde_json::Value) -> (bytes: Option<usize>)
    ensures
        bytes.is_some() == candidates_differ(),
        bytes.is_some() ==> exists|node: Node| #[trigger]
            describes(json_view(*value), node, detected()) && bytes == Some(
                saturate(json_cost(node).bytes),
            ),
{
    match keyed_map_backing() {
        Some(backing) => {
            let node = describe(value, backing);
            Some(json_children(&node))
        },
        None => None,
    }
}

} // verus!
