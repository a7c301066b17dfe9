//! Deep size accounting: how many bytes a value and everything it owns
//! occupy.
//!
//! A type that can be measured offers [`capability::DeepSizeOf`]: the heap
//! bytes that a value's children own, without the value's own fixed-size
//! representation. [`capability::deep_size_of`] adds the two.
//!
//! Shared ownership is measured on descriptions. A [`model::Node`] states
//! what a value owns; the allocations that several owners share live in a
//! [`model::Heap`]. The walk in [`engine`] charges a description with a
//! [`context::Context`] that remembers which shared allocations were counted,
//! so each is counted once and a cycle of owners ends the walk. [`laws`],
//! [`reach`] and [`order`] state what holds of every walk.
//!
//! [`structural`] measures plain values, text, sequences, optional values,
//! boxes and pairs. [`layout`] holds the size formulas for backing storage,
//! and [`walk`] measures the values that a container holds, whatever their
//! type. One module for each family of containers applies them: slabs, slot
//! maps, small vectors, vectors of fixed capacity, hash tables,
//! insertion-ordered maps and JSON values. Each states its formula for
//! values of any measurable type, given the capacity and the values; the
//! containers themselves are measured where they hold descriptions.
//! [`handles`] lists the types that own no heap memory at all.
//!
//! Byte counts saturate: a total beyond the largest `usize` is reported as
//! the largest `usize`.
pub mod context;
pub mod model;
pub mod engine;
pub mod capability;
pub mod layout;
pub mod laws;
pub mod reach;
pub mod order;
pub mod structural;
pub mod walk;
pub mod handles;
pub mod slab_impl;
pub mod slotmap_impl;
pub mod smallvec_impl;
pub mod arrayvec_impl;
pub mod hashbrown_impl;
pub mod indexmap_impl;
pub mod serde_json_impl;
