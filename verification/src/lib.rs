//! Exhaustive-coverage tracker for enum values visited during repeated
//! structural sampling passes over a data type.
//!
//! A sampler discovers the shape of a type by constructing sample values.
//! Each pass through an enum realizes a single variant, so covering every
//! variant — including variants of nested and self-referential enums —
//! takes many passes. The tracker is the memory between passes: one [`node::Node`]
//! per distinct enum name, owned by an [`tracker::EnumTracker`] that drives a
//! cursor through each node's variants and answers when nothing is left to
//! explore.

pub mod node;
pub mod tracker;
