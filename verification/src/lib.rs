//! A dependency-injection runtime: providers, containers that register them,
//! breadth-first discovery of related providers, and a two-pass processor that
//! builds a wired container from a declarative schema document.
//!
//! Providers and containers live in a [`graph::Graph`] and refer to each other
//! by index, which gives every object an identity that does not depend on its
//! contents.

pub mod containers;
pub mod document;
pub mod errors;
pub mod graph;
pub mod injections;
pub mod laws;
pub mod providers;
pub mod reference;
pub mod schema;
pub mod symbols;
pub mod table;
pub mod text;
pub mod traversal;
