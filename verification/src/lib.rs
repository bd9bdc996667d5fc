//! A directed graph of bounded out-degree.
//!
//! [`graph::Neighbors`] is the edge set of one node: a fixed array of slots
//! that holds at most as many identifiers as it has slots, in strictly
//! ascending order and each of them once. [`graph::Graph`] maps each node to
//! its edge set and adds an edge only from a node that it has.
//!
//! Identifiers are of any type that is copied freely, totally ordered and
//! hashable ([`graph::KeyTraits`]). What the contracts promise, they promise
//! for the types whose comparison is a total order
//! ([`graph::key::total_order`]) and, where a graph is concerned, whose
//! equality and hashing a hash map can rely on. The integers are such types.
//!
//! The constructors take what they are given as it comes. They neither sort
//! nor look for duplicates, so it is for the caller to hand them identifiers
//! that are strictly ascending; their contracts say exactly what set is made
//! of any input, and when that set is well-formed. Adding an edge asks for a
//! well-formed set and keeps it well-formed.

pub mod graph;
