//! The graph container and the bounded sorted edge set it is built from.

pub mod key;
pub mod laws;
pub mod neighbors;

pub use key::{option_less_than, KeyTraits};
pub use neighbors::{AddEdgeError, Neighbors};

use key::total_order;
use neighbors::{append_error, is_append};
use std::collections::hash_map::Entry;
use std::collections::HashMap;
use vstd::prelude::*;
use vstd::std_specs::hash::obeys_key_model;

verus! {

broadcast use vstd::std_specs::hash::group_hash_axioms;

/// The label of a node.
#[derive(Debug, Eq, PartialEq)]
pub struct NodeLabel(usize);

impl Clone for NodeLabel {
    /// The same label.
    fn clone(&self) -> (r: Self)
        ensures
            r == *self,
    {
        NodeLabel(self.0)
    }
}

/// The nodes of a graph, each with its edge set.
pub type GraphNodes<T, const MAX_NEIGHBORS: usize> = HashMap<T, Neighbors<T, MAX_NEIGHBORS>>;

/// A directed graph in which a node has at most `MAX_NEIGHBORS` out-edges.
///
/// An edge leads from a node of the graph to any identifier, whether or not
/// that identifier is a node of the graph itself.
#[derive(Debug)]
pub struct Graph<T: KeyTraits, const MAX_NEIGHBORS: usize>(GraphNodes<T, MAX_NEIGHBORS>);

/// Why an edge was not added to a graph.
#[derive(Debug, PartialEq)]
pub enum InsertEdgeError {
    /// The node the edge starts from is not in the graph.
    FromMissing,
    /// The edge set of the node the edge starts from did not take it.
    AppendEdgeError(AddEdgeError),
}

/// Why a graph with the nodes `nodes` does not take an edge from `from` to
/// `to`, if it does not: `from` is no node of it, or else the edge set of
/// `from` refuses `to`.
pub open spec fn insert_edge_error<T: KeyTraits, const MAX_NEIGHBORS: usize>(
    nodes: Map<T, Neighbors<T, MAX_NEIGHBORS>>,
    from: T,
    to: T,
) -> Option<InsertEdgeError> {
    if !nodes.contains_key(from) {
        Some(InsertEdgeError::FromMissing)
    } else {
        match append_error(nodes[from]@, MAX_NEIGHBORS as nat, to) {
            Some(e) => Some(InsertEdgeError::AppendEdgeError(e)),
            None => None,
        }
    }
}

/// A call of `insert(node_id, neighbors)` on a graph with the nodes `before`
/// leaves the nodes `after`: `node_id` has the packed edge set that holds
/// `neighbors` in the order given, and every other node is as it was.
pub open spec fn is_insert<T: KeyTraits, const MAX_NEIGHBORS: usize>(
    before: Map<T, Neighbors<T, MAX_NEIGHBORS>>,
    node_id: T,
    neighbors: Seq<T>,
    after: Map<T, Neighbors<T, MAX_NEIGHBORS>>,
) -> bool {
    &&& after == before.insert(node_id, after[node_id])
    &&& after[node_id].packed()
    &&& after[node_id]@ == neighbors
}

/// A call of `insert_edge(from, to)` on a graph with the nodes `before`
/// returns `r` and leaves the nodes `after`: a refusal leaves the graph as it
/// was, and otherwise the edge set of `from` is what `append(to)` makes of it
/// and every other node is as it was.
pub open spec fn is_insert_edge<T: KeyTraits, const MAX_NEIGHBORS: usize>(
    before: Map<T, Neighbors<T, MAX_NEIGHBORS>>,
    from: T,
    to: T,
    r: Result<(), InsertEdgeError>,
    after: Map<T, Neighbors<T, MAX_NEIGHBORS>>,
) -> bool {
    match insert_edge_error(before, from, to) {
        Some(e) => r == Err::<(), InsertEdgeError>(e) && after == before,
        None => {
            &&& r == Ok::<(), InsertEdgeError>(())
            &&& after == before.insert(from, after[from])
            &&& is_append(before[from], to, Ok(()), after[from])
        },
    }
}

impl<T: KeyTraits, const MAX_NEIGHBORS: usize> View for Graph<T, MAX_NEIGHBORS> {
    type V = Map<T, Neighbors<T, MAX_NEIGHBORS>>;

    /// The nodes, each with its edge set.
    closed spec fn view(&self) -> Map<T, Neighbors<T, MAX_NEIGHBORS>> {
        self.0@
    }
}

impl<T: KeyTraits, const MAX_NEIGHBORS: usize> Graph<T, MAX_NEIGHBORS> {
    /// A graph without nodes.
    pub fn new() -> (g: Self)
        ensures
            g@ == Map::<T, Neighbors<T, MAX_NEIGHBORS>>::empty(),
    {
        Graph(HashMap::new())
    }

    /// Makes `node_id` a node with the out-edges `neighbors`, taken as they
    /// come. If `node_id` was a node already, its former edges are dropped.
    pub fn insert<const N: usize>(&mut self, node_id: T, neighbors: &[T; N])
        requires
            N <= MAX_NEIGHBORS,
            obeys_key_model::<T>(),
        ensures
            is_insert(old(self)@, node_id, neighbors@, final(self)@),
    {
        self.0.insert(node_id, Neighbors::from_identifiers(neighbors));
    }

    /// Adds the edge from `from` to `to`.
    ///
    /// `from` has to be a node of the graph; `to` need not be one. Where the
    /// edge is not added the graph is left as it was.
    pub fn insert_edge(&mut self, from: T, to: T) -> (r: Result<(), InsertEdgeError>)
        requires
            obeys_key_model::<T>(),
            total_order::<T>(),
            old(self)@.contains_key(from) ==> old(self)@[from].wf(),
        ensures
            is_insert_edge(old(self)@, from, to, r, final(self)@),
    {
        let r = match self.0.entry(from) {
            Entry::Occupied(node) => {
                let from_node = node.into_mut();
                match from_node.append(to) {
                    Ok(()) => Ok(()),
                    Err(e) => Err(InsertEdgeError::AppendEdgeError(e)),
                }
            },
            Entry::Vacant(_) => Err(InsertEdgeError::FromMissing),
        };
        assert(r is Err ==> self@ =~= old(self)@);
        r
    }
}

impl<T: KeyTraits, const MAX_NEIGHBORS: usize> Clone for Graph<T, MAX_NEIGHBORS> {
    /// A graph with the same nodes and the same edges.
    fn clone(&self) -> (g: Self)
        ensures
            g@ == self@,
    {
        Graph(self.0.clone())
    }
}

impl<T: KeyTraits, const MAX_NEIGHBORS: usize> std::ops::Deref for Graph<T, MAX_NEIGHBORS> {
    type Target = GraphNodes<T, MAX_NEIGHBORS>;

    /// The nodes of the graph, to read.
    fn deref(&self) -> (nodes: &GraphNodes<T, MAX_NEIGHBORS>)
        ensures
            nodes@ == self@,
    {
        &self.0
    }
}

impl<T: KeyTraits, const MAX_NEIGHBORS: usize> std::ops::DerefMut for Graph<T, MAX_NEIGHBORS> {
    /// The nodes of the graph, to change.
    fn deref_mut(&mut self) -> (nodes: &mut GraphNodes<T, MAX_NEIGHBORS>)
        ensures
            nodes@ == old(self)@,
            final(self)@ == final(nodes)@,
    {
        &mut self.0
    }
}

} // verus!
