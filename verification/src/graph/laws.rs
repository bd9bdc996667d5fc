//! What holds of every run of calls on an edge set or on a graph.
//!
//! A run is told by the values the container goes through: the value before
//! the first call, and then the value each call leaves. A law takes such a
//! run, or a single call, and says what holds of it.

use super::key::KeyTraits;
use super::neighbors::{
    is_append, lemma_sorted_insert_len, strictly_ascending, AddEdgeError, Neighbors,
};
use super::{is_insert, is_insert_edge, InsertEdgeError};
use vstd::prelude::*;

verus! {

/// `append` is called on an edge set with each of `xs` in turn: `states` are
/// the values of the set before the first call and after each call, and `rs`
/// is what the calls return.
pub open spec fn is_append_run<T: KeyTraits, const MAX_NEIGHBORS: usize>(
    states: Seq<Neighbors<T, MAX_NEIGHBORS>>,
    xs: Seq<T>,
    rs: Seq<Result<(), AddEdgeError>>,
) -> bool {
    &&& states.len() == xs.len() + 1
    &&& rs.len() == xs.len()
    &&& forall|i: int|
        0 <= i < xs.len() ==> is_append(states[i], #[trigger] xs[i], rs[i], states[i + 1])
}

/// A set that is well-formed before a run of calls of `append` is well-formed
/// after each of them, whether the call added its identifier or not. So the
/// identifiers held are strictly ascending whenever one looks.
pub proof fn lemma_appends_keep_order<T: KeyTraits, const MAX_NEIGHBORS: usize>(
    states: Seq<Neighbors<T, MAX_NEIGHBORS>>,
    xs: Seq<T>,
    rs: Seq<Result<(), AddEdgeError>>,
    k: int,
)
    requires
        is_append_run(states, xs, rs),
        states[0].wf(),
        0 <= k <= xs.len(),
    ensures
        states[k].wf(),
        strictly_ascending(states[k]@),
    decreases k,
{
    if k > 0 {
        lemma_appends_keep_order(states, xs, rs, k - 1);
        assert(is_append(states[k - 1], xs[k - 1], rs[k - 1], states[k]));
    }
}

/// A set with room left answers an identifier it holds already with
/// `Exists`, and is left as it was. (A full set answers with `Overflow`
/// before it looks for the identifier.)
pub proof fn lemma_duplicate_is_refused<T: KeyTraits, const MAX_NEIGHBORS: usize>(
    before: Neighbors<T, MAX_NEIGHBORS>,
    x: T,
    r: Result<(), AddEdgeError>,
    after: Neighbors<T, MAX_NEIGHBORS>,
)
    requires
        is_append(before, x, r, after),
        before@.contains(x),
        before@.len() < MAX_NEIGHBORS,
    ensures
        r == Err::<(), AddEdgeError>(AddEdgeError::Exists),
        after == before,
{
}

/// Each call of a run that adds its identifier makes the set longer by one:
/// if the first `k` calls all do, the set then holds `k` identifiers more
/// than at the start.
pub proof fn lemma_appends_add_up<T: KeyTraits, const MAX_NEIGHBORS: usize>(
    states: Seq<Neighbors<T, MAX_NEIGHBORS>>,
    xs: Seq<T>,
    rs: Seq<Result<(), AddEdgeError>>,
    k: int,
)
    requires
        is_append_run(states, xs, rs),
        0 <= k <= xs.len(),
        forall|i: int| 0 <= i < k ==> (#[trigger] rs[i]) is Ok,
    ensures
        states[k]@.len() == states[0]@.len() + k,
    decreases k,
{
    if k > 0 {
        lemma_appends_add_up(states, xs, rs, k - 1);
        assert(is_append(states[k - 1], xs[k - 1], rs[k - 1], states[k]));
        assert(rs[k - 1] is Ok);
        lemma_sorted_insert_len(states[k - 1]@, xs[k - 1]);
    }
}

/// After `MAX_NEIGHBORS` calls of `append` that each added their identifier,
/// one more call is answered with `Overflow`, whatever it offers, and leaves
/// the set as it was.
pub proof fn lemma_full_after_max_appends<T: KeyTraits, const MAX_NEIGHBORS: usize>(
    states: Seq<Neighbors<T, MAX_NEIGHBORS>>,
    xs: Seq<T>,
    rs: Seq<Result<(), AddEdgeError>>,
    x: T,
    r: Result<(), AddEdgeError>,
    after: Neighbors<T, MAX_NEIGHBORS>,
)
    requires
        is_append_run(states, xs, rs),
        xs.len() == MAX_NEIGHBORS,
        forall|i: int| 0 <= i < xs.len() ==> (#[trigger] rs[i]) is Ok,
        is_append(states.last(), x, r, after),
    ensures
        r == Err::<(), AddEdgeError>(AddEdgeError::Overflow),
        after == states.last(),
{
    lemma_appends_add_up(states, xs, rs, xs.len() as int);
}

/// Once `append` has refused an identifier, offering the same identifier
/// again is answered with the same error every time, and the set stays as it
/// was before the first call.
pub proof fn lemma_append_refusal_repeats<T: KeyTraits, const MAX_NEIGHBORS: usize>(
    states: Seq<Neighbors<T, MAX_NEIGHBORS>>,
    xs: Seq<T>,
    rs: Seq<Result<(), AddEdgeError>>,
    k: int,
)
    requires
        is_append_run(states, xs, rs),
        0 <= k < xs.len(),
        forall|i: int| 0 <= i < xs.len() ==> #[trigger] xs[i] == xs[0],
        rs[0] is Err,
    ensures
        rs[k] == rs[0],
        states[k + 1] == states[0],
    decreases k,
{
    assert(is_append(states[k], xs[k], rs[k], states[k + 1]));
    if k > 0 {
        lemma_append_refusal_repeats(states, xs, rs, k - 1);
        assert(is_append(states[0], xs[0], rs[0], states[1]));
    }
}

/// A call that changes a graph, with what it was given and, for
/// `insert_edge`, what it returned.
pub enum Call<T> {
    /// `insert(node_id, neighbors)`.
    Insert { node_id: T, neighbors: Seq<T> },
    /// `insert_edge(from, to)`, which returned `r`.
    InsertEdge { from: T, to: T, r: Result<(), InsertEdgeError> },
}

/// The calls `calls` are made on a graph in turn: `states` are the nodes of
/// the graph before the first call and after each call.
pub open spec fn is_graph_run<T: KeyTraits, const MAX_NEIGHBORS: usize>(
    states: Seq<Map<T, Neighbors<T, MAX_NEIGHBORS>>>,
    calls: Seq<Call<T>>,
) -> bool {
    &&& states.len() == calls.len() + 1
    &&& forall|i: int|
        0 <= i < calls.len() ==> match #[trigger] calls[i] {
            Call::Insert { node_id, neighbors } => is_insert(
                states[i],
                node_id,
                neighbors,
                states[i + 1],
            ),
            Call::InsertEdge { from, to, r } => is_insert_edge(states[i], from, to, r, states[i + 1]),
        }
}

/// The nodes of a graph are the identifiers that were passed to `insert`: a
/// run of calls on a graph that had no node `x` at the start, and in which
/// none of the first `k` calls is `insert(x, ..)`, has no node `x` after
/// these calls.
pub proof fn lemma_nodes_come_from_insert<T: KeyTraits, const MAX_NEIGHBORS: usize>(
    states: Seq<Map<T, Neighbors<T, MAX_NEIGHBORS>>>,
    calls: Seq<Call<T>>,
    x: T,
    k: int,
)
    requires
        is_graph_run(states, calls),
        !states[0].contains_key(x),
        0 <= k <= calls.len(),
        forall|i: int|
            0 <= i < k ==> !((#[trigger] calls[i]) matches Call::Insert { node_id, .. }
                && node_id == x),
    ensures
        !states[k].contains_key(x),
    decreases k,
{
    if k > 0 {
        lemma_nodes_come_from_insert(states, calls, x, k - 1);
        let call = calls[k - 1];
        assert(!(call matches Call::Insert { node_id, .. } && node_id == x));
    }
}

/// In a run of calls on a graph made by `new`, a call of
/// `insert_edge(from, to)` before which `from` was never passed to `insert`
/// is answered with `FromMissing`, whatever `to` is, and leaves the graph as
/// it was.
pub proof fn lemma_edge_needs_inserted_source<T: KeyTraits, const MAX_NEIGHBORS: usize>(
    states: Seq<Map<T, Neighbors<T, MAX_NEIGHBORS>>>,
    calls: Seq<Call<T>>,
    k: int,
)
    requires
        is_graph_run(states, calls),
        states[0] == Map::<T, Neighbors<T, MAX_NEIGHBORS>>::empty(),
        0 <= k < calls.len(),
        calls[k] is InsertEdge,
        forall|i: int|
            0 <= i < k ==> !((#[trigger] calls[i]) matches Call::Insert { node_id, .. }
                && node_id == calls[k]->from),
    ensures
        calls[k]->r == Err::<(), InsertEdgeError>(InsertEdgeError::FromMissing),
        states[k + 1] == states[k],
{
    lemma_nodes_come_from_insert(states, calls, calls[k]->from, k);
}

/// Once `insert_edge` has refused an edge, asking for the same edge again is
/// answered with the same error every time, and the graph stays as it was
/// before the first call.
pub proof fn lemma_edge_refusal_repeats<T: KeyTraits, const MAX_NEIGHBORS: usize>(
    states: Seq<Map<T, Neighbors<T, MAX_NEIGHBORS>>>,
    calls: Seq<Call<T>>,
    k: int,
)
    requires
        is_graph_run(states, calls),
        0 <= k < calls.len(),
        calls[0] is InsertEdge,
        calls[0]->r is Err,
        forall|i: int|
            0 <= i < calls.len() ==> {
                &&& (#[trigger] calls[i]) is InsertEdge
                &&& calls[i]->from == calls[0]->from
                &&& calls[i]->to == calls[0]->to
            },
    ensures
        calls[k]->r == calls[0]->r,
        states[k + 1] == states[0],
    decreases k,
{
    let call = calls[k];
    assert(call is InsertEdge);
    if k > 0 {
        lemma_edge_refusal_repeats(states, calls, k - 1);
        let first = calls[0];
        assert(first is InsertEdge);
    }
}

} // verus!
