//! The indexed collections the network model is built on: a directed graph
//! map for the intervals and a multimap for the visits of a train. Their
//! behaviour is stated here and taken on trust.

use multimap::MultiMap;
use petgraph::graphmap::DiGraphMap;
use petgraph::graphmap::GraphMap;
use petgraph::Directed;
use std::hash::BuildHasher;
use vstd::prelude::*;

verus! {

/// `petgraph::graphmap::GraphMap`, of which nothing is known but what the
/// functions below state.
#[verifier::external_type_specification]
#[verifier::external_body]
#[verifier::reject_recursive_types(N)]
#[verifier::reject_recursive_types(E)]
#[verifier::reject_recursive_types(Ty)]
#[verifier::reject_recursive_types(S)]
pub struct ExGraphMap<N, E, Ty, S: BuildHasher>(GraphMap<N, E, Ty, S>);

/// `petgraph::Directed`, the marker of a graph with directed edges.
#[verifier::external_type_specification]
#[verifier::external_body]
pub struct ExDirected(Directed);

/// `multimap::MultiMap`, of which nothing is known but what the functions
/// below state.
#[verifier::external_type_specification]
#[verifier::external_body]
#[verifier::reject_recursive_types(K)]
#[verifier::reject_recursive_types(V)]
#[verifier::reject_recursive_types(S)]
pub struct ExMultiMap<K, V, S>(MultiMap<K, V, S>);

/// The edges of a directed graph map: each ordered pair of nodes that is
/// joined, with the weight stored for it.
pub uninterp spec fn graph_edges(g: DiGraphMap<u64, usize>) -> Map<(u64, u64), usize>;

/// The contents of a multimap: each key that is present, with the values
/// inserted under it in insertion order.
pub uninterp spec fn multimap_entries(m: MultiMap<u64, usize>) -> Map<u64, Seq<usize>>;

/// `GraphMap::new`: a graph without edges.
#[verifier::external_body]
pub(crate) fn graph_new() -> (graph: DiGraphMap<u64, usize>)
    ensures
        forall|e: (u64, u64)| !graph_edges(graph).contains_key(e),
{
    DiGraphMap::new()
}

/// `GraphMap::add_edge` on a directed graph: the edge from `a` to `b` then
/// carries `weight`, every other edge is as before, and the weight that the
/// edge carried before is returned.
#[verifier::external_body]
pub(crate) fn graph_add_edge(g: &mut DiGraphMap<u64, usize>, a: u64, b: u64, weight: usize) -> (prev:
    Option<usize>)
    ensures
        graph_edges(*final(g)) == graph_edges(*old(g)).insert((a, b), weight),
        prev == (if graph_edges(*old(g)).contains_key((a, b)) {
            Some(graph_edges(*old(g))[(a, b)])
        } else {
            None
        }),
{
    g.add_edge(a, b, weight)
}

/// `GraphMap::edge_weight` on a directed graph: the weight of the edge from
/// `a` to `b`, if the graph has that edge.
#[verifier::external_body]
pub(crate) fn graph_edge_weight(g: &DiGraphMap<u64, usize>, a: u64, b: u64) -> (w: Option<usize>)
    ensures
        w == (if graph_edges(*g).contains_key((a, b)) {
            Some(graph_edges(*g)[(a, b)])
        } else {
            None
        }),
{
    g.edge_weight(a, b).copied()
}

/// `GraphMap::neighbors` on a directed graph: the nodes reached by an edge
/// that leaves `a`, each once, in no stated order.
#[verifier::external_body]
pub(crate) fn graph_neighbors(g: &DiGraphMap<u64, usize>, a: u64) -> (out: Vec<u64>)
    ensures
        forall|b: u64| out@.contains(b) <==> graph_edges(*g).contains_key((a, b)),
        out@.no_duplicates(),
{
    g.neighbors(a).collect()
}

/// `MultiMap::new`: a multimap without keys.
#[verifier::external_body]
pub(crate) fn multimap_new() -> (index: MultiMap<u64, usize>)
    ensures
        forall|k: u64| !multimap_entries(index).contains_key(k),
{
    MultiMap::new()
}

/// What `MultiMap::insert` leaves under the key `k`: the values that were
/// there, then `v`.
pub open spec fn multimap_pushed(entries: Map<u64, Seq<usize>>, k: u64, v: usize) -> Seq<usize> {
    if entries.contains_key(k) {
        entries[k].push(v)
    } else {
        seq![v]
    }
}

/// `MultiMap::insert`: `v` is appended to the values under `k`, and `k` is
/// added where it was absent; the other keys are as before.
#[verifier::external_body]
pub(crate) fn multimap_insert(m: &mut MultiMap<u64, usize>, k: u64, v: usize)
    ensures
        multimap_entries(*final(m)) == multimap_entries(*old(m)).insert(
            k,
            multimap_pushed(multimap_entries(*old(m)), k, v),
        ),
{
    m.insert(k, v)
}

/// `MultiMap::get_vec`: the values under `k` in insertion order, if `k` is
/// present.
#[verifier::external_body]
pub(crate) fn multimap_get_vec(m: &MultiMap<u64, usize>, k: u64) -> (out: Option<&Vec<usize>>)
    ensures
        out.is_some() == multimap_entries(*m).contains_key(k),
        out.is_some() ==> out.unwrap()@ == multimap_entries(*m)[k],
{
    m.get_vec(&k)
}

} // verus!
