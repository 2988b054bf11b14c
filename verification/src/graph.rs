//! Shortest paths in a graph whose nodes are numbers.

use std::collections::HashMap;
use vstd::prelude::*;

verus! {

broadcast use vstd::std_specs::hash::group_hash_axioms;

/// A graph as a value: for each node that has successors, the list of them.
pub open spec fn lists(graph: Map<u64, Vec<u64>>) -> Map<u64, Seq<u64>> {
    graph.map_values(|list: Vec<u64>| list@)
}

/// The successors of a node: the list that the graph holds for it, and none
/// if it holds no list.
pub open spec fn edges(graph: Map<u64, Seq<u64>>, node: u64) -> Seq<u64> {
    if graph.contains_key(node) {
        graph[node]
    } else {
        Seq::empty()
    }
}

/// Whether `path` leads from `start` to `end`: each of its nodes but the
/// first is a successor of the node before it.
pub open spec fn is_path(graph: Map<u64, Seq<u64>>, path: Seq<u64>, start: u64, end: u64) -> bool {
    &&& path.len() >= 1
    &&& path[0] == start
    &&& path.last() == end
    &&& forall|i: int| 1 <= i < path.len() ==> edges(graph, path[i - 1]).contains(#[trigger] path[i])
}

/// Whether `n` is the number of nodes on a shortest path from `start` to
/// `end`.
pub open spec fn is_shortest(graph: Map<u64, Seq<u64>>, start: u64, end: u64, n: nat) -> bool {
    &&& exists|path: Seq<u64>| #[trigger] is_path(graph, path, start, end) && path.len() == n
    &&& forall|other: Seq<u64>| #[trigger] is_path(graph, other, start, end) ==> n <= other.len()
}

/// Whether no path leads from `start` to `end`.
pub open spec fn is_cut_off(graph: Map<u64, Seq<u64>>, start: u64, end: u64) -> bool {
    forall|other: Seq<u64>| !#[trigger] is_path(graph, other, start, end)
}

/// Whether `r` is the number of nodes on a shortest path from `start` to
/// `end`, or nothing where there is no path.
pub open spec fn is_distance(graph: Map<u64, Seq<u64>>, start: u64, end: u64, r: Option<usize>) -> bool {
    match r {
        Some(n) => is_shortest(graph, start, end, n as nat),
        None => is_cut_off(graph, start, end),
    }
}

/// The successors of a node.
pub fn successors(graph: &HashMap<u64, Vec<u64>>, node: &u64) -> (list: Vec<u64>)
    ensures
        list@ == edges(lists(graph@), *node),
{
    match graph.get(node) {
        Some(list) => list.clone(),
        None => Vec::new(),
    }
}

/// Whether two nodes are the same.
pub fn same_node(a: &u64, b: &u64) -> (same: bool)
    ensures
        same == (*a == *b),
{
    *a == *b
}

/// Calls `pathfinding::directed::bfs::bfs` from `start`, with [`successors`]
/// in the graph for the successors of a node and `end` as the only goal.
///
/// The contract states what the search is documented to return: a shortest
/// path from the start to the goal, both included, or nothing if there is no
/// path. The graph is finite, so the search comes to an end.
#[verifier::external_body]
fn bfs_path(graph: &HashMap<u64, Vec<u64>>, start: &u64, end: &u64) -> (r: Option<Vec<u64>>)
    ensures
        match r {
            Some(path) => is_path(lists(graph@), path@, *start, *end) && forall|other: Seq<u64>|
                #[trigger] is_path(lists(graph@), other, *start, *end) ==> path@.len()
                    <= other.len(),
            None => is_cut_off(lists(graph@), *start, *end),
        },
{
    pathfinding::directed::bfs::bfs(start, |node| successors(graph, node), |node| same_node(node, end))
}

/// The number of nodes on a shortest path from `start` to `end`, both
/// counted; nothing if there is no path.
pub fn distance(graph: &HashMap<u64, Vec<u64>>, start: u64, end: u64) -> (r: Option<usize>)
    ensures
        is_distance(lists(graph@), start, end, r),
{
    match bfs_path(graph, &start, &end) {
        Some(path) => {
            assert(is_path(lists(graph@), path@, start, end));
            Some(path.len())
        },
        None => None,
    }
}

} // verus!
