//! Merging one graph into another.

use vstd::prelude::*;
use crate::edge::EdgeType;
use crate::graph::Graph;
use crate::laws::lemma_merge_consistent;

verus! {

/// The ids of what a merge copied: for each node and for each edge of the
/// source, in the source's order, the pair of its id there and the id of its
/// copy in the destination.
#[derive(Clone, Debug, PartialEq)]
pub struct MergeMap {
    pub nodes: Vec<[usize; 2]>,
    pub edges: Vec<[usize; 2]>,
}

/// The mathematical value of a [`MergeMap`].
pub struct MergeMapView {
    pub nodes: Seq<(usize, usize)>,
    pub edges: Seq<(usize, usize)>,
}

/// The pairs of a sequence of two-element arrays.
pub open spec fn pair_views(s: Seq<[usize; 2]>) -> Seq<(usize, usize)> {
    Seq::new(s.len(), |i: int| (s[i][0], s[i][1]))
}

impl View for MergeMap {
    type V = MergeMapView;

    open spec fn view(&self) -> MergeMapView {
        MergeMapView { nodes: pair_views(self.nodes@), edges: pair_views(self.edges@) }
    }
}

/// Copies every node of `other`, then every edge of `other`, into `graph`, and
/// returns the ids that the copies got. A copied edge keeps its kind and
/// connects the copies of its endpoints.
pub fn merge_graphs(graph: &mut Graph, other: &Graph) -> (map: MergeMap)
    requires
        other@.endpoints_in_range(),
    ensures
        final(graph)@ == old(graph)@.merge(other@),
        map@.nodes == old(graph)@.node_pairs(other@),
        map@.edges == old(graph)@.edge_pairs(other@),
        final(graph).nodes.len() == old(graph).nodes.len() + other.nodes.len(),
        final(graph).edges.len() == old(graph).edges.len() + other.edges.len(),
        old(graph)@.consistent() && other@.consistent() ==> final(graph)@.consistent(),
        old(graph)@.consistent() && other@.consistent() ==> forall|i: int|
            0 <= i < other.nodes.len() ==> #[trigger] map@.nodes[i] == (
                i as usize,
                (old(graph).nodes.len() + i) as usize,
            ),
        old(graph)@.consistent() && other@.consistent() ==> forall|j: int|
            0 <= j < other.edges.len() ==> #[trigger] map@.edges[j] == (
                j as usize,
                (old(graph).edges.len() + j) as usize,
            ),
        forall|i: int|
            0 <= i < old(graph).nodes.len()
                ==> (#[trigger] final(graph)@.nodes[i]).id == old(graph)@.nodes[i].id,
        forall|j: int|
            0 <= j < old(graph).edges.len()
                ==> #[trigger] final(graph)@.edges[j] == old(graph)@.edges[j],
        forall|p: int|
            old(graph).edges.len() <= p < final(graph).edges.len()
                ==> #[trigger] final(graph)@.edges[p]
                == old(graph)@.merged_edge(other@, p - old(graph).edges.len()),
{
    let ghost start = graph@;
    let ghost src = other@;
    let mut merge_map = MergeMap { nodes: Vec::new(), edges: Vec::new() };
    let n = other.nodes.len();
    let mut i: usize = 0;
    while i < n
        invariant
            i <= n,
            n == other.nodes.len(),
            src == other@,
            start == old(graph)@,
            graph@ == start.add_nodes(i as nat),
            merge_map.nodes.len() == i,
            merge_map.edges.len() == 0,
            forall|k: int|
                0 <= k < i ==> (#[trigger] merge_map@.nodes[k]) == start.node_pairs(src)[k],
        decreases n - i,
    {
        let old_id = other.nodes[i].id;
        let new_id = graph.add_node();
        let pair = [old_id, new_id];
        let ghost before = merge_map@.nodes;
        merge_map.nodes.push(pair);
        assert(src.nodes[i as int].id == old_id);
        assert(pair[0] == old_id && pair[1] == new_id);
        assert(merge_map@.nodes =~= before.push((old_id, new_id)));
        i += 1;
    }
    assert(merge_map@.nodes =~= start.node_pairs(src));
    proof {
        start.lemma_add_nodes(n as nat);
        assert forall|k: int| 0 <= k < n implies (#[trigger] merge_map@.nodes[k]).1
            < graph.nodes.len() by {
            start.lemma_add_nodes(k as nat);
        }
    }
    let ghost grown = graph@;
    let ghost pairs = merge_map@.nodes;
    let m = other.edges.len();
    let mut j: usize = 0;
    while j < m
        invariant
            j <= m,
            m == other.edges.len(),
            n == other.nodes.len(),
            src == other@,
            src.endpoints_in_range(),
            start == old(graph)@,
            grown == start.add_nodes(n as nat),
            grown.edges == start.edges,
            pairs == start.node_pairs(src),
            merge_map@.nodes == pairs,
            merge_map.nodes.len() == n,
            graph@ == grown.import_edges(src, pairs, j as nat),
            graph.nodes.len() == grown.nodes.len(),
            graph.edges.len() == grown.edges.len() + j,
            forall|k: int| 0 <= k < n ==> (#[trigger] pairs[k]).1 < grown.nodes.len(),
            merge_map.edges.len() == j,
            forall|k: int|
                0 <= k < j ==> (#[trigger] merge_map@.edges[k]) == start.edge_pairs(src)[k],
        decreases m - j,
    {
        let edge = &other.edges[j];
        assert(other@.edges[j as int] == edge@);
        let first = edge.nodes[0];
        let second = edge.nodes[1];
        assert(merge_map@.nodes[first as int] == pairs[first as int]);
        assert(merge_map@.nodes[second as int] == pairs[second as int]);
        let node1 = merge_map.nodes[first][1];
        let node2 = merge_map.nodes[second][1];
        let new_edge = match edge.edge_type {
            EdgeType::Directed => graph.add_directed_edge(node1, node2),
            EdgeType::Undirected => graph.add_edge(node1, node2),
        };
        let pair = [edge.id, new_edge];
        let ghost before = merge_map@.edges;
        merge_map.edges.push(pair);
        assert(merge_map@.edges =~= before.push((edge.id, new_edge)));
        j += 1;
    }
    assert(merge_map@.edges =~= start.edge_pairs(src));
    proof {
        assert(start.nodes.len() == old(graph).nodes.len());
        assert(start.edges.len() == old(graph).edges.len());
        assert(src.nodes.len() == other.nodes.len());
        assert(src.edges.len() == other.edges.len());
        if start.consistent() && src.consistent() {
            lemma_merge_consistent(start, src);
        }
        grown.lemma_import_edges(src, pairs, m as nat);
        assert forall|p: int| start.edges.len() <= p < graph.edges.len() implies #[trigger] graph@.edges[p]
            == start.merged_edge(src, p - start.edges.len()) by {
            let j = p - start.edges.len();
            assert(graph@.edges[grown.edges.len() + j] == start.merged_edge(src, j));
        }
        assert(grown.nodes.take(start.nodes.len() as int) == start.nodes);
        assert forall|i: int| 0 <= i < start.nodes.len() implies (#[trigger] graph@.nodes[i]).id
            == start.nodes[i].id by {
            assert(grown.nodes.take(start.nodes.len() as int)[i] == grown.nodes[i]);
        }
    }
    merge_map
}

} // verus!
