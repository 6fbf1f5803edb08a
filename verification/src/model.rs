//! The mathematical model of a graph and of each operation on it.

use vstd::prelude::*;
use crate::edge::{EdgeType, EdgeView};
use crate::node::NodeView;

verus! {

/// Holds of every id but `e`.
pub open spec fn other_than(e: usize) -> spec_fn(usize) -> bool {
    |x: usize| x != e
}

/// Holds of every id but the positions of the edges with `n` as an endpoint.
pub open spec fn clear_of(edges: Seq<EdgeView>, n: usize) -> spec_fn(usize) -> bool {
    |e: usize| !(e < edges.len() && edges[e as int].touches(n))
}

/// Holds of every edge that does not have `n` as an endpoint.
pub open spec fn untouched_by(n: usize) -> spec_fn(EdgeView) -> bool {
    |e: EdgeView| !e.touches(n)
}

/// The node with the same id and only the edge ids of which `keep` holds.
pub open spec fn scrubbed(keep: spec_fn(usize) -> bool) -> spec_fn(NodeView) -> NodeView {
    |node: NodeView| NodeView { id: node.id, edges: node.edges.filter(keep) }
}

/// The mathematical value of a graph: its nodes and its edges, by position.
pub struct GraphView {
    pub nodes: Seq<NodeView>,
    pub edges: Seq<EdgeView>,
}

impl GraphView {
    /// The graph without nodes and edges.
    pub open spec fn empty() -> GraphView {
        GraphView { nodes: Seq::empty(), edges: Seq::empty() }
    }

    /// The first position at or after `from` whose node does not carry that
    /// position as its id; the number of nodes if there is none.
    pub open spec fn first_gap_from(self, from: int) -> int
        decreases self.nodes.len() - from,
    {
        if from < 0 || from >= self.nodes.len() {
            self.nodes.len() as int
        } else if self.nodes[from].id != from {
            from
        } else {
            self.first_gap_from(from + 1)
        }
    }

    /// The id that the next new node gets.
    pub open spec fn next_node_id(self) -> int {
        self.first_gap_from(0)
    }

    /// A new node with the next id and no edges, appended at the end.
    pub open spec fn add_node(self) -> GraphView {
        GraphView {
            nodes: self.nodes.push(
                NodeView { id: self.next_node_id() as usize, edges: Seq::empty() },
            ),
            edges: self.edges,
        }
    }

    /// Edge id `e` appended to the incidence list of the node at position `n`.
    pub open spec fn attach(self, n: int, e: usize) -> GraphView {
        GraphView {
            nodes: self.nodes.update(
                n,
                NodeView { id: self.nodes[n].id, edges: self.nodes[n].edges.push(e) },
            ),
            edges: self.edges,
        }
    }

    /// A new edge of the given kind appended at the end, with the number of
    /// edges so far as its id, and registered on no node yet.
    pub open spec fn push_edge(self, n1: usize, n2: usize, edge_type: EdgeType) -> GraphView {
        GraphView {
            nodes: self.nodes,
            edges: self.edges.push(
                EdgeView { source: n1, target: n2, id: self.edges.len() as usize, edge_type },
            ),
        }
    }

    /// A new undirected edge, registered on both endpoints, first on `n1`.
    pub open spec fn add_edge(self, n1: usize, n2: usize) -> GraphView {
        let id = self.edges.len() as usize;
        self.push_edge(n1, n2, EdgeType::Undirected).attach(n1 as int, id).attach(n2 as int, id)
    }

    /// A new directed edge from `n1` to `n2`, registered on `n1` only.
    pub open spec fn add_directed_edge(self, n1: usize, n2: usize) -> GraphView {
        let id = self.edges.len() as usize;
        self.push_edge(n1, n2, EdgeType::Directed).attach(n1 as int, id)
    }

    /// `e` is the position of an edge, and that edge has `n` as an endpoint.
    pub open spec fn hits(self, e: usize, n: usize) -> bool {
        e < self.edges.len() && self.edges[e as int].touches(n)
    }

    /// Walking `list` from position `from`, an edge that has `n` as an
    /// endpoint is reached, or the end of the list, before any id that is the
    /// position of no edge.
    pub open spec fn scan_defined(self, list: Seq<usize>, n: usize, from: int) -> bool
        decreases list.len() - from,
    {
        if from < 0 || from >= list.len() {
            true
        } else {
            list[from] < self.edges.len() && (self.edges[list[from] as int].touches(n)
                || self.scan_defined(list, n, from + 1))
        }
    }

    /// The first edge id in `list`, at or after position `from`, whose edge
    /// has `n` as an endpoint.
    pub open spec fn first_hit(self, list: Seq<usize>, n: usize, from: int) -> Option<usize>
        decreases list.len() - from,
    {
        if from < 0 || from >= list.len() {
            None
        } else if self.hits(list[from], n) {
            Some(list[from])
        } else {
            self.first_hit(list, n, from + 1)
        }
    }

    /// The id of the first edge registered on `n1` that has `n2` as an
    /// endpoint. The direction of the edge is not looked at.
    pub open spec fn edge_between(self, n1: usize, n2: usize) -> Option<usize> {
        self.first_hit(self.nodes[n1 as int].edges, n2, 0)
    }

    /// Every occurrence of edge id `e` taken out of the incidence list of the
    /// node at position `n`.
    pub open spec fn detach(self, n: int, e: usize) -> GraphView {
        GraphView {
            nodes: self.nodes.update(n, scrubbed(other_than(e))(self.nodes[n])),
            edges: self.edges,
        }
    }

    /// `id` is the position of an edge whose endpoints are positions of nodes.
    pub open spec fn edge_removal_defined(self, id: usize) -> bool {
        &&& id < self.edges.len()
        &&& self.edges[id as int].source < self.nodes.len()
        &&& self.edges[id as int].target < self.nodes.len()
    }

    /// The edge at position `id` removed: its id is taken out of the incidence
    /// lists of the nodes at the positions of its two endpoints, and the edges
    /// behind it move down by one position, keeping their ids.
    pub open spec fn remove_edge(self, id: usize) -> GraphView {
        let e = self.edges[id as int];
        GraphView {
            nodes: self.detach(e.source as int, id).detach(e.target as int, id).nodes,
            edges: self.edges.remove(id as int),
        }
    }

    /// The first edge registered on `n1` that has `n2` as an endpoint removed,
    /// if there is one.
    pub open spec fn remove_edge_between(self, n1: usize, n2: usize) -> GraphView {
        match self.edge_between(n1, n2) {
            Some(e) => self.remove_edge(e),
            None => self,
        }
    }

    /// `id` is the position of a node, and every edge id registered on
    /// another node is the position of an edge.
    pub open spec fn node_removal_defined(self, id: usize) -> bool {
        &&& id < self.nodes.len()
        &&& forall|i: int, k: int|
            0 <= i < self.nodes.len() && i != id && 0 <= k < self.nodes[i].edges.len()
                ==> #[trigger] self.nodes[i].edges[k] < self.edges.len()
    }

    /// The node at position `id` removed, with every edge that has `id` as an
    /// endpoint: the nodes behind it move down by one position, keeping their
    /// ids; the remaining incidence lists lose the ids of those edges; the
    /// remaining edges keep their order and their ids.
    pub open spec fn remove_node(self, id: usize) -> GraphView {
        GraphView {
            nodes: self.nodes.remove(id as int).map_values(scrubbed(clear_of(self.edges, id))),
            edges: self.edges.filter(untouched_by(id)),
        }
    }

    /// Looking for an edge between `n1` and `n2` reads no position that the
    /// graph does not have.
    pub open spec fn lookup_defined(self, n1: usize, n2: usize) -> bool {
        n1 < self.nodes.len() && self.scan_defined(self.nodes[n1 as int].edges, n2, 0)
    }

    /// Every edge id in every incidence list is the position of an edge.
    pub open spec fn incidence_in_range(self) -> bool {
        forall|i: int, k: int|
            0 <= i < self.nodes.len() && 0 <= k < self.nodes[i].edges.len()
                ==> #[trigger] self.nodes[i].edges[k] < self.edges.len()
    }

    /// Every node and every edge carries its position as its id, and every
    /// reference to a node or an edge is the position of one.
    pub open spec fn consistent(self) -> bool {
        &&& forall|i: int| 0 <= i < self.nodes.len() ==> (#[trigger] self.nodes[i]).id == i
        &&& forall|j: int| 0 <= j < self.edges.len() ==> (#[trigger] self.edges[j]).id == j
        &&& self.endpoints_in_range()
        &&& self.incidence_in_range()
    }

    /// How many edge ids the node at position `i` carries when the first `k`
    /// edges of a cycle over `n` nodes have been added to nodes without
    /// edges: one for the edge that leaves it, and, where the edges are
    /// undirected, one for the edge that reaches it.
    pub open spec fn cycle_degree(n: nat, k: nat, i: int, edge_type: EdgeType) -> int {
        let leaving: int = if i < k { 1 } else { 0 };
        let reaching: int = if 1 <= i <= k { 1 } else { 0 };
        let closing: int = if i == 0 && k == n && n > 0 { 1 } else { 0 };
        match edge_type {
            EdgeType::Directed => leaving,
            EdgeType::Undirected => leaving + reaching + closing,
        }
    }

    /// The first `k` edges of a cycle over the first `n` nodes: edge `i` leads
    /// from node `i` to its successor, the last one back to node 0.
    pub open spec fn add_cycle_edges(self, n: nat, k: nat, edge_type: EdgeType) -> GraphView
        decreases k,
    {
        if k == 0 || n == 0 {
            self
        } else {
            self.add_cycle_edges(n, (k - 1) as nat, edge_type).add_edge_of(
                edge_type,
                (k - 1) as usize,
                (k % n) as usize,
            )
        }
    }

    /// The cycle of `n` nodes, built from the empty graph.
    pub open spec fn cycle(n: nat, edge_type: EdgeType) -> GraphView {
        GraphView::empty().add_nodes(n).add_cycle_edges(n, n, edge_type)
    }

    /// `k` new nodes, added one after the other.
    pub open spec fn add_nodes(self, k: nat) -> GraphView
        decreases k,
    {
        if k == 0 {
            self
        } else {
            self.add_nodes((k - 1) as nat).add_node()
        }
    }

    /// For each node of `src`, in order: its id, and the id that a copy of it
    /// gets in this graph when the nodes before it have been copied.
    pub open spec fn node_pairs(self, src: GraphView) -> Seq<(usize, usize)> {
        Seq::new(
            src.nodes.len(),
            |i: int| (src.nodes[i].id, self.add_nodes(i as nat).next_node_id() as usize),
        )
    }

    /// A new edge of the given kind between `n1` and `n2`.
    pub open spec fn add_edge_of(self, edge_type: EdgeType, n1: usize, n2: usize) -> GraphView {
        match edge_type {
            EdgeType::Directed => self.add_directed_edge(n1, n2),
            EdgeType::Undirected => self.add_edge(n1, n2),
        }
    }

    /// Copies of the first `k` edges of `src`, added one after the other, each
    /// between the new ids that `pairs` gives for its endpoints.
    pub open spec fn import_edges(self, src: GraphView, pairs: Seq<(usize, usize)>, k: nat)
        -> GraphView
        decreases k,
    {
        if k == 0 {
            self
        } else {
            let e = src.edges[k - 1];
            self.import_edges(src, pairs, (k - 1) as nat).add_edge_of(
                e.edge_type,
                pairs[e.source as int].1,
                pairs[e.target as int].1,
            )
        }
    }

    /// For each edge of `src`, in order: its id, and the id of its copy in
    /// this graph.
    pub open spec fn edge_pairs(self, src: GraphView) -> Seq<(usize, usize)> {
        Seq::new(src.edges.len(), |j: int| (src.edges[j].id, (self.edges.len() + j) as usize))
    }

    /// Every endpoint of every edge is the position of a node.
    pub open spec fn endpoints_in_range(self) -> bool {
        forall|j: int|
            0 <= j < self.edges.len() ==> (#[trigger] self.edges[j]).source < self.nodes.len()
                && self.edges[j].target < self.nodes.len()
    }

    /// This graph after every node of `src`, then every edge of `src`, has
    /// been copied into it.
    pub open spec fn merge(self, src: GraphView) -> GraphView {
        self.add_nodes(src.nodes.len()).import_edges(src, self.node_pairs(src), src.edges.len())
    }

    /// The copy of edge `j` of `src` that a merge adds to this graph.
    pub open spec fn merged_edge(self, src: GraphView, j: int) -> EdgeView {
        let e = src.edges[j];
        let pairs = self.node_pairs(src);
        EdgeView {
            source: pairs[e.source as int].1,
            target: pairs[e.target as int].1,
            id: (self.edges.len() + j) as usize,
            edge_type: e.edge_type,
        }
    }

    /// Adding nodes leaves the edges and the nodes that were there as they
    /// are, and every new id is at most the position it is stored at.
    pub proof fn lemma_add_nodes(self, k: nat)
        ensures
            self.add_nodes(k).edges == self.edges,
            self.add_nodes(k).nodes.len() == self.nodes.len() + k,
            self.add_nodes(k).nodes.take(self.nodes.len() as int) == self.nodes,
            0 <= self.add_nodes(k).next_node_id() <= self.nodes.len() + k,
        decreases k,
    {
        if k > 0 {
            let g = self.add_nodes((k - 1) as nat);
            self.lemma_add_nodes((k - 1) as nat);
            g.add_node().lemma_gap_bounds(0);
            assert(g.add_node().nodes.take(self.nodes.len() as int) =~= g.nodes.take(
                self.nodes.len() as int,
            ));
        } else {
            self.lemma_gap_bounds(0);
            assert(self.nodes.take(self.nodes.len() as int) =~= self.nodes);
        }
    }

    /// The first gap lies between the start of the search and the end.
    pub proof fn lemma_gap_bounds(self, from: int)
        requires
            0 <= from <= self.nodes.len(),
        ensures
            from <= self.first_gap_from(from) <= self.nodes.len(),
        decreases self.nodes.len() - from,
    {
        if from < self.nodes.len() && self.nodes[from].id == from {
            self.lemma_gap_bounds(from + 1);
        }
    }

    /// Copying edges leaves the number of nodes, their ids and the edges that
    /// were there as they are, and appends one edge per copied edge.
    pub proof fn lemma_import_edges(self, src: GraphView, pairs: Seq<(usize, usize)>, k: nat)
        requires
            k <= src.edges.len(),
            src.endpoints_in_range(),
            pairs.len() == src.nodes.len(),
            forall|i: int| 0 <= i < pairs.len() ==> (#[trigger] pairs[i]).1 < self.nodes.len(),
        ensures
            self.import_edges(src, pairs, k).nodes.len() == self.nodes.len(),
            self.import_edges(src, pairs, k).edges.len() == self.edges.len() + k,
            forall|i: int|
                0 <= i < self.nodes.len() ==> (#[trigger] self.import_edges(
                    src,
                    pairs,
                    k,
                ).nodes[i]).id == self.nodes[i].id,
            forall|j: int|
                0 <= j < self.edges.len() ==> #[trigger] self.import_edges(src, pairs, k).edges[j]
                    == self.edges[j],
            forall|j: int|
                0 <= j < k ==> #[trigger] self.import_edges(src, pairs, k).edges[self.edges.len()
                    + j] == (EdgeView {
                    source: pairs[src.edges[j].source as int].1,
                    target: pairs[src.edges[j].target as int].1,
                    id: (self.edges.len() + j) as usize,
                    edge_type: src.edges[j].edge_type,
                }),
        decreases k,
    {
        if k > 0 {
            self.lemma_import_edges(src, pairs, (k - 1) as nat);
            let e = src.edges[k - 1];
            assert(pairs[e.source as int].1 < self.nodes.len());
            assert(pairs[e.target as int].1 < self.nodes.len());
        }
    }
}

} // verus!
