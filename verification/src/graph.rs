//! The graph container and its operations.

use vstd::prelude::*;
use crate::edge::{Edge, EdgeType};
use crate::filter::{edge_views, edges_clear_of, without_edges_at, without_id};
use crate::laws::{lemma_add_edge_consistent, lemma_add_node_consistent, lemma_empty_consistent};
use crate::model::{clear_of, scrubbed, untouched_by, GraphView};
use crate::node::Node;

verus! {

/// A graph: nodes and edges, each held in a dense collection.
#[derive(Clone, Debug, PartialEq)]
pub struct Graph {
    pub nodes: Vec<Node>,
    pub edges: Vec<Edge>,
}

impl View for Graph {
    type V = GraphView;

    open spec fn view(&self) -> GraphView {
        GraphView {
            nodes: self.nodes@.map_values(|n: Node| n@),
            edges: edge_views(self.edges@),
        }
    }
}

impl Graph {
    /// An empty graph.
    pub fn new() -> (g: Graph)
        ensures
            g@ == GraphView::empty(),
            g@.consistent(),
    {
        proof {
            lemma_empty_consistent();
        }
        let g = Graph { nodes: Vec::new(), edges: Vec::new() };
        assert(g@.nodes =~= GraphView::empty().nodes);
        assert(g@.edges =~= GraphView::empty().edges);
        g
    }

    /// Adds a node and returns its id: the first position whose node does not
    /// carry that position as its id, or the number of nodes if there is none.
    /// The node is appended at the end whichever id it gets.
    pub fn add_node(&mut self) -> (id: usize)
        ensures
            final(self)@ == old(self)@.add_node(),
            id == old(self)@.next_node_id(),
            final(self).nodes.len() == old(self).nodes.len() + 1,
            final(self).edges == old(self).edges,
            id <= old(self).nodes.len(),
            forall|j: int| 0 <= j < id ==> old(self).nodes[j].id == j,
            id < old(self).nodes.len() ==> old(self).nodes[id as int].id != id,
            old(self)@.consistent() ==> final(self)@.consistent() && id == old(self).nodes.len(),
    {
        proof {
            if self@.consistent() {
                assert(self@.nodes.len() == self.nodes.len());
                lemma_add_node_consistent(self@);
            }
        }
        let n = self.nodes.len();
        let mut i: usize = 0;
        while i < n && self.nodes[i].id == i
            invariant
                n == self.nodes.len(),
                *self == *old(self),
                i <= n,
                forall|j: int| 0 <= j < i ==> self.nodes[j].id == j,
                self@.next_node_id() == self@.first_gap_from(i as int),
            decreases n - i,
        {
            i += 1;
        }
        self.nodes.push(Node { edges: Vec::new(), id: i });
        assert(self@.nodes =~= old(self)@.add_node().nodes);
        assert(self@.edges =~= old(self)@.add_node().edges);
        i
    }

    /// Adds an undirected edge between two nodes of the graph and returns its
    /// id, the number of edges so far. The id is registered on both nodes.
    pub fn add_edge(&mut self, node1: usize, node2: usize) -> (id: usize)
        requires
            node1 < old(self).nodes.len(),
            node2 < old(self).nodes.len(),
        ensures
            final(self)@ == old(self)@.add_edge(node1, node2),
            id == old(self).edges.len(),
            final(self).nodes.len() == old(self).nodes.len(),
            final(self).edges.len() == old(self).edges.len() + 1,
            old(self)@.consistent() ==> final(self)@.consistent(),
    {
        proof {
            if self@.consistent() {
                assert(self@.edges.len() == self.edges.len());
                lemma_add_edge_consistent(self@, EdgeType::Undirected, node1, node2);
            }
        }
        let id = self.edges.len();
        self.edges.push(Edge::new(node1, node2, id, EdgeType::Undirected));
        self.nodes[node1].edges.push(id);
        self.nodes[node2].edges.push(id);
        assert(self@.nodes =~~= old(self)@.add_edge(node1, node2).nodes);
        assert(self@.edges =~~= old(self)@.add_edge(node1, node2).edges);
        id
    }

    /// Adds a directed edge from `node1` to `node2` and returns its id, the
    /// number of edges so far. The id is registered on `node1` only.
    pub fn add_directed_edge(&mut self, node1: usize, node2: usize) -> (id: usize)
        requires
            node1 < old(self).nodes.len(),
            node2 < old(self).nodes.len(),
        ensures
            final(self)@ == old(self)@.add_directed_edge(node1, node2),
            id == old(self).edges.len(),
            final(self).nodes.len() == old(self).nodes.len(),
            final(self).edges.len() == old(self).edges.len() + 1,
            old(self)@.consistent() ==> final(self)@.consistent(),
    {
        proof {
            if self@.consistent() {
                assert(self@.edges.len() == self.edges.len());
                lemma_add_edge_consistent(self@, EdgeType::Directed, node1, node2);
            }
        }
        let id = self.edges.len();
        self.edges.push(Edge::new(node1, node2, id, EdgeType::Directed));
        self.nodes[node1].edges.push(id);
        assert(self@.nodes =~~= old(self)@.add_directed_edge(node1, node2).nodes);
        assert(self@.edges =~~= old(self)@.add_directed_edge(node1, node2).edges);
        id
    }

    /// The node at position `id`, if the graph has that position.
    pub fn get_node(&self, id: usize) -> (r: Option<&Node>)
        ensures
            id < self.nodes.len() ==> r == Some(&self.nodes[id as int]),
            id >= self.nodes.len() ==> r.is_none(),
    {
        if id < self.nodes.len() {
            Some(&self.nodes[id])
        } else {
            None
        }
    }

    /// The edge at position `id`, if the graph has that position.
    pub fn get_edge(&self, id: usize) -> (r: Option<&Edge>)
        ensures
            id < self.edges.len() ==> r == Some(&self.edges[id as int]),
            id >= self.edges.len() ==> r.is_none(),
    {
        if id < self.edges.len() {
            Some(&self.edges[id])
        } else {
            None
        }
    }

    /// The first edge registered on `node1` that has `node2` as an endpoint.
    pub fn get_edge_between(&self, node1: usize, node2: usize) -> (r: Option<&Edge>)
        requires
            self@.lookup_defined(node1, node2),
        ensures
            match self@.edge_between(node1, node2) {
                Some(e) => e < self.edges.len() && r == Some(&self.edges[e as int]),
                None => r.is_none(),
            },
            r matches Some(edge) ==> edge@.touches(node2),
    {
        match self.find_edge_between(node1, node2) {
            Some(e) => Some(&self.edges[e]),
            None => None,
        }
    }

    /// The id of the first edge registered on `node1` that has `node2` as an
    /// endpoint.
    fn find_edge_between(&self, node1: usize, node2: usize) -> (r: Option<usize>)
        requires
            self@.lookup_defined(node1, node2),
        ensures
            r == self@.edge_between(node1, node2),
            r matches Some(e) ==> self@.hits(e, node2),
    {
        let list = &self.nodes[node1].edges;
        let mut k: usize = 0;
        while k < list.len()
            invariant
                k <= list.len(),
                list@ == self@.nodes[node1 as int].edges,
                self@.scan_defined(list@, node2, k as int),
                self@.first_hit(list@, node2, 0) == self@.first_hit(list@, node2, k as int),
            decreases list.len() - k,
        {
            let e = list[k];
            if self.edges[e].touches(node2) {
                return Some(e);
            }
            k += 1;
        }
        None
    }

    /// Removes the node at position `id` and every edge that has `id` as an
    /// endpoint, and takes the ids of those edges out of every incidence list.
    /// What stays keeps its order and its id.
    pub fn remove_node(&mut self, id: usize)
        requires
            old(self)@.node_removal_defined(id),
        ensures
            final(self)@ == old(self)@.remove_node(id),
            final(self).nodes.len() == old(self).nodes.len() - 1,
            final(self).edges.len() <= old(self).edges.len(),
            forall|e: int|
                0 <= e < final(self).edges.len() ==> !(#[trigger] final(self)@.edges[e]).touches(id),
            forall|i: int, k: int|
                0 <= i < final(self).nodes.len() && 0 <= k < final(self)@.nodes[i].edges.len()
                    ==> !old(self)@.hits(#[trigger] final(self)@.nodes[i].edges[k], id),
    {
        self.nodes.remove(id);
        let ghost rest = old(self)@.nodes.remove(id as int);
        let ghost keep = clear_of(old(self)@.edges, id);
        let n = self.nodes.len();
        assert(self@.nodes =~= rest);
        let mut p: usize = 0;
        while p < n
            invariant
                p <= n,
                n == self.nodes.len(),
                n == rest.len(),
                self.edges == old(self).edges,
                rest == old(self)@.nodes.remove(id as int),
                keep == clear_of(old(self)@.edges, id),
                old(self)@.node_removal_defined(id),
                forall|j: int| 0 <= j < p ==> (#[trigger] self.nodes[j])@ == scrubbed(keep)(rest[j]),
                forall|j: int| p <= j < n ==> (#[trigger] self.nodes[j])@ == rest[j],
            decreases n - p,
        {
            proof {
                let i: int = if p < id { p as int } else { p + 1 };
                assert(rest[p as int] == old(self)@.nodes[i]);
                assert forall|k: int| 0 <= k < self.nodes[p as int].edges.len() implies
                    self.nodes[p as int].edges[k] < self.edges.len() by {
                    assert(old(self)@.nodes[i].edges[k] < old(self)@.edges.len());
                }
            }
            let kept = without_edges_at(&self.nodes[p].edges, &self.edges, id);
            self.nodes[p].edges = kept;
            p += 1;
        }
        self.edges = edges_clear_of(&self.edges, id);
        assert(self@.nodes =~= old(self)@.remove_node(id).nodes);
        proof {
            let before = old(self)@.edges;
            before.lemma_filter_len(untouched_by(id));
            assert(self@.edges.len() == self.edges.len());
            assert(before.len() == old(self).edges.len());
            let start = old(self)@;
            assert forall|i: int, k: int|
                0 <= i < self.nodes.len() && 0 <= k < self@.nodes[i].edges.len() implies !start.hits(
                #[trigger] self@.nodes[i].edges[k],
                id,
            ) by {
                rest[i].edges.lemma_filter_pred(keep, k);
            }
            assert forall|e: int| 0 <= e < self.edges.len() implies !(#[trigger] self@.edges[e])
                .touches(id) by {
                before.lemma_filter_pred(untouched_by(id), e);
            }
        }
    }

    /// Removes the edge at position `id`: its id leaves the incidence lists of
    /// the nodes at the positions of its endpoints, and the edges behind it
    /// move down by one position, keeping their ids.
    pub fn remove_edge(&mut self, id: usize)
        requires
            old(self)@.edge_removal_defined(id),
        ensures
            final(self)@ == old(self)@.remove_edge(id),
            final(self).nodes.len() == old(self).nodes.len(),
            final(self).edges.len() == old(self).edges.len() - 1,
    {
        let edge = self.edges[id];
        let first = edge.nodes[0];
        let second = edge.nodes[1];
        let kept = without_id(&self.nodes[first].edges, id);
        self.nodes[first].edges = kept;
        let kept = without_id(&self.nodes[second].edges, id);
        self.nodes[second].edges = kept;
        self.edges.remove(id);
        assert(self@.nodes =~~= old(self)@.remove_edge(id).nodes);
        assert(self@.edges =~~= old(self)@.remove_edge(id).edges);
    }

    /// Removes the first edge registered on `node1` that has `node2` as an
    /// endpoint. Without such an edge the graph stays as it is.
    pub fn remove_edge_between(&mut self, node1: usize, node2: usize)
        requires
            old(self)@.lookup_defined(node1, node2),
            old(self)@.edge_between(node1, node2) matches Some(e) ==> old(self)@.edge_removal_defined(e),
        ensures
            final(self)@ == old(self)@.remove_edge_between(node1, node2),
            final(self).nodes.len() == old(self).nodes.len(),
            old(self)@.edge_between(node1, node2).is_none()
                ==> final(self).edges.len() == old(self).edges.len(),
            old(self)@.edge_between(node1, node2).is_some()
                ==> final(self).edges.len() == old(self).edges.len() - 1,
    {
        match self.find_edge_between(node1, node2) {
            Some(e) => self.remove_edge(e),
            None => {},
        }
    }
}

impl Default for Graph {
    /// An empty graph.
    fn default() -> (g: Graph)
        ensures
            g@ == GraphView::empty(),
            g@.consistent(),
    {
        Graph::new()
    }
}

} // verus!
