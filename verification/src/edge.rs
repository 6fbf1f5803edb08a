//! Edges: an identified connection between two node ids.

use vstd::prelude::*;
use vstd::std_specs::cmp::PartialEqSpecImpl;

verus! {

/// Whether the two endpoints of an edge are ordered.
#[derive(Clone, Copy, Debug, PartialEq, Eq, Structural)]
pub enum EdgeType {
    Directed,
    Undirected,
}

/// A connection between two nodes.
///
/// For a directed edge `nodes[0]` is the source and `nodes[1]` the target.
#[derive(Clone, Copy, Debug)]
pub struct Edge {
    pub nodes: [usize; 2],
    pub id: usize,
    pub edge_type: EdgeType,
}

/// The mathematical value of an [`Edge`].
pub struct EdgeView {
    pub source: usize,
    pub target: usize,
    pub id: usize,
    pub edge_type: EdgeType,
}

impl EdgeView {
    /// `n` is one of the two endpoints.
    pub open spec fn touches(self, n: usize) -> bool {
        self.source == n || self.target == n
    }

    /// The two edges connect the same endpoints: in the same order, or, if
    /// either edge is undirected, in either order. Identifiers play no part.
    pub open spec fn same_connection(self, other: EdgeView) -> bool {
        ||| (self.source == other.source && self.target == other.target)
        ||| ((self.edge_type == EdgeType::Undirected || other.edge_type == EdgeType::Undirected)
            && self.source == other.target && self.target == other.source)
    }
}

/// Every edge connects what it connects, and two edges connect the same
/// endpoints whichever of them is asked.
pub proof fn lemma_same_connection(a: EdgeView, b: EdgeView)
    ensures
        a.same_connection(a),
        a.same_connection(b) == b.same_connection(a),
{
}

impl View for Edge {
    type V = EdgeView;

    open spec fn view(&self) -> EdgeView {
        EdgeView {
            source: self.nodes[0],
            target: self.nodes[1],
            id: self.id,
            edge_type: self.edge_type,
        }
    }
}

impl Edge {
    /// Builds an edge from its endpoints, identifier and kind.
    pub fn new(source: usize, target: usize, id: usize, edge_type: EdgeType) -> (e: Edge)
        ensures
            e@ == (EdgeView { source, target, id, edge_type }),
    {
        Edge { nodes: [source, target], id, edge_type }
    }

    /// Whether `n` is one of the two endpoints.
    pub fn touches(&self, n: usize) -> (r: bool)
        ensures
            r == self@.touches(n),
    {
        self.nodes[0] == n || self.nodes[1] == n
    }
}

impl PartialEq for Edge {
    fn eq(&self, other: &Edge) -> (r: bool) {
        let undirected = self.edge_type == EdgeType::Undirected
            || other.edge_type == EdgeType::Undirected;
        (self.nodes[0] == other.nodes[0] && self.nodes[1] == other.nodes[1])
            || (undirected && self.nodes[0] == other.nodes[1] && self.nodes[1] == other.nodes[0])
    }
}

impl PartialEqSpecImpl for Edge {
    open spec fn obeys_eq_spec() -> bool {
        true
    }

    open spec fn eq_spec(&self, other: &Edge) -> bool {
        self@.same_connection(other@)
    }
}

} // verus!
