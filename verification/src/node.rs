//! Nodes: an identified vertex with its incidence list.

use vstd::prelude::*;

verus! {

/// A vertex and the ids of the edges registered on it.
///
/// A directed edge is registered on its source only, an undirected edge on
/// both endpoints.
#[derive(Clone, Debug, PartialEq)]
pub struct Node {
    pub edges: Vec<usize>,
    pub id: usize,
}

/// The mathematical value of a [`Node`].
pub struct NodeView {
    pub id: usize,
    pub edges: Seq<usize>,
}

impl View for Node {
    type V = NodeView;

    open spec fn view(&self) -> NodeView {
        NodeView { id: self.id, edges: self.edges@ }
    }
}

} // verus!
