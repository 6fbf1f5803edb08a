//! An in-memory graph container with mixed directed and undirected edges.
//!
//! Nodes and edges carry integer identifiers that are meant to double as
//! positions in the owning collection. Every operation is specified over a
//! mathematical model of the graph, [`model::GraphView`].

pub mod edge;
pub mod filter;
pub mod node;
pub mod model;
pub mod graph;
pub mod mapping;
pub mod laws;
pub mod merge;

pub use edge::{Edge, EdgeType};
pub use graph::Graph;
pub use mapping::{AttributeMap, MapType};
pub use merge::{merge_graphs, MergeMap};
pub use node::Node;
