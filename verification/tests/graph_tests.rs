use std::collections::HashMap;

use mixed_graph::{merge_graphs, Edge, EdgeType, Graph, MergeMap};

fn triangle() -> Graph {
    let mut graph = Graph::new();
    graph.add_node();
    graph.add_node();
    graph.add_node();
    graph.add_edge(0, 1);
    graph.add_edge(1, 2);
    graph.add_edge(2, 0);
    graph
}

#[test]
pub fn test_graph_creation() {
    let mut graph = Graph::new();
    for _ in 0..500 {
        graph.add_node();
    }
    for i in 0..500 {
        graph.add_edge(i, (i + 1) % 500);
    }
    assert_eq!(graph.nodes.len(), 500);
    assert_eq!(graph.edges.len(), 500);
    for i in 0..500 {
        assert_eq!(graph.nodes[i].edges.len(), 2);
    }
}

#[test]
pub fn test_node_removal() {
    let mut graph = Graph::new();
    let mut target_graph = Graph::new();

    graph.add_node();
    graph.add_node();
    graph.add_node();
    graph.add_edge(0, 1);
    graph.add_edge(1, 2);
    graph.add_edge(2, 0);

    target_graph.add_node();
    target_graph.add_node();
    target_graph.add_edge(0, 1);

    graph.remove_node(2);

    assert_eq!(graph, target_graph);
}

#[test]
pub fn test_edge_removal() {
    let mut graph = Graph::new();
    let mut target_graph = Graph::new();

    graph.add_node();
    graph.add_node();
    graph.add_node();
    graph.add_edge(0, 1);
    graph.add_edge(1, 2);
    graph.add_edge(2, 0);

    target_graph.add_node();
    target_graph.add_node();
    target_graph.add_node();
    target_graph.add_edge(0, 1);
    target_graph.add_edge(1, 2);

    graph.remove_edge(2);

    assert_eq!(graph, target_graph);
}

#[test]
pub fn test_remove_edge_between() {
    let mut graph = triangle();

    graph.remove_edge_between(1, 2);

    assert_eq!(graph.nodes.len(), 3);
    assert_eq!(graph.nodes[0].edges, vec![0, 2]);
    assert_eq!(graph.nodes[1].edges, vec![0]);
    assert_eq!(graph.nodes[2].edges, vec![2]);
    assert_eq!(graph.edges.len(), 2);
    assert_eq!(graph.edges[0].nodes, [0, 1]);
    assert_eq!(graph.edges[0].id, 0);
    assert_eq!(graph.edges[1].nodes, [2, 0]);
    assert_eq!(graph.edges[1].id, 2);
}

#[test]
pub fn test_get_node() {
    let mut graph = Graph::new();
    graph.add_node();
    graph.add_node();
    graph.add_node();
    assert_eq!(graph.get_node(0).unwrap().id, 0);
    assert_eq!(graph.get_node(1).unwrap().id, 1);
    assert_eq!(graph.get_node(2).unwrap().id, 2);
    assert_eq!(graph.get_node(3), None);
}

#[test]
pub fn test_get_edge() {
    let mut graph = Graph::new();
    graph.add_node();
    graph.add_node();
    graph.add_node();
    graph.add_edge(0, 1);
    graph.add_edge(1, 2);
    graph.add_edge(2, 0);
    assert_eq!(graph.get_edge(0).unwrap().id, 0);
    assert_eq!(graph.get_edge(1).unwrap().id, 1);
    assert_eq!(graph.get_edge(2).unwrap().id, 2);
    assert_eq!(graph.get_edge(3), None);
}

#[test]
pub fn test_get_edge_between() {
    let mut graph = Graph::new();
    graph.add_node();
    graph.add_node();
    graph.add_node();
    graph.add_edge(0, 1);
    graph.add_edge(1, 2);
    assert_eq!(graph.get_edge_between(0, 1).unwrap().id, 0);
    assert_eq!(graph.get_edge_between(1, 2).unwrap().id, 1);
    assert_eq!(graph.get_edge_between(2, 0), None);
}

#[test]
pub fn test_merge() {
    let mut graph = Graph::new();
    let mut other = Graph::new();

    graph.add_node();
    graph.add_node();
    graph.add_node();
    graph.add_edge(0, 1);
    graph.add_edge(1, 2);

    other.add_node();
    other.add_node();
    other.add_edge(0, 1);

    let mut target_graph = Graph::new();
    target_graph.add_node();
    target_graph.add_node();
    target_graph.add_node();
    target_graph.add_node();
    target_graph.add_node();
    target_graph.add_edge(0, 1);
    target_graph.add_edge(1, 2);
    target_graph.add_edge(3, 4);

    merge_graphs(&mut graph, &other);

    assert_eq!(graph, target_graph);
}

#[test]
pub fn test_merge_map() {
    let mut graph = Graph::new();
    let mut other = Graph::new();

    graph.add_node();
    graph.add_node();
    graph.add_node();
    graph.add_edge(0, 1);
    graph.add_edge(1, 2);

    other.add_node();
    other.add_node();
    other.add_edge(0, 1);

    let target_map = MergeMap {
        nodes: vec![[0, 3], [1, 4]],
        edges: vec![[0, 2]],
    };

    let map = merge_graphs(&mut graph, &other);

    assert_eq!(map, target_map);
    assert_eq!(graph.nodes.len(), 5);
    assert_eq!(graph.edges.len(), 3);
    assert_eq!(graph.edges[2].nodes, [3, 4]);
    assert_eq!(graph.edges[2].id, 2);
    assert_eq!(graph.nodes[3].edges, vec![2]);
    assert_eq!(graph.nodes[4].edges, vec![2]);
}

#[test]
pub fn test_merge_map_update() {
    let mut graph = Graph::new();
    let mut other = Graph::new();

    let mut names = HashMap::new();
    names.insert(graph.add_node(), "Alice");
    names.insert(graph.add_node(), "Bob");
    names.insert(graph.add_node(), "Charlie");

    let mut relationships = HashMap::new();
    relationships.insert(graph.add_edge(0, 1), "friends");
    relationships.insert(graph.add_edge(1, 2), "friends");

    let mut other_names = HashMap::new();
    other_names.insert(other.add_node(), "David");
    other_names.insert(other.add_node(), "Eve");

    let mut other_relationships = HashMap::new();
    other_relationships.insert(other.add_edge(0, 1), "enemies");

    let mut target_names = HashMap::new();
    target_names.insert(0, "Alice");
    target_names.insert(1, "Bob");
    target_names.insert(2, "Charlie");
    target_names.insert(3, "David");
    target_names.insert(4, "Eve");

    let mut target_relationships = HashMap::new();
    target_relationships.insert(0, "friends");
    target_relationships.insert(1, "friends");
    target_relationships.insert(2, "enemies");

    let map = merge_graphs(&mut graph, &other);

    for a in map.nodes {
        names.insert(a[1], other_names[&a[0]]);
    }

    for a in map.edges {
        relationships.insert(a[1], other_relationships[&a[0]]);
    }

    assert_eq!(names, target_names);
    assert_eq!(relationships, target_relationships);
}

#[test]
pub fn new_graph_is_empty() {
    let graph = Graph::new();
    assert_eq!(graph.nodes.len(), 0);
    assert_eq!(graph.edges.len(), 0);
    assert_eq!(graph.get_node(0), None);
    assert_eq!(graph.get_edge(0), None);
}

#[test]
pub fn add_node_returns_sequential_ids() {
    let mut graph = Graph::new();
    assert_eq!(graph.add_node(), 0);
    assert_eq!(graph.add_node(), 1);
    assert_eq!(graph.add_node(), 2);
    assert_eq!(graph.nodes[2].id, 2);
    assert!(graph.nodes[2].edges.is_empty());
}

#[test]
pub fn add_node_reuses_first_gap_but_appends() {
    let mut graph = Graph::new();
    graph.add_node();
    graph.add_node();
    graph.add_node();
    graph.remove_node(0);
    assert_eq!(graph.nodes.len(), 2);
    assert_eq!(graph.nodes[0].id, 1);
    assert_eq!(graph.nodes[1].id, 2);

    assert_eq!(graph.add_node(), 0);
    assert_eq!(graph.nodes.len(), 3);
    assert_eq!(graph.nodes[2].id, 0);
    assert_eq!(graph.get_node(0).unwrap().id, 1);

    assert_eq!(graph.add_node(), 0);
    assert_eq!(graph.nodes.len(), 4);
    assert_eq!(graph.nodes[3].id, 0);
}

#[test]
pub fn add_edge_registers_on_both_endpoints() {
    let mut graph = Graph::new();
    graph.add_node();
    graph.add_node();
    assert_eq!(graph.add_edge(0, 1), 0);
    assert_eq!(graph.add_edge(1, 0), 1);
    assert_eq!(graph.nodes[0].edges, vec![0, 1]);
    assert_eq!(graph.nodes[1].edges, vec![0, 1]);
    assert_eq!(graph.edges[0].nodes, [0, 1]);
    assert_eq!(graph.edges[1].nodes, [1, 0]);
    assert_eq!(graph.edges[0].edge_type, EdgeType::Undirected);
    assert_eq!(graph.edges[1].id, 1);
}

#[test]
pub fn add_edge_self_loop_is_registered_twice() {
    let mut graph = Graph::new();
    graph.add_node();
    assert_eq!(graph.add_edge(0, 0), 0);
    assert_eq!(graph.nodes[0].edges, vec![0, 0]);
    graph.remove_edge(0);
    assert!(graph.nodes[0].edges.is_empty());
    assert!(graph.edges.is_empty());
}

#[test]
pub fn add_directed_edge_registers_on_source_only() {
    let mut graph = Graph::new();
    graph.add_node();
    graph.add_node();
    assert_eq!(graph.add_directed_edge(0, 1), 0);
    assert_eq!(graph.nodes[0].edges, vec![0]);
    assert!(graph.nodes[1].edges.is_empty());
    assert_eq!(graph.edges[0].nodes, [0, 1]);
    assert_eq!(graph.edges[0].edge_type, EdgeType::Directed);
}

#[test]
pub fn directed_cycle_has_one_edge_per_node() {
    let mut graph = Graph::new();
    for _ in 0..500 {
        graph.add_node();
    }
    for i in 0..500 {
        graph.add_directed_edge(i, (i + 1) % 500);
    }
    assert_eq!(graph.nodes.len(), 500);
    assert_eq!(graph.edges.len(), 500);
    for i in 0..500 {
        assert_eq!(graph.nodes[i].edges, vec![i]);
        assert_eq!(graph.edges[i].edge_type, EdgeType::Directed);
        assert_eq!(graph.edges[i].nodes, [i, (i + 1) % 500]);
    }
}

#[test]
pub fn cycle_of_one_node_has_degree_two() {
    let mut graph = Graph::new();
    graph.add_node();
    graph.add_edge(0, 0 % 1);
    assert_eq!(graph.nodes[0].edges.len(), 2);
    assert_eq!(graph.edges.len(), 1);
}

#[test]
pub fn get_edge_between_ignores_direction_within_the_pair() {
    let mut graph = Graph::new();
    graph.add_node();
    graph.add_node();
    graph.add_directed_edge(0, 1);
    assert_eq!(graph.get_edge_between(0, 1).unwrap().id, 0);
    assert_eq!(graph.get_edge_between(0, 0).unwrap().id, 0);
    assert_eq!(graph.get_edge_between(1, 0), None);
}

#[test]
pub fn get_edge_between_returns_first_in_incidence_order() {
    let mut graph = Graph::new();
    graph.add_node();
    graph.add_node();
    graph.add_node();
    graph.add_edge(0, 2);
    graph.add_edge(0, 1);
    graph.add_edge(1, 0);
    let found = graph.get_edge_between(0, 1).unwrap();
    assert_eq!(found.id, 1);
    assert_eq!(found.nodes, [0, 1]);
}

#[test]
pub fn remove_edge_between_without_match_changes_nothing() {
    let mut graph = Graph::new();
    graph.add_node();
    graph.add_node();
    graph.add_node();
    graph.add_edge(0, 1);
    let before = graph.clone();
    graph.remove_edge_between(2, 0);
    assert_eq!(graph, before);
    assert_eq!(graph.nodes[0].edges, vec![0]);
    assert_eq!(graph.edges.len(), 1);
}

#[test]
pub fn remove_edge_keeps_later_ids() {
    let mut graph = triangle();
    graph.remove_edge(0);
    assert_eq!(graph.edges.len(), 2);
    assert_eq!(graph.edges[0].id, 1);
    assert_eq!(graph.edges[0].nodes, [1, 2]);
    assert_eq!(graph.edges[1].id, 2);
    assert_eq!(graph.nodes[0].edges, vec![2]);
    assert_eq!(graph.nodes[1].edges, vec![1]);
    assert_eq!(graph.nodes[2].edges, vec![1, 2]);
}

#[test]
pub fn remove_node_scrubs_incidence_lists() {
    let mut graph = triangle();
    graph.remove_node(2);
    assert_eq!(graph.nodes.len(), 2);
    assert_eq!(graph.nodes[0].id, 0);
    assert_eq!(graph.nodes[0].edges, vec![0]);
    assert_eq!(graph.nodes[1].edges, vec![0]);
    assert_eq!(graph.edges.len(), 1);
    assert_eq!(graph.edges[0].id, 0);
    assert_eq!(graph.edges[0].nodes, [0, 1]);
}

#[test]
pub fn remove_first_node_leaves_ids_untouched() {
    let mut graph = triangle();
    graph.remove_node(0);
    assert_eq!(graph.nodes.len(), 2);
    assert_eq!(graph.nodes[0].id, 1);
    assert_eq!(graph.nodes[1].id, 2);
    assert_eq!(graph.nodes[0].edges, vec![1]);
    assert_eq!(graph.nodes[1].edges, vec![1]);
    assert_eq!(graph.edges.len(), 1);
    assert_eq!(graph.edges[0].id, 1);
    assert_eq!(graph.edges[0].nodes, [1, 2]);
}

#[test]
pub fn merge_preserves_edge_type() {
    let mut graph = Graph::new();
    graph.add_node();
    let mut other = Graph::new();
    other.add_node();
    other.add_node();
    other.add_directed_edge(1, 0);
    other.add_edge(0, 1);

    let map = merge_graphs(&mut graph, &other);

    assert_eq!(map.nodes, vec![[0, 1], [1, 2]]);
    assert_eq!(map.edges, vec![[0, 0], [1, 1]]);
    assert_eq!(graph.edges[0].edge_type, EdgeType::Directed);
    assert_eq!(graph.edges[0].nodes, [2, 1]);
    assert_eq!(graph.edges[1].edge_type, EdgeType::Undirected);
    assert_eq!(graph.edges[1].nodes, [1, 2]);
    assert_eq!(graph.nodes[2].edges, vec![0, 1]);
    assert_eq!(graph.nodes[1].edges, vec![1]);
    assert!(graph.nodes[0].edges.is_empty());
    assert_eq!(other.nodes.len(), 2);
    assert_eq!(other.edges.len(), 2);
}

#[test]
pub fn merge_same_source_twice_duplicates() {
    let mut graph = Graph::new();
    let mut other = Graph::new();
    other.add_node();
    other.add_node();
    other.add_edge(0, 1);

    let first = merge_graphs(&mut graph, &other);
    let second = merge_graphs(&mut graph, &other);

    assert_eq!(first.nodes, vec![[0, 0], [1, 1]]);
    assert_eq!(second.nodes, vec![[0, 2], [1, 3]]);
    assert_eq!(second.edges, vec![[0, 1]]);
    assert_eq!(graph.nodes.len(), 4);
    assert_eq!(graph.edges.len(), 2);
    assert_eq!(graph.edges[1].nodes, [2, 3]);
}

#[test]
pub fn merge_empty_source_changes_nothing() {
    let mut graph = triangle();
    let before = graph.clone();
    let map = merge_graphs(&mut graph, &Graph::new());
    assert_eq!(graph, before);
    assert!(map.nodes.is_empty());
    assert!(map.edges.is_empty());
    assert_eq!(graph.nodes.len(), 3);
}

#[test]
pub fn edge_equality_follows_endpoints() {
    let directed = Edge::new(0, 1, 0, EdgeType::Directed);
    let directed_back = Edge::new(1, 0, 5, EdgeType::Directed);
    let undirected = Edge::new(0, 1, 7, EdgeType::Undirected);
    let undirected_back = Edge::new(1, 0, 9, EdgeType::Undirected);
    let elsewhere = Edge::new(0, 2, 0, EdgeType::Undirected);

    assert!(directed == Edge::new(0, 1, 3, EdgeType::Directed));
    assert!(directed != directed_back);
    assert!(directed == undirected);
    assert!(directed == undirected_back);
    assert!(undirected == undirected_back);
    assert!(undirected_back == directed);
    assert!(directed != elsewhere);
    assert!(undirected != elsewhere);
}

#[test]
pub fn edge_touches_its_endpoints_only() {
    let edge = Edge::new(3, 5, 0, EdgeType::Directed);
    assert!(edge.touches(3));
    assert!(edge.touches(5));
    assert!(!edge.touches(4));
    assert_eq!(edge.nodes, [3, 5]);
    assert_eq!(edge.id, 0);
}

#[test]
pub fn merge_into_graph_with_gap_reuses_the_gap_id() {
    let mut graph = Graph::new();
    graph.add_node();
    graph.add_node();
    graph.remove_node(0);
    assert_eq!(graph.nodes[0].id, 1);

    let mut other = Graph::new();
    other.add_node();
    other.add_node();
    other.add_edge(0, 1);

    let map = merge_graphs(&mut graph, &other);

    assert_eq!(map.nodes, vec![[0, 0], [1, 0]]);
    assert_eq!(map.edges, vec![[0, 0]]);
    assert_eq!(graph.nodes.len(), 3);
    assert_eq!(graph.nodes[1].id, 0);
    assert_eq!(graph.nodes[2].id, 0);
    assert_eq!(graph.edges[0].nodes, [0, 0]);
    assert_eq!(graph.nodes[0].edges, vec![0, 0]);
    assert!(graph.nodes[1].edges.is_empty());
}

#[test]
pub fn merge_keeps_source_ids_in_the_map() {
    let mut other = Graph::new();
    other.add_node();
    other.add_node();
    other.add_node();
    other.add_edge(0, 1);
    other.add_edge(1, 2);
    other.remove_edge(0);
    assert_eq!(other.edges[0].id, 1);
    assert_eq!(other.edges[0].nodes, [1, 2]);

    let mut graph = Graph::new();
    graph.add_node();
    let map = merge_graphs(&mut graph, &other);

    assert_eq!(map.nodes, vec![[0, 1], [1, 2], [2, 3]]);
    assert_eq!(map.edges, vec![[1, 0]]);
    assert_eq!(graph.edges[0].nodes, [2, 3]);
    assert_eq!(graph.edges[0].id, 0);
}

#[test]
pub fn default_graph_is_empty() {
    let graph = Graph::default();
    assert_eq!(graph, Graph::new());
    assert!(graph.nodes.is_empty());
    assert!(graph.edges.is_empty());
}

#[test]
pub fn remove_node_drops_directed_edges_in_both_directions() {
    let mut graph = Graph::new();
    graph.add_node();
    graph.add_node();
    graph.add_node();
    graph.add_directed_edge(0, 2);
    graph.add_directed_edge(2, 1);
    graph.add_directed_edge(0, 1);
    graph.remove_node(2);
    assert_eq!(graph.nodes.len(), 2);
    assert_eq!(graph.edges.len(), 1);
    assert_eq!(graph.edges[0].nodes, [0, 1]);
    assert_eq!(graph.edges[0].id, 2);
    assert_eq!(graph.edges[0].edge_type, EdgeType::Directed);
    assert_eq!(graph.nodes[0].edges, vec![2]);
    assert!(graph.nodes[1].edges.is_empty());
}

#[test]
pub fn removing_the_last_added_edge_restores_the_graph() {
    let mut graph = triangle();
    let before = graph.clone();
    let id = graph.add_directed_edge(1, 0);
    assert_eq!(id, 3);
    graph.remove_edge(id);
    assert_eq!(graph, before);
    assert_eq!(graph.nodes[1].edges, vec![0, 1]);

    let id = graph.add_edge(2, 2);
    graph.remove_edge(id);
    assert_eq!(graph, before);
    assert_eq!(graph.nodes[2].edges, vec![1, 2]);
}

#[test]
pub fn removing_the_last_added_node_restores_the_graph() {
    let mut graph = triangle();
    let before = graph.clone();
    let id = graph.add_node();
    assert_eq!(id, 3);
    graph.remove_node(id);
    assert_eq!(graph, before);
    assert_eq!(graph.nodes.len(), 3);
    assert_eq!(graph.edges.len(), 3);
}
