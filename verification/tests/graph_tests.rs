use algo_exercises::graph::Graph;
use algo_exercises::graph::NodeNotInGraph;
use algo_exercises::graph::UndirectedGraph;
use std::collections::HashSet;

#[test]
fn test_add_edge() {
    let mut graph = UndirectedGraph::new();
    graph.add_edge(("a", "b", 5));
    graph.add_edge(("b", "c", 10));
    graph.add_edge(("c", "a", 7));

    let edges = graph.edges();
    let expected = vec![
        ("a", "b", 5),
        ("a", "c", 7),
        ("b", "a", 5),
        ("b", "c", 10),
        ("c", "b", 10),
        ("c", "a", 7),
    ];

    for &(from, to, weight) in &expected {
        assert!(
            edges.contains(&(from.to_string(), to.to_string(), weight)),
            "Missing edge: {} -> {} ({})",
            from,
            to,
            weight
        );
    }
    assert_eq!(edges.len(), expected.len());
}

#[test]
fn test_add_node() {
    let mut graph = UndirectedGraph::new();
    assert!(graph.add_node("x"));
    assert!(!graph.add_node("x")); // already exists
    assert!(graph.contains("x"));
    assert!(!graph.contains("y"));
}

#[test]
fn test_nodes() {
    let mut graph = UndirectedGraph::new();
    graph.add_edge(("p", "q", 1));
    let node_names = graph.nodes();
    let nodes: HashSet<&str> = node_names.iter().map(|s| s.as_str()).collect();
    assert_eq!(nodes, ["p", "q"].iter().copied().collect::<HashSet<_>>());
}

#[test]
fn test_empty_graph() {
    let graph = UndirectedGraph::new();
    assert!(graph.nodes().is_empty());
    assert!(graph.edges().is_empty());
    assert!(!graph.contains("a"));
}

#[test]
fn test_self_loop_recorded_twice() {
    let mut graph = UndirectedGraph::new();
    graph.add_edge(("a", "a", 3));
    let edges = graph.edges();
    assert_eq!(
        edges,
        vec![
            ("a".to_string(), "a".to_string(), 3),
            ("a".to_string(), "a".to_string(), 3),
        ]
    );
}

#[test]
fn test_add_edge_keeps_existing_nodes() {
    let mut graph = UndirectedGraph::new();
    assert!(graph.add_node("a"));
    graph.add_edge(("a", "b", 2));
    assert!(!graph.add_node("a"));
    assert!(!graph.add_node("b"));
    assert_eq!(graph.nodes(), vec!["a".to_string(), "b".to_string()]);
}

#[test]
fn test_node_not_in_graph_message() {
    let err = NodeNotInGraph;
    assert_eq!("accessing a node that is not in the graph", err.message());
}
