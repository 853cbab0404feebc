use getpanics::graph::Graph;
use getpanics::graphviz::{construct_filename, decimal_string, format_to_graphviz};
use getpanics::order::{nodes_by_identity, precedes};

fn sample() -> Graph {
    let mut graph = Graph::new("demo".to_string());
    let main = graph.get_or_insert("main".to_string());
    graph.connect(main, "helper".to_string());
    let helper = graph.get_or_insert("helper".to_string());
    graph.connect(helper, "main".to_string());
    graph
}

#[test]
fn new_graph_is_empty() {
    let graph = Graph::new("demo".to_string());
    assert_eq!(graph.node_count(), 0);
    assert_eq!(graph.name(), "demo");
    assert_eq!(graph.lookup(&"main".to_string()), None);
}

#[test]
fn get_or_insert_numbers_nodes_in_first_seen_order() {
    let mut graph = Graph::new("demo".to_string());
    assert_eq!(graph.get_or_insert("b".to_string()), 0);
    assert_eq!(graph.get_or_insert("a".to_string()), 1);
    assert_eq!(graph.get_or_insert("c".to_string()), 2);
    assert_eq!(graph.node_count(), 3);
    assert_eq!(graph.label(0), "b");
    assert_eq!(graph.label(1), "a");
    assert_eq!(graph.label(2), "c");
}

#[test]
fn get_or_insert_gives_the_same_index_for_the_same_identity() {
    let mut graph = Graph::new("demo".to_string());
    let first = graph.get_or_insert("m::f".to_string());
    graph.get_or_insert("other".to_string());
    let second = graph.get_or_insert("m::f".to_string());
    assert_eq!(first, second);
    assert_eq!(graph.node_count(), 2);
    assert_eq!(graph.lookup(&"m::f".to_string()), Some(first));
}

#[test]
fn insert_appends_a_node_without_callees() {
    let mut graph = Graph::new("demo".to_string());
    assert_eq!(graph.insert("a".to_string()), 0);
    assert_eq!(graph.insert("b".to_string()), 1);
    assert_eq!(graph.node_count(), 2);
    assert!(!graph.has_edge(0, 0));
    assert!(!graph.has_edge(0, 1));
    assert!(!graph.has_edge(1, 0));
    assert!(!graph.has_edge(1, 1));
}

#[test]
fn lookup_does_not_add_nodes() {
    let mut graph = Graph::new("demo".to_string());
    graph.get_or_insert("a".to_string());
    assert_eq!(graph.lookup(&"b".to_string()), None);
    assert_eq!(graph.lookup(&"a".to_string()), Some(0));
    assert_eq!(graph.node_count(), 1);
}

#[test]
fn connect_makes_the_callee_and_the_edge() {
    let mut graph = Graph::new("demo".to_string());
    let main = graph.get_or_insert("main".to_string());
    graph.connect(main, "helper".to_string());
    assert_eq!(graph.node_count(), 2);
    assert_eq!(graph.lookup(&"helper".to_string()), Some(1));
    assert!(graph.has_edge(0, 1));
    assert!(!graph.has_edge(1, 0));
    assert!(!graph.has_edge(0, 0));
}

#[test]
fn connect_twice_leaves_one_edge() {
    let mut graph = Graph::new("demo".to_string());
    let main = graph.get_or_insert("main".to_string());
    graph.connect(main, "helper".to_string());
    graph.connect(main, "helper".to_string());
    assert_eq!(graph.node_count(), 2);
    assert_eq!(
        format_to_graphviz(graph),
        "digraph g {\n1 [label = \"helper\"]\n0 [label = \"main\"]\n0 -> 1\n}\n"
    );
}

#[test]
fn connect_allows_a_self_loop() {
    let mut graph = Graph::new("demo".to_string());
    let f = graph.get_or_insert("f".to_string());
    graph.connect(f, "f".to_string());
    assert_eq!(graph.node_count(), 1);
    assert!(graph.has_edge(0, 0));
}

#[test]
fn has_edge_is_false_beyond_the_nodes() {
    let graph = sample();
    assert!(!graph.has_edge(5, 0));
    assert!(!graph.has_edge(0, 5));
}

#[test]
fn filename_is_the_name_with_dot_suffix() {
    assert_eq!(construct_filename(&sample()), "demo.dot");
    assert_eq!(construct_filename(&Graph::new(String::new())), ".dot");
}

#[test]
fn empty_graph_renders_header_and_footer() {
    assert_eq!(format_to_graphviz(Graph::new("x".to_string())), "digraph g {\n}\n");
}

#[test]
fn graph_renders_nodes_then_edges() {
    assert_eq!(
        format_to_graphviz(sample()),
        "digraph g {\n1 [label = \"helper\"]\n0 [label = \"main\"]\n0 -> 1\n1 -> 0\n}\n"
    );
}

#[test]
fn edges_of_a_node_are_rendered_by_callee_index() {
    let mut graph = Graph::new("demo".to_string());
    graph.get_or_insert("a".to_string());
    graph.get_or_insert("b".to_string());
    graph.get_or_insert("c".to_string());
    graph.connect(0, "c".to_string());
    graph.connect(0, "b".to_string());
    graph.connect(2, "a".to_string());
    assert_eq!(
        format_to_graphviz(graph),
        "digraph g {\n0 [label = \"a\"]\n1 [label = \"b\"]\n2 [label = \"c\"]\n0 -> 1\n0 -> 2\n2 -> 0\n}\n"
    );
}

#[test]
fn nodes_are_rendered_in_ascending_order_of_identity() {
    let mut graph = Graph::new("g".to_string());
    assert_eq!(graph.get_or_insert("b".to_string()), 0);
    assert_eq!(graph.get_or_insert("a".to_string()), 1);
    assert_eq!(
        format_to_graphviz(graph),
        "digraph g {\n1 [label = \"a\"]\n0 [label = \"b\"]\n}\n"
    );
}

#[test]
fn identities_are_ordered_by_their_bytes() {
    let mut graph = Graph::new("g".to_string());
    for identity in ["b", "ab", "", "a", "B", "a::b", "\u{e9}", "z", "aa"] {
        graph.get_or_insert(identity.to_string());
    }
    assert_eq!(nodes_by_identity(&graph), vec![2, 4, 3, 5, 8, 1, 0, 7, 6]);
}

#[test]
fn precedes_is_the_order_of_strings() {
    let samples = ["", "a", "ab", "b", "B", "a::b", "\u{e9}", "z", "aa", "main", "m::inner"];
    for left in samples {
        for right in samples {
            assert_eq!(precedes(left, right), left < right);
        }
    }
}

#[test]
fn labels_are_not_escaped() {
    let mut graph = Graph::new("demo".to_string());
    graph.get_or_insert("a\"b".to_string());
    assert_eq!(format_to_graphviz(graph), "digraph g {\n0 [label = \"a\"b\"]\n}\n");
}

#[test]
fn rendering_is_the_same_for_the_same_graph() {
    assert_eq!(format_to_graphviz(sample()), format_to_graphviz(sample()));
}

#[test]
fn rendering_uses_indices_of_more_than_one_digit() {
    let mut graph = Graph::new("demo".to_string());
    for i in 0..12 {
        graph.get_or_insert(format!("f{}", i));
    }
    graph.connect(11, "f10".to_string());
    let text = format_to_graphviz(graph);
    assert!(text.starts_with(
        "digraph g {\n0 [label = \"f0\"]\n1 [label = \"f1\"]\n10 [label = \"f10\"]\n11 [label = \"f11\"]\n2 [label = \"f2\"]\n"
    ));
    assert!(text.ends_with("\n9 [label = \"f9\"]\n11 -> 10\n}\n"));
}

#[test]
fn decimal_string_writes_numbers() {
    assert_eq!(decimal_string(0), "0");
    assert_eq!(decimal_string(7), "7");
    assert_eq!(decimal_string(10), "10");
    assert_eq!(decimal_string(12345), "12345");
    assert_eq!(decimal_string(9876543210), "9876543210");
    assert_eq!(decimal_string(usize::MAX), usize::MAX.to_string());
}
