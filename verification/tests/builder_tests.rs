use getpanics::builder::{
    answered, classify, construct, describe_error, describe_skipped, first_target,
    graph_of_source, link, qualified_path, record_call, Built,
};
use getpanics::calls::{BuildError, Followup, Skipped};
use getpanics::graph::Graph;
use getpanics::graphviz::format_to_graphviz;
use getpanics::provider::{Definition, NodeKind};
use ra_ap_ide::{Analysis, FileId};

fn definition(name: &str, container: Option<&str>) -> Definition {
    Definition {
        name: name.to_string(),
        container_name: container.map(|c| c.to_string()),
        file_id: FileId::from_raw(0),
        start: 0,
        end: 0,
    }
}

fn walked(source: &str) -> Built {
    match graph_of_source(source.to_string(), "demo".to_string()) {
        Ok(built) => built,
        Err(error) => panic!("no graph: {:?}", error),
    }
}

fn built(source: &str) -> Graph {
    walked(source).graph
}

fn rendered(source: &str) -> String {
    format_to_graphviz(built(source))
}

#[test]
fn mutual_recursion_gives_two_nodes_and_two_edges() {
    let graph = built("fn main() { helper(); }\nfn helper() { main(); }\n");
    assert_eq!(graph.node_count(), 2);
    assert_eq!(graph.lookup(&"main".to_string()), Some(0));
    assert_eq!(graph.lookup(&"helper".to_string()), Some(1));
    assert!(graph.has_edge(0, 1));
    assert!(graph.has_edge(1, 0));
    assert!(!graph.has_edge(0, 0));
    assert!(!graph.has_edge(1, 1));
    assert_eq!(graph.name(), "demo");
}

#[test]
fn direct_recursion_gives_a_self_loop() {
    assert_eq!(
        rendered("fn f() { f(); f(); }\n"),
        "digraph g {\n0 [label = \"f\"]\n0 -> 0\n}\n"
    );
}

#[test]
fn long_cycle_terminates() {
    assert_eq!(
        rendered("fn a() { b(); }\nfn b() { c(); }\nfn c() { a(); b(); }\n"),
        "digraph g {\n0 [label = \"a\"]\n1 [label = \"b\"]\n2 [label = \"c\"]\n0 -> 1\n1 -> 2\n2 -> 0\n2 -> 1\n}\n"
    );
}

#[test]
fn call_through_a_closure_variable_is_skipped() {
    assert_eq!(
        rendered("fn main() { let f = || 1; f(); }\n"),
        "digraph g {\n0 [label = \"main\"]\n}\n"
    );
}

#[test]
fn call_of_a_closure_expression_is_skipped() {
    assert_eq!(rendered("fn main() { (|| 1)(); }\n"), "digraph g {\n0 [label = \"main\"]\n}\n");
}

#[test]
fn call_of_what_a_call_returned_is_skipped() {
    assert_eq!(
        rendered("fn main() { g()(); }\nfn g() -> fn() { main }\n"),
        "digraph g {\n1 [label = \"g\"]\n0 [label = \"main\"]\n0 -> 1\n}\n"
    );
}

#[test]
fn call_through_a_parameter_is_skipped() {
    assert_eq!(
        rendered("fn apply(f: fn()) { f(); }\n"),
        "digraph g {\n0 [label = \"apply\"]\n}\n"
    );
}

#[test]
fn tuple_struct_constructor_is_a_leaf() {
    let graph = built("struct Point(i32, i32);\nfn main() { Point(1, 2); }\n");
    assert_eq!(graph.node_count(), 2);
    assert_eq!(graph.lookup(&"Point".to_string()), Some(1));
    assert!(graph.has_edge(0, 1));
    assert!(!graph.has_edge(1, 0));
    assert!(!graph.has_edge(1, 1));
}

#[test]
fn enum_variant_is_a_leaf() {
    assert_eq!(
        rendered("enum E { A(u8) }\nfn main() { E::A(1); }\n"),
        "digraph g {\n1 [label = \"A\"]\n0 [label = \"main\"]\n0 -> 1\n}\n"
    );
}

#[test]
fn unresolved_call_adds_no_edge() {
    assert_eq!(
        rendered("fn main() { missing(); other::thing(); }\n"),
        "digraph g {\n0 [label = \"main\"]\n}\n"
    );
}

#[test]
fn unresolved_call_does_not_stop_the_walk() {
    assert_eq!(
        rendered("fn main() { missing(); helper(); }\nfn helper() {}\n"),
        "digraph g {\n1 [label = \"helper\"]\n0 [label = \"main\"]\n0 -> 1\n}\n"
    );
}

#[test]
fn callee_in_a_module_is_named_by_its_container() {
    assert_eq!(
        rendered("mod m { pub fn inner() { super::top(); } }\nfn top() { m::inner(); }\n"),
        "digraph g {\n1 [label = \"m::inner\"]\n0 [label = \"top\"]\n0 -> 1\n1 -> 0\n}\n"
    );
}

#[test]
fn two_calls_of_one_function_give_one_edge() {
    assert_eq!(
        rendered("fn main() { helper(); helper(); }\nfn helper() {}\n"),
        "digraph g {\n1 [label = \"helper\"]\n0 [label = \"main\"]\n0 -> 1\n}\n"
    );
}

#[test]
fn calls_nested_in_arguments_are_found_in_pre_order() {
    assert_eq!(
        rendered("fn main() { a(b()); }\nfn a(_: ()) {}\nfn b() {}\n"),
        "digraph g {\n1 [label = \"a\"]\n2 [label = \"b\"]\n0 [label = \"main\"]\n0 -> 1\n0 -> 2\n}\n"
    );
}

#[test]
fn file_without_functions_gives_an_empty_graph() {
    assert_eq!(rendered("struct S;\nconst X: u8 = 1;\n"), "digraph g {\n}\n");
}

#[test]
fn function_without_a_body_calls_nothing() {
    assert_eq!(
        rendered("trait T { fn m(); }\nstruct S;\nimpl T for S { fn m() {} }\nfn main() { <S as T>::m(); T::m(); }\n").lines().next(),
        Some("digraph g {")
    );
}

#[test]
fn function_without_a_name_is_refused() {
    assert!(matches!(
        graph_of_source("fn () {}\n".to_string(), "demo".to_string()),
        Err(BuildError::MissingName)
    ));
}

#[test]
fn call_of_a_constant_is_refused() {
    let built = graph_of_source(
        "const F: fn() = main;\nfn main() { F(); }\n".to_string(),
        "demo".to_string(),
    );
    match built {
        Err(error) => {
            assert_eq!(error, BuildError::UnexpectedKind { kind: "CONST".to_string() });
            assert_eq!(describe_error(&error), "Unexpected kind of definition: CONST");
        }
        Ok(_) => panic!("a constant was taken for a callee"),
    }
}

#[test]
fn construct_works_on_an_analysis_of_one_file() {
    let (analysis, file) =
        Analysis::from_single_file("fn main() { helper(); }\nfn helper() {}\n".to_string());
    let graph = match construct(&analysis, file, "one".to_string()) {
        Ok(built) => built.graph,
        Err(error) => panic!("no graph: {:?}", error),
    };
    assert_eq!(graph.name(), "one");
    assert_eq!(
        format_to_graphviz(graph),
        "digraph g {\n1 [label = \"helper\"]\n0 [label = \"main\"]\n0 -> 1\n}\n"
    );
}

#[test]
fn two_runs_give_the_same_document() {
    let source = "fn a() { b(); c(); }\nfn b() { c(); a(); }\nfn c() { b(); }\n";
    assert_eq!(rendered(source), rendered(source));
}

#[test]
fn first_target_takes_the_first_candidate() {
    let found = Some(vec![definition("one", None), definition("two", Some("m"))]);
    let target = first_target(found);
    assert_eq!(target.map(|t| t.name), Some("one".to_string()));
}

#[test]
fn first_target_of_nothing_is_none() {
    assert!(first_target(None).is_none());
    assert!(first_target(Some(Vec::new())).is_none());
}

#[test]
fn qualified_path_joins_container_and_name() {
    assert_eq!(qualified_path(&definition("inner", Some("m"))), "m::inner");
    assert_eq!(qualified_path(&definition("main", None)), "main");
    assert_eq!(qualified_path(&definition("", Some(""))), "::");
}

#[test]
fn classify_expands_functions_only() {
    assert_eq!(classify(NodeKind::Fn), Followup::Expand);
    assert_eq!(classify(NodeKind::Variant), Followup::Leaf);
    assert_eq!(classify(NodeKind::Struct), Followup::Leaf);
    assert_eq!(classify(NodeKind::TokenTree), Followup::Leaf);
    assert_eq!(classify(NodeKind::Impl), Followup::Leaf);
    assert_eq!(classify(NodeKind::BlockExpr), Followup::Unexpected);
    assert_eq!(classify(NodeKind::CallExpr), Followup::Unexpected);
    assert_eq!(classify(NodeKind::PathExpr), Followup::Unexpected);
    assert_eq!(classify(NodeKind::Name), Followup::Unexpected);
    assert_eq!(classify(NodeKind::Other), Followup::Unexpected);
}

#[test]
fn link_connects_and_returns_the_callee() {
    let mut graph = Graph::new("demo".to_string());
    graph.get_or_insert("main".to_string());
    assert_eq!(link(&mut graph, 0, "m::f".to_string()), 1);
    assert_eq!(link(&mut graph, 0, "main".to_string()), 0);
    assert_eq!(link(&mut graph, 1, "m::f".to_string()), 1);
    assert!(graph.has_edge(0, 1));
    assert!(graph.has_edge(0, 0));
    assert!(graph.has_edge(1, 1));
    assert!(!graph.has_edge(1, 0));
}

#[test]
fn record_call_links_what_a_node_defines() {
    let mut graph = Graph::new("demo".to_string());
    graph.get_or_insert("main".to_string());
    let target = definition("inner", Some("m"));
    assert_eq!(record_call(&mut graph, 0, &target, Some(NodeKind::Fn)), Some(1));
    assert_eq!(graph.label(1), "m::inner");
    assert!(graph.has_edge(0, 1));
    assert_eq!(record_call(&mut graph, 0, &target, Some(NodeKind::Struct)), Some(1));
    assert_eq!(graph.node_count(), 2);
}

#[test]
fn record_call_passes_over_what_a_token_defines() {
    let mut graph = Graph::new("demo".to_string());
    graph.get_or_insert("main".to_string());
    assert_eq!(record_call(&mut graph, 0, &definition("f", None), None), None);
    assert_eq!(graph.node_count(), 1);
    assert!(!graph.has_edge(0, 0));
}

#[test]
fn errors_are_described() {
    assert_eq!(describe_error(&BuildError::Cancelled), "Unexpected cancellation of a query");
    assert_eq!(describe_error(&BuildError::MissingName), "Failed to find the name of a function");
    assert_eq!(
        describe_error(&BuildError::UnexpectedKind { kind: "STATIC".to_string() }),
        "Unexpected kind of definition: STATIC"
    );
    assert_eq!(describe_error(&BuildError::RangeOutsideFile), "Definition outside of its file");
}

#[test]
fn functions_of_one_identity_share_a_node() {
    assert_eq!(
        rendered(
            "struct S;\nstruct T;\nimpl S { fn new() -> S { helper(); S } }\nimpl T { fn new() -> T { T } }\nfn helper() {}\nfn main() { S::new(); T::new(); }\n"
        ),
        "digraph g {\n0 [label = \"helper\"]\n1 [label = \"main\"]\n2 [label = \"new\"]\n1 -> 2\n2 -> 0\n}\n"
    );
}

#[test]
fn functions_are_expanded_in_the_order_of_the_file() {
    assert_eq!(
        rendered("fn z() { a(); }\nfn a() {}\nfn m() { z(); }\n"),
        "digraph g {\n1 [label = \"a\"]\n2 [label = \"m\"]\n0 [label = \"z\"]\n0 -> 1\n2 -> 0\n}\n"
    );
}

#[test]
fn calls_in_a_nested_function_count_for_the_outer_one_too() {
    assert_eq!(
        rendered("fn main() { fn inner() { main(); } inner(); }\n"),
        "digraph g {\n1 [label = \"inner\"]\n0 [label = \"main\"]\n0 -> 0\n0 -> 1\n1 -> 0\n}\n"
    );
}

#[test]
fn answer_of_the_analysis_is_handed_on() {
    assert_eq!(answered(Ok(7)), Ok(7));
    assert_eq!(answered(Ok("tree")), Ok("tree"));
}

#[test]
fn walk_without_anything_passed_over_reports_nothing() {
    assert_eq!(walked("fn main() { helper(); }\nfn helper() { main(); }\n").skipped, Vec::new());
}

#[test]
fn call_through_a_closure_variable_is_reported() {
    assert_eq!(
        walked("fn main() { let f = || 1; f(); }\n").skipped,
        vec![Skipped::NotAnItem { function: 0, callee: "f".to_string() }]
    );
}

#[test]
fn call_of_a_closure_expression_is_reported() {
    assert_eq!(
        walked("fn main() { (|| 1)(); }\n").skipped,
        vec![Skipped::NoCallee { function: 0, call: "(|| 1)()".to_string() }]
    );
}

#[test]
fn unresolved_calls_are_reported_in_their_order() {
    assert_eq!(
        walked("fn main() { missing(); helper(); other::thing(); }\nfn helper() { gone(); }\n")
            .skipped,
        vec![
            Skipped::Unresolved { function: 0, callee: "missing".to_string() },
            Skipped::Unresolved { function: 1, callee: "gone".to_string() },
            Skipped::Unresolved { function: 0, callee: "other::thing".to_string() },
        ]
    );
}

#[test]
fn calls_without_callee_are_reported_before_the_other_calls() {
    assert_eq!(
        walked("fn main() { missing(); (|| 1)(); }\n").skipped,
        vec![
            Skipped::NoCallee { function: 0, call: "(|| 1)()".to_string() },
            Skipped::Unresolved { function: 0, callee: "missing".to_string() },
        ]
    );
}

#[test]
fn function_without_a_body_is_reported() {
    let built = walked("fn f();\n");
    assert_eq!(built.graph.node_count(), 1);
    assert_eq!(built.skipped, vec![Skipped::NoBody { function: 0 }]);
}

#[test]
fn what_was_passed_over_is_described() {
    assert_eq!(describe_skipped(&Skipped::NoBody { function: 3 }), "no body to search");
    assert_eq!(
        describe_skipped(&Skipped::NoCallee { function: 0, call: "(|| 1)()".to_string() }),
        "no path to call in (|| 1)()"
    );
    assert_eq!(
        describe_skipped(&Skipped::Unresolved { function: 0, callee: "missing".to_string() }),
        "no definition found for missing"
    );
    assert_eq!(
        describe_skipped(&Skipped::NotAnItem { function: 0, callee: "f".to_string() }),
        "no item behind f"
    );
}
