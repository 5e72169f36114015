use rfdb::datalog::{parse_atom, parse_rule, Atom, Evaluator, Term, Value};
use rfdb::{EdgeRecord, GraphEngine, NodeRecord};

fn setup_test_graph() -> GraphEngine {
    let mut engine = GraphEngine::create("graph").unwrap();

    // Add test nodes
    engine.add_nodes(vec![
        NodeRecord {
            id: 1,
            node_type: Some("queue:publish".to_string()),
            name: Some("orders-pub".to_string()),
            file: Some("api.js".to_string()),
            file_id: 0,
            name_offset: 0,
            version: "main".into(),
            exported: false,
            replaces: None,
            deleted: false,
            metadata: None,
        },
        NodeRecord {
            id: 2,
            node_type: Some("queue:consume".to_string()),
            name: Some("orders-con".to_string()),
            file: Some("worker.js".to_string()),
            file_id: 0,
            name_offset: 0,
            version: "main".into(),
            exported: false,
            replaces: None,
            deleted: false,
            metadata: None,
        },
        NodeRecord {
            id: 3,
            node_type: Some("queue:publish".to_string()),
            name: Some("orphan-pub".to_string()),
            file: Some("orphan.js".to_string()),
            file_id: 0,
            name_offset: 0,
            version: "main".into(),
            exported: false,
            replaces: None,
            deleted: false,
            metadata: None,
        },
        NodeRecord {
            id: 4,
            node_type: Some("FUNCTION".to_string()),
            name: Some("processOrder".to_string()),
            file: Some("worker.js".to_string()),
            file_id: 0,
            name_offset: 0,
            version: "main".into(),
            exported: false,
            replaces: None,
            deleted: false,
            metadata: None,
        },
    ]);

    // Add edges: 1 -> 4 -> 2 (path exists)
    // Node 3 has no outgoing edges (orphan)
    engine.add_edges(vec![
        EdgeRecord {
            src: 1,
            dst: 4,
            edge_type: Some("CALLS".to_string()),
            version: "main".into(),
            metadata: None,
            deleted: false,
        },
        EdgeRecord {
            src: 4,
            dst: 2,
            edge_type: Some("CALLS".to_string()),
            version: "main".into(),
            metadata: None,
            deleted: false,
        },
    ], false);

    engine
}

#[test]
fn test_eval_node_by_type() {
    let engine = setup_test_graph();
    let evaluator = Evaluator::new(&engine);

    // node(X, "queue:publish")
    let query = Atom::new("node", vec![
        Term::var("X"),
        Term::constant("queue:publish"),
    ]);

    let results = evaluator.eval_atom(&query);
    assert_eq!(results.len(), 2); // nodes 1 and 3
}

#[test]
fn test_eval_node_by_id() {
    let engine = setup_test_graph();
    let evaluator = Evaluator::new(&engine);

    // node(1, Type) - find type of node 1
    let query = Atom::new("node", vec![
        Term::constant("1"),
        Term::var("Type"),
    ]);

    let results = evaluator.eval_atom(&query);
    assert_eq!(results.len(), 1);
    assert_eq!(results[0].get("Type"), Some(&Value::Str("queue:publish".to_string())));
}

#[test]
fn test_eval_edge() {
    let engine = setup_test_graph();
    let evaluator = Evaluator::new(&engine);

    // edge(1, X, "CALLS")
    let query = Atom::new("edge", vec![
        Term::constant("1"),
        Term::var("X"),
        Term::constant("CALLS"),
    ]);

    let results = evaluator.eval_atom(&query);
    assert_eq!(results.len(), 1);
    assert_eq!(results[0].get("X"), Some(&Value::Id(4)));
}

#[test]
fn test_eval_path_exists() {
    let engine = setup_test_graph();
    let evaluator = Evaluator::new(&engine);

    // path(1, 2) - should exist (1 -> 4 -> 2)
    let query = Atom::new("path", vec![
        Term::constant("1"),
        Term::constant("2"),
    ]);

    let results = evaluator.eval_atom(&query);
    assert_eq!(results.len(), 1); // path exists
}

#[test]
fn test_eval_path_not_exists() {
    let engine = setup_test_graph();
    let evaluator = Evaluator::new(&engine);

    // path(3, 2) - orphan has no path to consumer
    let query = Atom::new("path", vec![
        Term::constant("3"),
        Term::constant("2"),
    ]);

    let results = evaluator.eval_atom(&query);
    assert_eq!(results.len(), 0); // no path
}

#[test]
fn test_eval_rule_simple() {
    let engine = setup_test_graph();
    let mut evaluator = Evaluator::new(&engine);

    // publisher(X) :- node(X, "queue:publish").
    let rule = parse_rule("publisher(X) :- node(X, \"queue:publish\").").unwrap();
    evaluator.add_rule(rule);

    let query = parse_atom("publisher(X)").unwrap();
    let results = evaluator.query(&query);

    assert_eq!(results.len(), 2); // two publishers
}

#[test]
fn test_eval_rule_with_negation() {
    let engine = setup_test_graph();
    let mut evaluator = Evaluator::new(&engine);

    // orphan(X) :- node(X, "queue:publish"), \+ path(X, _).
    // Node 3 is orphan (no path to anywhere useful)
    let rule = parse_rule("orphan(X) :- node(X, \"queue:publish\"), \\+ path(X, _).").unwrap();
    evaluator.add_rule(rule);

    let query = parse_atom("orphan(X)").unwrap();
    let results = evaluator.query(&query);

    assert_eq!(results.len(), 1); // only node 3
    assert_eq!(results[0].get("X"), Some(&Value::Id(3)));
}

#[test]
fn test_eval_incoming() {
    let engine = setup_test_graph();
    let evaluator = Evaluator::new(&engine);

    // incoming(4, X, "CALLS") - who calls node 4?
    let query = Atom::new("incoming", vec![
        Term::constant("4"),
        Term::var("X"),
        Term::constant("CALLS"),
    ]);

    let results = evaluator.eval_atom(&query);
    assert_eq!(results.len(), 1);
    assert_eq!(results[0].get("X"), Some(&Value::Id(1))); // node 1 calls node 4
}

#[test]
fn test_eval_incoming_no_edges() {
    let engine = setup_test_graph();
    let evaluator = Evaluator::new(&engine);

    // incoming(1, X, "CALLS") - who calls node 1? Nobody
    let query = Atom::new("incoming", vec![
        Term::constant("1"),
        Term::var("X"),
        Term::constant("CALLS"),
    ]);

    let results = evaluator.eval_atom(&query);
    assert_eq!(results.len(), 0);
}

#[test]
fn test_guarantee_all_variables_assigned() {
    // Setup: Create a graph with VARIABLE nodes, some with ASSIGNED_FROM, some without
    let mut engine = GraphEngine::create("graph").unwrap();

    engine.add_nodes(vec![
        NodeRecord {
            id: 10,
            node_type: Some("VARIABLE".to_string()),
            name: Some("x".to_string()),
            file: Some("test.js".to_string()),
            file_id: 0,
            name_offset: 0,
            version: "main".into(),
            exported: false,
            replaces: None,
            deleted: false,
            metadata: None,
        },
        NodeRecord {
            id: 11,
            node_type: Some("VARIABLE".to_string()),
            name: Some("y".to_string()),
            file: Some("test.js".to_string()),
            file_id: 0,
            name_offset: 0,
            version: "main".into(),
            exported: false,
            replaces: None,
            deleted: false,
            metadata: None,
        },
        NodeRecord {
            id: 20,
            node_type: Some("LITERAL".to_string()),
            name: Some("42".to_string()),
            file: Some("test.js".to_string()),
            file_id: 0,
            name_offset: 0,
            version: "main".into(),
            exported: false,
            replaces: None,
            deleted: false,
            metadata: None,
        },
    ]);

    // Only x (10) has ASSIGNED_FROM, y (11) does not
    engine.add_edges(vec![
        EdgeRecord {
            src: 20,
            dst: 10,
            edge_type: Some("ASSIGNED_FROM".to_string()),
            version: "main".into(),
            metadata: None,
            deleted: false,
        },
    ], false);

    let mut evaluator = Evaluator::new(&engine);

    // Guarantee: violation(X) :- node(X, "VARIABLE"), \+ incoming(X, _, "ASSIGNED_FROM").
    let rule = parse_rule(
        "violation(X) :- node(X, \"VARIABLE\"), \\+ incoming(X, _, \"ASSIGNED_FROM\")."
    ).unwrap();
    evaluator.add_rule(rule);

    let query = parse_atom("violation(X)").unwrap();
    let results = evaluator.query(&query);

    // Only y (11) violates the guarantee
    assert_eq!(results.len(), 1);
    assert_eq!(results[0].get("X"), Some(&Value::Id(11)));
}

#[test]
fn test_eval_attr_builtin() {
    let engine = setup_test_graph();
    let evaluator = Evaluator::new(&engine);

    // attr(1, "name", X) - get name of node 1
    let query = Atom::new("attr", vec![
        Term::constant("1"),
        Term::constant("name"),
        Term::var("X"),
    ]);

    let results = evaluator.eval_atom(&query);
    assert_eq!(results.len(), 1);
    assert_eq!(results[0].get("X"), Some(&Value::Str("orders-pub".to_string())));
}

#[test]
fn test_eval_attr_file() {
    let engine = setup_test_graph();
    let evaluator = Evaluator::new(&engine);

    // attr(1, "file", X) - get file of node 1
    let query = Atom::new("attr", vec![
        Term::constant("1"),
        Term::constant("file"),
        Term::var("X"),
    ]);

    let results = evaluator.eval_atom(&query);
    assert_eq!(results.len(), 1);
    assert_eq!(results[0].get("X"), Some(&Value::Str("api.js".to_string())));
}

#[test]
fn test_eval_attr_type() {
    let engine = setup_test_graph();
    let evaluator = Evaluator::new(&engine);

    // attr(1, "type", X) - get type of node 1
    let query = Atom::new("attr", vec![
        Term::constant("1"),
        Term::constant("type"),
        Term::var("X"),
    ]);

    let results = evaluator.eval_atom(&query);
    assert_eq!(results.len(), 1);
    assert_eq!(results[0].get("X"), Some(&Value::Str("queue:publish".to_string())));
}

#[test]
fn test_eval_attr_constant_match() {
    let engine = setup_test_graph();
    let evaluator = Evaluator::new(&engine);

    // attr(1, "name", "orders-pub") - check if name matches
    let query = Atom::new("attr", vec![
        Term::constant("1"),
        Term::constant("name"),
        Term::constant("orders-pub"),
    ]);

    let results = evaluator.eval_atom(&query);
    assert_eq!(results.len(), 1); // Match
}

#[test]
fn test_eval_attr_constant_no_match() {
    let engine = setup_test_graph();
    let evaluator = Evaluator::new(&engine);

    // attr(1, "name", "wrong-name") - check if name matches (it shouldn't)
    let query = Atom::new("attr", vec![
        Term::constant("1"),
        Term::constant("name"),
        Term::constant("wrong-name"),
    ]);

    let results = evaluator.eval_atom(&query);
    assert_eq!(results.len(), 0); // No match
}

#[test]
fn test_eval_attr_metadata() {
    // Create a graph with metadata
    let mut engine = GraphEngine::create("graph").unwrap();

    // Add a CALL node with "object" and "method" in metadata
    engine.add_nodes(vec![
        NodeRecord {
            id: 100,
            node_type: Some("CALL".to_string()),
            name: Some("arr.map".to_string()),
            file: Some("test.js".to_string()),
            file_id: 0,
            name_offset: 0,
            version: "main".into(),
            exported: false,
            replaces: None,
            deleted: false,
            metadata: Some(r#"{"object":"arr","method":"map"}"#.to_string()),
        },
    ]);

    let evaluator = Evaluator::new(&engine);

    // attr(100, "object", X) - get object from metadata
    let query = Atom::new("attr", vec![
        Term::constant("100"),
        Term::constant("object"),
        Term::var("X"),
    ]);

    let results = evaluator.eval_atom(&query);
    assert_eq!(results.len(), 1);
    assert_eq!(results[0].get("X"), Some(&Value::Str("arr".to_string())));

    // attr(100, "method", X) - get method from metadata
    let query2 = Atom::new("attr", vec![
        Term::constant("100"),
        Term::constant("method"),
        Term::var("X"),
    ]);

    let results2 = evaluator.eval_atom(&query2);
    assert_eq!(results2.len(), 1);
    assert_eq!(results2[0].get("X"), Some(&Value::Str("map".to_string())));
}

#[test]
fn test_eval_attr_missing() {
    let engine = setup_test_graph();
    let evaluator = Evaluator::new(&engine);

    // attr(1, "nonexistent", X) - attribute doesn't exist
    let query = Atom::new("attr", vec![
        Term::constant("1"),
        Term::constant("nonexistent"),
        Term::var("X"),
    ]);

    let results = evaluator.eval_atom(&query);
    assert_eq!(results.len(), 0); // No results for missing attr
}

#[test]
fn test_guarantee_call_without_target() {
    // Test: Find CALL nodes without "object" that don't have CALLS edge
    // This represents internal function calls that don't resolve
    let mut engine = GraphEngine::create("graph").unwrap();

    engine.add_nodes(vec![
        // CALL_SITE (internal function call) - has CALLS edge
        NodeRecord {
            id: 1,
            node_type: Some("CALL".to_string()),
            name: Some("foo".to_string()),
            file: Some("test.js".to_string()),
            file_id: 0,
            name_offset: 0,
            version: "main".into(),
            exported: false,
            replaces: None,
            deleted: false,
            metadata: None, // No "object" = CALL_SITE
        },
        // CALL_SITE without CALLS edge - violation!
        NodeRecord {
            id: 2,
            node_type: Some("CALL".to_string()),
            name: Some("bar".to_string()),
            file: Some("test.js".to_string()),
            file_id: 0,
            name_offset: 0,
            version: "main".into(),
            exported: false,
            replaces: None,
            deleted: false,
            metadata: None, // No "object" = CALL_SITE
        },
        // METHOD_CALL (external method call) - no CALLS edge needed
        NodeRecord {
            id: 3,
            node_type: Some("CALL".to_string()),
            name: Some("arr.map".to_string()),
            file: Some("test.js".to_string()),
            file_id: 0,
            name_offset: 0,
            version: "main".into(),
            exported: false,
            replaces: None,
            deleted: false,
            metadata: Some(r#"{"object":"arr","method":"map"}"#.to_string()),
        },
        // Target function
        NodeRecord {
            id: 10,
            node_type: Some("FUNCTION".to_string()),
            name: Some("foo".to_string()),
            file: Some("test.js".to_string()),
            file_id: 0,
            name_offset: 0,
            version: "main".into(),
            exported: false,
            replaces: None,
            deleted: false,
            metadata: None,
        },
    ]);

    // Only CALL 1 has CALLS edge
    engine.add_edges(vec![
        EdgeRecord {
            src: 1,
            dst: 10,
            edge_type: Some("CALLS".to_string()),
            version: "main".into(),
            metadata: None,
            deleted: false,
        },
    ], false);

    let mut evaluator = Evaluator::new(&engine);

    // Guarantee: CALL_SITE (no "object" attr) must have CALLS edge
    // violation(X) :- node(X, "CALL"), \+ attr(X, "object", _), \+ edge(X, _, "CALLS").
    let rule = parse_rule(
        r#"violation(X) :- node(X, "CALL"), \+ attr(X, "object", _), \+ edge(X, _, "CALLS")."#
    ).unwrap();
    evaluator.add_rule(rule);

    let query = parse_atom("violation(X)").unwrap();
    let results = evaluator.query(&query);

    // Only node 2 should violate (CALL_SITE without CALLS)
    assert_eq!(results.len(), 1);
    assert_eq!(results[0].get("X"), Some(&Value::Id(2)));
}

#[test]
fn test_eval_neq_success() {
    let engine = setup_test_graph();
    let evaluator = Evaluator::new(&engine);

    // neq("foo", "bar") - should succeed (not equal)
    let query = Atom::new("neq", vec![
        Term::constant("foo"),
        Term::constant("bar"),
    ]);

    let results = evaluator.eval_atom(&query);
    assert_eq!(results.len(), 1);
}

#[test]
fn test_eval_neq_failure() {
    let engine = setup_test_graph();
    let evaluator = Evaluator::new(&engine);

    // neq("foo", "foo") - should fail (equal)
    let query = Atom::new("neq", vec![
        Term::constant("foo"),
        Term::constant("foo"),
    ]);

    let results = evaluator.eval_atom(&query);
    assert_eq!(results.len(), 0);
}

#[test]
fn test_eval_starts_with_success() {
    let engine = setup_test_graph();
    let evaluator = Evaluator::new(&engine);

    // starts_with("<anonymous>", "<") - should succeed
    let query = Atom::new("starts_with", vec![
        Term::constant("<anonymous>"),
        Term::constant("<"),
    ]);

    let results = evaluator.eval_atom(&query);
    assert_eq!(results.len(), 1);
}

#[test]
fn test_eval_starts_with_failure() {
    let engine = setup_test_graph();
    let evaluator = Evaluator::new(&engine);

    // starts_with("myFunc", "<") - should fail
    let query = Atom::new("starts_with", vec![
        Term::constant("myFunc"),
        Term::constant("<"),
    ]);

    let results = evaluator.eval_atom(&query);
    assert_eq!(results.len(), 0);
}

#[test]
fn test_eval_not_starts_with_success() {
    let engine = setup_test_graph();
    let evaluator = Evaluator::new(&engine);

    // not_starts_with("myFunc", "<") - should succeed
    let query = Atom::new("not_starts_with", vec![
        Term::constant("myFunc"),
        Term::constant("<"),
    ]);

    let results = evaluator.eval_atom(&query);
    assert_eq!(results.len(), 1);
}

#[test]
fn test_eval_not_starts_with_failure() {
    let engine = setup_test_graph();
    let evaluator = Evaluator::new(&engine);

    // not_starts_with("<anonymous>", "<") - should fail
    let query = Atom::new("not_starts_with", vec![
        Term::constant("<anonymous>"),
        Term::constant("<"),
    ]);

    let results = evaluator.eval_atom(&query);
    assert_eq!(results.len(), 0);
}

#[test]
fn test_eval_neq_in_rule() {
    // Test neq in a rule context
    let mut engine = GraphEngine::create("graph").unwrap();

    engine.add_nodes(vec![
        NodeRecord {
            id: 1,
            node_type: Some("FUNCTION".to_string()),
            name: Some("myFunc".to_string()),
            file: Some("test.js".to_string()),
            file_id: 0,
            name_offset: 0,
            version: "main".into(),
            exported: false,
            replaces: None,
            deleted: false,
            metadata: None,
        },
        NodeRecord {
            id: 2,
            node_type: Some("FUNCTION".to_string()),
            name: Some("constructor".to_string()),
            file: Some("test.js".to_string()),
            file_id: 0,
            name_offset: 0,
            version: "main".into(),
            exported: false,
            replaces: None,
            deleted: false,
            metadata: None,
        },
        NodeRecord {
            id: 3,
            node_type: Some("FUNCTION".to_string()),
            name: Some("<anonymous>".to_string()),
            file: Some("test.js".to_string()),
            file_id: 0,
            name_offset: 0,
            version: "main".into(),
            exported: false,
            replaces: None,
            deleted: false,
            metadata: None,
        },
    ]);

    let mut evaluator = Evaluator::new(&engine);

    // Find functions that are NOT constructors AND don't start with <
    // violation(X) :- node(X, "FUNCTION"), attr(X, "name", N), neq(N, "constructor"), not_starts_with(N, "<").
    let rule = parse_rule(
        r#"violation(X) :- node(X, "FUNCTION"), attr(X, "name", N), neq(N, "constructor"), not_starts_with(N, "<")."#
    ).unwrap();
    evaluator.add_rule(rule);

    let query = parse_atom("violation(X)").unwrap();
    let results = evaluator.query(&query);

    // Only node 1 (myFunc) should match
    assert_eq!(results.len(), 1);
    assert_eq!(results[0].get("X"), Some(&Value::Id(1)));
}
