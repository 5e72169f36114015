use rfdb::datalog::{parse_atom, parse_rule, Evaluator, Value};
use rfdb::graph::{compute_node_id, AutoFlush, GraphStore};
use rfdb::graph::engine::memory_asks_flush;
use rfdb::{AttrQuery, EdgeRecord, GraphEngine, GraphError, NodeRecord};

fn node(id: u128, node_type: &str, name: &str) -> NodeRecord {
    NodeRecord {
        id,
        node_type: Some(node_type.to_string()),
        file_id: 0,
        name_offset: 0,
        version: "main".to_string(),
        exported: false,
        replaces: None,
        deleted: false,
        name: Some(name.to_string()),
        file: Some("f.js".to_string()),
        metadata: None,
    }
}

fn edge(src: u128, dst: u128, edge_type: &str) -> EdgeRecord {
    EdgeRecord {
        src,
        dst,
        edge_type: Some(edge_type.to_string()),
        version: "main".to_string(),
        metadata: None,
        deleted: false,
    }
}

fn sorted(mut v: Vec<u128>) -> Vec<u128> {
    v.sort();
    v
}

#[test]
fn create_add_lookup() {
    let mut engine = GraphEngine::create("db").unwrap();
    let id = compute_node_id("FUNCTION", "foo", "mod", "f.js");
    let mut n = node(id, "FUNCTION", "foo");
    n.exported = true;
    engine.add_nodes(vec![n]);
    assert_eq!(engine.get_node(id).unwrap().name, Some("foo".to_string()));
    assert_eq!(engine.find_by_type("FUNCTION"), vec![id]);
    assert_eq!(engine.find_by_attr(&AttrQuery::new().exported(true)), vec![id]);
    assert_eq!(engine.find_by_attr(&AttrQuery::new().exported(false)), Vec::<u128>::new());
    assert_eq!(engine.find_by_attr(&AttrQuery::new().name("foo").version("main")), vec![id]);
    assert_eq!(engine.find_by_attr(&AttrQuery::new().name("bar")), Vec::<u128>::new());
    assert_eq!(engine.find_by_attr(&AttrQuery::new().file_id(0)), vec![id]);
    assert_eq!(engine.find_by_attr(&AttrQuery::new().file_id(3)), Vec::<u128>::new());
    assert_eq!(engine.ops_since_flush, 1);
}

#[test]
fn edge_validation_drops_edges_to_missing_nodes() {
    let mut engine = GraphEngine::create("db").unwrap();
    engine.add_nodes(vec![node(1, "FUNCTION", "a"), node(2, "FUNCTION", "b")]);
    engine.add_edges(vec![edge(1, 2, "CALLS"), edge(1, 3, "CALLS")], false);
    assert_eq!(engine.neighbors(1, &[]), vec![2]);
    assert_eq!(engine.edge_count(), 1);
    assert_eq!(engine.ops_since_flush, 3);
    // without validation the edge is taken
    engine.add_edges(vec![edge(1, 3, "CALLS")], true);
    assert_eq!(engine.neighbors(1, &[]), vec![2, 3]);
}

#[test]
fn flush_round_trip() {
    let mut engine = GraphEngine::create("db").unwrap();
    let nodes: Vec<NodeRecord> =
        (0..1000u128).map(|i| node(i + 1, if i % 2 == 0 { "FUNCTION" } else { "CLASS" }, "n")).collect();
    engine.add_nodes(nodes);
    let mut edges = Vec::new();
    for i in 0..1000u128 {
        edges.push(edge(i + 1, (i + 1) % 1000 + 1, "CALLS"));
        edges.push(edge(i + 1, (i + 7) % 1000 + 1, "IMPORTS"));
    }
    engine.add_edges(edges, false);
    let before_out: Vec<Vec<u128>> = (1..20u128).map(|i| engine.neighbors(i, &[])).collect();
    let before_in: Vec<Vec<u128>> = (1..20u128).map(|i| engine.reverse_neighbors(i, &["CALLS"])).collect();
    let before_found = sorted(engine.find_by_type("FUNCTION"));
    assert_eq!(engine.node_count(), 1000);
    assert_eq!(engine.edge_count(), 2000);

    let snapshot = engine.flush().unwrap().unwrap();
    assert_eq!(engine.ops_since_flush, 0);
    assert_eq!(engine.metadata().node_count, 1000);
    assert_eq!(engine.metadata().edge_count, 2000);
    assert_eq!(engine.metadata().version, "1.0");
    assert_eq!(engine.node_count(), 1000);
    assert_eq!(engine.edge_count(), 2000);
    for i in 1..20u128 {
        assert_eq!(engine.neighbors(i, &[]), before_out[(i - 1) as usize]);
        assert_eq!(engine.reverse_neighbors(i, &["CALLS"]), before_in[(i - 1) as usize]);
    }
    assert_eq!(sorted(engine.find_by_type("FUNCTION")), before_found);
    // nothing more to flush
    assert!(engine.flush().unwrap().is_none());

    let reopened = GraphEngine::open("db", Some(snapshot.nodes), Some(snapshot.edges)).unwrap();
    assert_eq!(reopened.node_count(), 1000);
    assert_eq!(reopened.edge_count(), 2000);
    for i in 1..20u128 {
        assert_eq!(reopened.neighbors(i, &[]), before_out[(i - 1) as usize]);
        assert_eq!(reopened.reverse_neighbors(i, &["CALLS"]), before_in[(i - 1) as usize]);
    }
    assert_eq!(sorted(reopened.find_by_type("FUNCTION")), before_found);
    assert_eq!(reopened.get_node(5).unwrap().node_type, Some("FUNCTION".to_string()));
    assert_eq!(reopened.get_node(5).unwrap().file, Some("f.js".to_string()));
}

#[test]
fn wildcard_type_filter() {
    let mut engine = GraphEngine::create("db").unwrap();
    engine.add_nodes(vec![
        node(1, "http:route", "a"),
        node(2, "http:endpoint", "b"),
        node(3, "FUNCTION", "c"),
        node(4, "https", "d"),
    ]);
    assert_eq!(engine.find_by_type("http:*"), vec![1, 2]);
    assert_eq!(engine.find_by_type("http*"), vec![1, 2, 4]);
    assert_eq!(engine.find_by_type("http:**"), vec![1, 2]);
    assert_eq!(engine.find_by_type("*"), vec![1, 2, 3, 4]);
    assert_eq!(engine.find_by_type("http:"), Vec::<u128>::new());
    // the same after a flush
    engine.flush().unwrap();
    assert_eq!(engine.find_by_type("http:*"), vec![1, 2]);
}

#[test]
fn orphan_publisher_guarantee() {
    let mut engine = GraphEngine::create("db").unwrap();
    engine.add_nodes(vec![
        node(1, "queue:publish", "n1"),
        node(2, "queue:publish", "n2"),
        node(3, "queue:consume", "n3"),
    ]);
    engine.add_edges(vec![edge(1, 3, "CALLS")], false);
    let mut evaluator = Evaluator::new(&engine);
    evaluator.add_rule(
        parse_rule("violation(X) :- node(X, \"queue:publish\"), \\+ path(X, _).").unwrap(),
    );
    let results = evaluator.query(&parse_atom("violation(X)").unwrap());
    assert_eq!(results.len(), 1);
    assert_eq!(results[0].get("X"), Some(&Value::Id(2)));
    assert_eq!(results[0].iter().len(), 1);
}

#[test]
fn nodes_without_a_way_out() {
    let mut engine = GraphEngine::create("db").unwrap();
    engine.add_nodes(vec![node(1, "A", "n1"), node(2, "B", "n2"), node(3, "A", "n3")]);
    let mut untyped = node(4, "A", "n4");
    untyped.node_type = None;
    engine.add_nodes(vec![untyped]);
    engine.add_edges(vec![edge(1, 2, "CALLS")], false);
    let mut evaluator = Evaluator::new(&engine);
    evaluator.add_rule(parse_rule("violation(X) :- node(X, T), \\+ path(X, _).").unwrap());
    let results = evaluator.query(&parse_atom("violation(X)").unwrap());
    // by type in the order of first occurrence: A (1, 3), then B (2); of these 3 and 2 are stuck
    let ids: Vec<Option<&Value>> = results.iter().map(|b| b.get("X")).collect();
    assert_eq!(ids, vec![Some(&Value::Id(3)), Some(&Value::Id(2))]);
}

#[test]
fn negation_with_metadata_attr() {
    let mut engine = GraphEngine::create("db").unwrap();
    let mut with_meta = node(1, "CALL", "arr.map");
    with_meta.metadata = Some("{\"object\":\"arr\",\"method\":\"map\"}".to_string());
    engine.add_nodes(vec![with_meta, node(2, "CALL", "bar")]);
    let mut evaluator = Evaluator::new(&engine);
    evaluator.add_rule(
        parse_rule(
            "violation(X) :- node(X, \"CALL\"), \\+ attr(X, \"object\", _), \\+ edge(X, _, \"CALLS\").",
        )
        .unwrap(),
    );
    let results = evaluator.query(&parse_atom("violation(X)").unwrap());
    assert_eq!(results.len(), 1);
    assert_eq!(results[0].get("X"), Some(&Value::Id(2)));
}

#[test]
fn delta_shadows_segment() {
    let mut engine = GraphEngine::create("db").unwrap();
    engine.add_nodes(vec![node(1, "FUNCTION", "old"), node(2, "FUNCTION", "other")]);
    engine.flush().unwrap();
    engine.add_nodes(vec![node(1, "CLASS", "new")]);
    let n = engine.get_node(1).unwrap();
    assert_eq!(n.name, Some("new".to_string()));
    assert_eq!(n.node_type, Some("CLASS".to_string()));
    assert_eq!(engine.find_by_type("FUNCTION"), vec![2]);
    assert_eq!(engine.find_by_type("CLASS"), vec![1]);
    // one record an id after the next flush
    let snapshot = engine.flush().unwrap().unwrap();
    let reopened = GraphEngine::open("db", Some(snapshot.nodes), Some(snapshot.edges)).unwrap();
    assert_eq!(reopened.node_count(), 2);
    assert_eq!(reopened.get_node(1).unwrap().name, Some("new".to_string()));
    assert_eq!(reopened.find_by_type("FUNCTION"), vec![2]);
}

#[test]
fn deleted_segment_node_is_unseen_until_it_is_elided() {
    let mut engine = GraphEngine::create("db").unwrap();
    let mut n = node(1, "EXTERNAL", "gone");
    n.metadata = Some("{\"k\":1}".to_string());
    engine.add_nodes(vec![n, node(2, "FUNCTION", "stays")]);
    engine.flush().unwrap();
    assert!(engine.is_endpoint(1));
    engine.delete_node(1);
    assert!(engine.get_node(1).is_none());
    assert!(!engine.node_exists(1));
    assert!(!engine.is_endpoint(1));
    assert_eq!(engine.get_node_identifier(1), None);
    assert_eq!(engine.find_by_type("EXTERNAL"), Vec::<u128>::new());
    assert_eq!(engine.find_by_attr(&AttrQuery::new()), vec![2]);
    assert_eq!(engine.get_node_strings(1), Some((None, None)));
    assert_eq!(engine.get_node_strings_with_metadata(1), Some((None, None, None)));
    assert_eq!(engine.count_nodes_by_type(None), vec![("FUNCTION".to_string(), 1)]);
    // the segment still holds it
    assert_eq!(engine.node_count(), 2);
    let snapshot = engine.flush().unwrap().unwrap();
    let reopened = GraphEngine::open("db", Some(snapshot.nodes), Some(snapshot.edges)).unwrap();
    assert_eq!(reopened.node_count(), 1);
    assert!(reopened.get_node(1).is_none());
}

#[test]
fn delete_node_in_delta_sets_its_tombstone() {
    let mut engine = GraphEngine::create("db").unwrap();
    engine.add_nodes(vec![node(1, "FUNCTION", "a")]);
    engine.delete_node(1);
    assert!(engine.get_node(1).is_none());
    assert_eq!(engine.node_count(), 1);
    assert_eq!(engine.find_by_type("FUNCTION"), Vec::<u128>::new());
    // adding it again brings it back
    engine.add_nodes(vec![node(1, "FUNCTION", "again")]);
    assert_eq!(engine.get_node(1).unwrap().name, Some("again".to_string()));
    assert_eq!(engine.node_count(), 1);
}

#[test]
fn edges_in_both_directions() {
    let mut engine = GraphEngine::create("db").unwrap();
    engine.add_nodes(vec![node(1, "F", "a"), node(2, "F", "b"), node(3, "F", "c")]);
    engine.add_edges(vec![edge(1, 2, "CALLS"), edge(3, 2, "IMPORTS")], false);
    engine.flush().unwrap();
    engine.add_edges(vec![edge(1, 3, "CALLS"), edge(1, 2, "CALLS"), edge(2, 1, "USES")], false);

    assert_eq!(engine.neighbors(1, &[]), vec![2, 3, 2]);
    assert_eq!(engine.neighbors(1, &["CALLS"]), vec![2, 3, 2]);
    assert_eq!(engine.neighbors(1, &["USES", "IMPORTS"]), Vec::<u128>::new());
    assert_eq!(engine.reverse_neighbors(2, &[]), vec![1, 3, 1]);
    assert_eq!(engine.reverse_neighbors(2, &["IMPORTS"]), vec![3]);

    // outgoing: the delta's edges first
    let out = engine.get_outgoing_edges(1, None);
    let ends: Vec<(u128, u128)> = out.iter().map(|e| (e.src, e.dst)).collect();
    assert_eq!(ends, vec![(1, 3), (1, 2), (1, 2)]);
    assert_eq!(out[2].version, "main");
    // an empty filter admits no type
    assert_eq!(engine.get_outgoing_edges(1, Some(&[])).len(), 0);
    assert_eq!(engine.get_outgoing_edges(1, Some(&["CALLS"])).len(), 3);
    // incoming: in index order
    let inc = engine.get_incoming_edges(2, None);
    let ends: Vec<(u128, u128)> = inc.iter().map(|e| (e.src, e.dst)).collect();
    assert_eq!(ends, vec![(1, 2), (3, 2), (1, 2)]);
    assert_eq!(engine.get_incoming_edges(2, Some(&["IMPORTS"])).len(), 1);

    // every edge once
    let all = engine.get_all_edges();
    let keys: Vec<(u128, u128, Option<String>)> =
        all.iter().map(|e| (e.src, e.dst, e.edge_type.clone())).collect();
    assert_eq!(
        keys,
        vec![
            (1, 3, Some("CALLS".to_string())),
            (1, 2, Some("CALLS".to_string())),
            (2, 1, Some("USES".to_string())),
            (3, 2, Some("IMPORTS".to_string())),
        ]
    );
    assert_eq!(
        engine.count_edges_by_type(None),
        vec![("CALLS".to_string(), 2), ("USES".to_string(), 1), ("IMPORTS".to_string(), 1)]
    );
    assert_eq!(
        engine.count_edges_by_type(Some(&["C*".to_string(), "USES".to_string()])),
        vec![("CALLS".to_string(), 2), ("USES".to_string(), 1)]
    );
    assert_eq!(engine.edge_count(), 5);
}

#[test]
fn delete_edge_marks_every_match_in_the_delta() {
    let mut engine = GraphEngine::create("db").unwrap();
    engine.add_edges(vec![edge(1, 2, "CALLS")], true);
    engine.flush().unwrap();
    engine.add_edges(vec![edge(1, 2, "CALLS"), edge(1, 2, "USES"), edge(1, 2, "CALLS")], true);
    engine.delete_edge(1, 2, "CALLS");
    // the segment's edge stays, the delta's two are gone
    assert_eq!(engine.neighbors(1, &["CALLS"]), vec![2]);
    assert_eq!(engine.neighbors(1, &[]), vec![2, 2]);
    assert_eq!(engine.edge_count(), 4);
    // no match: nothing happens
    engine.delete_edge(9, 9, "CALLS");
    assert_eq!(engine.neighbors(1, &[]), vec![2, 2]);
    let snapshot = engine.flush().unwrap().unwrap();
    let reopened = GraphEngine::open("db", Some(snapshot.nodes), Some(snapshot.edges)).unwrap();
    assert_eq!(reopened.edge_count(), 2);
    assert_eq!(reopened.neighbors(1, &["USES"]), vec![2]);
}

#[test]
fn counts_by_type() {
    let mut engine = GraphEngine::create("db").unwrap();
    let mut untyped = node(5, "x", "u");
    untyped.node_type = None;
    engine.add_nodes(vec![node(1, "FUNCTION", "a"), node(2, "http:route", "b")]);
    engine.flush().unwrap();
    engine.add_nodes(vec![node(3, "FUNCTION", "c"), node(2, "http:get", "b2"), untyped]);
    engine.delete_node(3);
    assert_eq!(
        engine.count_nodes_by_type(None),
        vec![("http:get".to_string(), 1), ("UNKNOWN".to_string(), 1), ("FUNCTION".to_string(), 1)]
    );
    assert_eq!(
        engine.count_nodes_by_type(Some(&["http:*".to_string()])),
        vec![("http:get".to_string(), 1)]
    );
    assert_eq!(engine.count_nodes_by_type(Some(&[])), vec![]);
}

#[test]
fn endpoints_and_identifiers() {
    let mut engine = GraphEngine::create("db").unwrap();
    let mut exported = node(1, "FUNCTION", "run");
    exported.exported = true;
    let mut nameless = node(4, "MODULE", "");
    nameless.name = None;
    let mut bare = node(5, "SERVICE", "");
    bare.name = None;
    bare.file = None;
    let mut only_name = node(6, "SERVICE", "svc");
    only_name.file = None;
    let mut untyped = node(7, "", "u");
    untyped.node_type = None;
    engine.add_nodes(vec![
        exported,
        node(2, "FUNCTION", "hidden"),
        node(3, "db:query", "q"),
        nameless,
        bare,
        only_name,
        untyped,
    ]);
    assert!(engine.is_endpoint(1));
    assert!(!engine.is_endpoint(2));
    assert!(engine.is_endpoint(3));
    assert!(!engine.is_endpoint(99));
    for t in ["http:request", "http:endpoint", "EXTERNAL", "fs:operation", "SIDE_EFFECT"] {
        engine.add_nodes(vec![node(50, t, "n")]);
        assert!(engine.is_endpoint(50));
    }
    assert_eq!(engine.get_node_identifier(1), Some("FUNCTION:run@f.js".to_string()));
    assert_eq!(engine.get_node_identifier(4), Some("MODULE:f.js".to_string()));
    assert_eq!(engine.get_node_identifier(5), Some("SERVICE:5".to_string()));
    assert_eq!(engine.get_node_identifier(6), Some("SERVICE:svc".to_string()));
    assert_eq!(engine.get_node_identifier(7), Some("UNKNOWN:u@f.js".to_string()));
    assert_eq!(engine.get_node_identifier(8), None);
    assert_eq!(
        engine.get_node_strings(1),
        Some((Some("f.js".to_string()), Some("run".to_string())))
    );
}

#[test]
fn versions() {
    let mut engine = GraphEngine::create("db").unwrap();
    let mut staged = node(2, "FUNCTION", "new");
    staged.version = "__local".to_string();
    staged.replaces = Some(1);
    engine.add_nodes(vec![node(1, "FUNCTION", "old"), staged, node(3, "CLASS", "c")]);
    let mut e = edge(2, 3, "CALLS");
    e.version = "__local".to_string();
    engine.add_edges(vec![e], false);
    assert_eq!(engine.get_nodes_by_version("__local"), vec![2]);
    assert_eq!(engine.get_nodes_by_version("main"), vec![1, 3]);
    engine.promote_local_to_main();
    assert!(engine.get_node(1).is_none());
    let n = engine.get_node(2).unwrap();
    assert_eq!(n.version, "main");
    assert_eq!(n.replaces, None);
    assert_eq!(engine.get_nodes_by_version("main"), vec![2, 3]);
    assert_eq!(engine.get_outgoing_edges(2, None)[0].version, "main");

    engine.update_node_version(3, "v2");
    assert_eq!(engine.get_node(3).unwrap().version, "v2");
    engine.update_node_version(77, "v2");
    engine.delete_version("main");
    assert!(engine.get_node(2).is_none());
    assert!(engine.get_node(3).is_some());
    assert_eq!(engine.neighbors(2, &[]), Vec::<u128>::new());
}

#[test]
fn clear_forgets_everything() {
    let mut engine = GraphEngine::create("db").unwrap();
    engine.add_nodes(vec![node(1, "F", "a")]);
    engine.add_edges(vec![edge(1, 1, "SELF")], false);
    engine.flush().unwrap();
    engine.add_nodes(vec![node(2, "F", "b")]);
    engine.clear();
    assert_eq!(engine.node_count(), 0);
    assert_eq!(engine.edge_count(), 0);
    assert!(engine.get_node(1).is_none());
    assert_eq!(engine.neighbors(1, &[]), Vec::<u128>::new());
    assert_eq!(engine.ops_since_flush, 0);
    assert!(engine.flush().unwrap().is_none());
}

#[test]
fn open_rejects_a_bad_image() {
    assert!(matches!(
        GraphEngine::open("db", Some(vec![1, 2, 3]), None),
        Err(GraphError::InvalidFormat(_))
    ));
    assert!(matches!(
        GraphEngine::open("db", None, Some(b"SGRFxxxxxxxxxxxxxxxxxxxxxxxxxxxxxxxx".to_vec())),
        Err(GraphError::InvalidFormat(_))
    ));
    let e = GraphEngine::open("db", None, None).unwrap();
    assert_eq!(e.node_count(), 0);
}

#[test]
fn traversal_on_the_engine() {
    let mut engine = GraphEngine::create("db").unwrap();
    engine.add_edges(
        vec![edge(1, 2, "CALLS"), edge(2, 3, "CALLS"), edge(1, 4, "USES"), edge(4, 5, "CALLS")],
        true,
    );
    assert_eq!(engine.bfs(&[1], 0, &[]), vec![1]);
    assert_eq!(engine.bfs(&[1], 1, &[]), vec![1, 2, 4]);
    assert_eq!(engine.bfs(&[1], 5, &["CALLS"]), vec![1, 2, 3]);
    assert_eq!(engine.dfs(&[1], 5, &[]), vec![1, 4, 5, 2, 3]);
    assert_eq!(engine.reachability(&[5], 5, &[], true), vec![5, 4, 1]);
    assert_eq!(engine.reachability(&[5], 5, &[], false), vec![5]);
    assert_eq!(GraphStore::bfs(&engine, &[1], 1, &[]), vec![1, 2, 4]);
    assert_eq!(GraphStore::neighbors(&engine, 1, &[]), vec![2, 4]);
}

#[test]
fn auto_flush_policy() {
    let mut engine = GraphEngine::create("db").unwrap();
    assert_eq!(engine.auto_flush_step(100), AutoFlush::ProbeMemory);
    assert_eq!(engine.auto_flush_step(104), AutoFlush::Nothing);
    assert_eq!(engine.auto_flush_step(105), AutoFlush::ProbeMemory);
    assert_eq!(engine.auto_flush_step(105), AutoFlush::Nothing);
    engine.ops_since_flush = usize::MAX;
    assert_eq!(engine.auto_flush_step(500), AutoFlush::Flush);
    assert!(memory_asks_flush(80, 100));
    assert!(!memory_asks_flush(79, 100));
    assert!(!memory_asks_flush(0, 0));
    assert!(memory_asks_flush(u64::MAX, u64::MAX));
}

#[test]
fn error_messages() {
    assert_eq!(GraphError::NodeNotFound(7).message(), "Node not found: 7");
    assert_eq!(GraphError::EdgeNotFound { src: 1, dst: 20 }.message(), "Edge not found: 1 -> 20");
    assert_eq!(GraphError::Io("disk".to_string()).message(), "IO error: disk");
    assert_eq!(GraphError::Serialization("s".to_string()).message(), "Serialization error: s");
    assert_eq!(GraphError::Json("j".to_string()).message(), "JSON error: j");
    assert_eq!(GraphError::Index("i".to_string()).message(), "Index error: i");
    assert_eq!(GraphError::InvalidFormat("f".to_string()).message(), "Invalid file format: f");
    assert_eq!(GraphError::Compaction("c".to_string()).message(), "Compaction error: c");
    assert_eq!(GraphError::DeltaLogOverflow(10).message(), "Delta log overflow (>10 entries)");
}
