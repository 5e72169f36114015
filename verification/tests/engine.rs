use rfdb::{EdgeRecord, GraphEngine, NodeRecord};

fn make_test_node(id: u128, name: &str, node_type: &str) -> NodeRecord {
    NodeRecord {
        id,
        node_type: Some(node_type.to_string()),
        file_id: 0,
        name_offset: 0,
        version: "main".to_string(),
        exported: false,
        replaces: None,
        deleted: false,
        name: Some(name.to_string()),
        file: Some("test.js".to_string()),
        metadata: None,
    }
}

fn make_test_edge(src: u128, dst: u128, edge_type: &str) -> EdgeRecord {
    EdgeRecord {
        src,
        dst,
        edge_type: Some(edge_type.to_string()),
        version: "main".to_string(),
        metadata: None,
        deleted: false,
    }
}

#[test]
fn test_create_database_with_extension_normalization() {
    let db_path_without_ext = "data/testdb";
    let db_path_with_wrong_ext = "data/testdb2.db";

    // Test 1: Create without extension
    {
        let engine = GraphEngine::create(db_path_without_ext).unwrap();
        assert_eq!(engine.path().rsplit('.').next(), Some("rfdb"));
        assert!(engine.path().ends_with("testdb.rfdb"));
    }

    // Test 2: Create with wrong extension
    {
        let engine = GraphEngine::create(db_path_with_wrong_ext).unwrap();
        assert_eq!(engine.path().rsplit('.').next(), Some("rfdb"));
        assert!(engine.path().ends_with("testdb2.rfdb"));
    }

    // Test 3: Open database that was created without extension
    {
        let engine = GraphEngine::open(db_path_without_ext, None, None).unwrap();
        assert_eq!(engine.path().rsplit('.').next(), Some("rfdb"));
    }
}

#[test]
fn test_open_database_with_extension_normalization() {
    let db_path_no_ext = "data/opentest";
    let db_path_with_ext = "data/opentest.rfdb";

    // Create a database with the correct extension
    let snapshot = {
        let mut engine = GraphEngine::create(db_path_with_ext).unwrap();
        // Add a node and flush to get the images
        let node = NodeRecord {
            id: 1,
            node_type: Some("TEST".to_string()),
            file_id: 0,
            name_offset: 0,
            version: "main".to_string(),
            exported: false,
            replaces: None,
            deleted: false,
            name: Some("test_node".to_string()),
            file: None,
            metadata: None,
        };
        engine.add_nodes(vec![node]);
        engine.flush().unwrap().unwrap()
    };

    // Test opening with path without extension
    {
        let engine = GraphEngine::open(
            db_path_no_ext,
            Some(snapshot.nodes.clone()),
            Some(snapshot.edges.clone()),
        )
        .unwrap();
        assert_eq!(engine.path().rsplit('.').next(), Some("rfdb"));
        assert_eq!(engine.node_count(), 1);
    }

    // Test opening with path with correct extension
    {
        let engine =
            GraphEngine::open(db_path_with_ext, Some(snapshot.nodes), Some(snapshot.edges)).unwrap();
        assert_eq!(engine.path().rsplit('.').next(), Some("rfdb"));
        assert_eq!(engine.node_count(), 1);
    }
}

#[test]
fn test_reverse_adjacency_basic() {
    // Graph: A --CALLS--> B, C --CALLS--> B, D --IMPORTS--> B
    // reverse_neighbors(B, ["CALLS"]) should return [A, C] (not D)
    let db_path = "test_reverse_adj";

    let mut engine = GraphEngine::create(db_path).unwrap();

    let [a, b, c, d]: [u128; 4] = [1, 2, 3, 4];

    engine.add_nodes(vec![
        make_test_node(a, "funcA", "FUNCTION"),
        make_test_node(b, "funcB", "FUNCTION"),
        make_test_node(c, "funcC", "FUNCTION"),
        make_test_node(d, "moduleD", "MODULE"),
    ]);

    engine.add_edges(vec![
        make_test_edge(a, b, "CALLS"),
        make_test_edge(c, b, "CALLS"),
        make_test_edge(d, b, "IMPORTS"),
    ], false);

    let callers = engine.reverse_neighbors(b, &["CALLS"]);

    assert_eq!(callers.len(), 2);
    assert!(callers.contains(&a));
    assert!(callers.contains(&c));
    assert!(!callers.contains(&d));

    // Empty filter returns all
    let all_sources = engine.reverse_neighbors(b, &[]);
    assert_eq!(all_sources.len(), 3);
}

#[test]
fn test_reachability_forward() {
    // Graph: A -> B -> C -> D -> E
    // reachability([A], 2, [], false) = [A, B, C]
    let mut engine = GraphEngine::create("test").unwrap();

    let [a, b, c, d, e]: [u128; 5] = [1, 2, 3, 4, 5];

    engine.add_nodes(vec![
        make_test_node(a, "A", "FUNCTION"),
        make_test_node(b, "B", "FUNCTION"),
        make_test_node(c, "C", "FUNCTION"),
        make_test_node(d, "D", "FUNCTION"),
        make_test_node(e, "E", "FUNCTION"),
    ]);

    engine.add_edges(vec![
        make_test_edge(a, b, "CALLS"),
        make_test_edge(b, c, "CALLS"),
        make_test_edge(c, d, "CALLS"),
        make_test_edge(d, e, "CALLS"),
    ], false);

    let result_2 = engine.reachability(&[a], 2, &[], false);
    assert_eq!(result_2.len(), 3);
    assert!(result_2.contains(&a) && result_2.contains(&b) && result_2.contains(&c));

    let result_10 = engine.reachability(&[a], 10, &[], false);
    assert_eq!(result_10.len(), 5);
}

#[test]
fn test_reachability_backward() {
    // Graph: A -> D, B -> D, C -> D
    // reachability([D], 1, [], true) = [D, A, B, C]
    let mut engine = GraphEngine::create("test").unwrap();

    let [a, b, c, d]: [u128; 4] = [1, 2, 3, 4];

    engine.add_nodes(vec![
        make_test_node(a, "A", "FUNCTION"),
        make_test_node(b, "B", "FUNCTION"),
        make_test_node(c, "C", "FUNCTION"),
        make_test_node(d, "D", "FUNCTION"),
    ]);

    engine.add_edges(vec![
        make_test_edge(a, d, "CALLS"),
        make_test_edge(b, d, "CALLS"),
        make_test_edge(c, d, "CALLS"),
    ], false);

    let result = engine.reachability(&[d], 1, &[], true);
    assert_eq!(result.len(), 4);
    assert!(result.contains(&d) && result.contains(&a) && result.contains(&b) && result.contains(&c));
}

#[test]
fn test_reachability_with_cycles() {
    // Diamond: A->B, A->C, B->D, C->D
    // Each node should appear exactly once
    let mut engine = GraphEngine::create("test").unwrap();

    let [a, b, c, d]: [u128; 4] = [1, 2, 3, 4];

    engine.add_nodes(vec![
        make_test_node(a, "A", "FUNCTION"),
        make_test_node(b, "B", "FUNCTION"),
        make_test_node(c, "C", "FUNCTION"),
        make_test_node(d, "D", "FUNCTION"),
    ]);

    engine.add_edges(vec![
        make_test_edge(a, b, "CALLS"),
        make_test_edge(a, c, "CALLS"),
        make_test_edge(b, d, "CALLS"),
        make_test_edge(c, d, "CALLS"),
    ], false);

    let forward = engine.reachability(&[a], 10, &[], false);
    assert_eq!(forward.len(), 4);

    let backward = engine.reachability(&[d], 10, &[], true);
    assert_eq!(backward.len(), 4);
}

#[test]
fn test_reverse_adjacency_persists_after_flush() {
    let db_path = "test";

    let [a, b, c]: [u128; 3] = [1, 2, 3];

    let snapshot = {
        let mut engine = GraphEngine::create(db_path).unwrap();
        engine.add_nodes(vec![
            make_test_node(a, "A", "FUNCTION"),
            make_test_node(b, "B", "FUNCTION"),
            make_test_node(c, "C", "FUNCTION"),
        ]);
        engine.add_edges(vec![
            make_test_edge(a, c, "CALLS"),
            make_test_edge(b, c, "CALLS"),
        ], false);
        engine.flush().unwrap().unwrap()
    };

    {
        let engine = GraphEngine::open(db_path, Some(snapshot.nodes), Some(snapshot.edges)).unwrap();
        let callers = engine.reverse_neighbors(c, &["CALLS"]);
        assert_eq!(callers.len(), 2);
    }
}

#[test]
fn test_reachability_edge_type_filter() {
    // A --CALLS--> B, A --IMPORTS--> C, B --CALLS--> D
    // reachability([A], 10, ["CALLS"], false) = [A, B, D] (not C)
    let mut engine = GraphEngine::create("test").unwrap();

    let [a, b, c, d]: [u128; 4] = [1, 2, 3, 4];

    engine.add_nodes(vec![
        make_test_node(a, "A", "FUNCTION"),
        make_test_node(b, "B", "FUNCTION"),
        make_test_node(c, "C", "MODULE"),
        make_test_node(d, "D", "FUNCTION"),
    ]);

    engine.add_edges(vec![
        make_test_edge(a, b, "CALLS"),
        make_test_edge(a, c, "IMPORTS"),
        make_test_edge(b, d, "CALLS"),
    ], false);

    let result = engine.reachability(&[a], 10, &["CALLS"], false);
    assert_eq!(result.len(), 3);
    assert!(!result.contains(&c));
}

#[test]
fn test_reachability_backward_with_filter() {
    // Test: Backward traversal with edge type filtering
    //
    // Graph: A --PASSES_ARGUMENT--> Z
    //        B --CALLS--> Z
    //
    // reachability([Z], 1, ["PASSES_ARGUMENT"], backward=true)
    //   should return [Z, A] (not B because edge type differs)
    let mut engine = GraphEngine::create("test").unwrap();

    let [a, b, z]: [u128; 3] = [1, 2, 3];

    engine.add_nodes(vec![
        make_test_node(a, "A", "FUNCTION"),
        make_test_node(b, "B", "FUNCTION"),
        make_test_node(z, "Z", "FUNCTION"),
    ]);

    engine.add_edges(vec![
        make_test_edge(a, z, "PASSES_ARGUMENT"),
        make_test_edge(b, z, "CALLS"),
    ], false);

    // Backward from Z, filtering only PASSES_ARGUMENT edges
    let result = engine.reachability(&[z], 10, &["PASSES_ARGUMENT"], true);

    assert_eq!(result.len(), 2, "Should find Z and A only");
    assert!(result.contains(&z), "Z (start) should be included");
    assert!(result.contains(&a), "A should be found (PASSES_ARGUMENT edge)");
    assert!(!result.contains(&b), "B should NOT be found (CALLS edge filtered out)");
}

#[test]
fn test_reachability_empty_start() {
    let engine = GraphEngine::create("test").unwrap();

    let forward = engine.reachability(&[], 10, &[], false);
    assert!(forward.is_empty());

    let backward = engine.reachability(&[], 10, &[], true);
    assert!(backward.is_empty());
}

#[test]
fn test_reachability_depth_zero() {
    let mut engine = GraphEngine::create("test").unwrap();

    let [a, b]: [u128; 2] = [1, 2];

    engine.add_nodes(vec![
        make_test_node(a, "A", "FUNCTION"),
        make_test_node(b, "B", "FUNCTION"),
    ]);
    engine.add_edges(vec![make_test_edge(a, b, "CALLS")], false);

    let result = engine.reachability(&[a], 0, &[], false);
    assert_eq!(result.len(), 1);
    assert!(result.contains(&a));
}

#[test]
fn test_reachability_nonexistent_start() {
    let engine = GraphEngine::create("test").unwrap();

    // Non-existent node ID should still be returned (start node included)
    // but no neighbors
    let result = engine.reachability(&[999], 10, &[], false);
    assert_eq!(result.len(), 1);
    assert!(result.contains(&999));
}
