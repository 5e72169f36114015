use rfdb::analysis::{
    absorb, contains_text, detect_side_effect, extract_napi_info, receiver_text, Found, NapiInfo,
};
use rfdb::session::{query_next_node, u128_to_words, words_to_u128, RuleSet};
use rfdb::worker::{
    execute_check_guarantee, execute_datalog_query, run_command, Command, Reply,
};
use rfdb::{AttrQuery, EdgeRecord, GraphEngine, NodeRecord};

fn node(id: u128, node_type: &str, name: &str) -> NodeRecord {
    NodeRecord {
        id,
        node_type: Some(node_type.to_string()),
        file_id: 0,
        name_offset: 0,
        version: "main".to_string(),
        exported: false,
        replaces: None,
        deleted: false,
        name: Some(name.to_string()),
        file: Some("f.js".to_string()),
        metadata: None,
    }
}

fn edge(src: u128, dst: u128, edge_type: &str) -> EdgeRecord {
    EdgeRecord {
        src,
        dst,
        edge_type: Some(edge_type.to_string()),
        version: "main".to_string(),
        metadata: None,
        deleted: false,
    }
}

fn effect(call_type: &str, name: Option<&str>, method: Option<&str>) -> Option<String> {
    detect_side_effect(call_type, name, method)
}

#[test]
fn test_bigint_conversion() {
    let id: u128 = 123456789012345678901234567890;
    let (low, high) = u128_to_words(id);
    let converted = words_to_u128(&[low, high]);
    assert_eq!(id, converted);
}

#[test]
fn words_of_an_id() {
    assert_eq!(u128_to_words(0), (0, 0));
    assert_eq!(u128_to_words(u64::MAX as u128), (u64::MAX, 0));
    assert_eq!(u128_to_words(1u128 << 64), (0, 1));
    assert_eq!(u128_to_words(u128::MAX), (u64::MAX, u64::MAX));
    assert_eq!(words_to_u128(&[]), 0);
    assert_eq!(words_to_u128(&[7]), 7);
    assert_eq!(words_to_u128(&[7, 1]), (1u128 << 64) + 7);
    assert_eq!(words_to_u128(&[7, 1, 99]), (1u128 << 64) + 7);
    assert_eq!(words_to_u128(&[u64::MAX, u64::MAX]), u128::MAX);
}

#[test]
fn side_effects_by_path() {
    assert_eq!(effect("function", Some("std::fs::read_to_string"), None), Some("fs:read".to_string()));
    assert_eq!(effect("function", Some("std::fs::remove_dir_all"), None), Some("fs:write".to_string()));
    assert_eq!(effect("function", Some("std::fs::File::open"), None), Some("fs:other".to_string()));
    assert_eq!(effect("function", Some("std::fs::"), None), Some("fs:other".to_string()));
    assert_eq!(effect("function", Some("std::net::TcpStream::connect"), None), Some("net:request".to_string()));
    assert_eq!(effect("function", Some("reqwest::get"), None), Some("net:request".to_string()));
    assert_eq!(effect("function", Some("hyper::Client::new"), None), Some("net:request".to_string()));
    assert_eq!(effect("function", Some("tokio::net::TcpListener::bind"), None), Some("net:request".to_string()));
    assert_eq!(effect("function", Some("std::io::stdin"), None), Some("io:stream".to_string()));
    assert_eq!(effect("function", Some("std::env::var"), None), Some("env:read".to_string()));
    assert_eq!(effect("function", Some("std::env::set_var"), None), Some("env:write".to_string()));
    assert_eq!(effect("function", Some("std::env::args"), None), Some("env:other".to_string()));
    assert_eq!(effect("function", Some("std::process::exit"), None), Some("process:spawn".to_string()));
    assert_eq!(effect("function", Some("std::thread::spawn"), None), Some("thread:spawn".to_string()));
    assert_eq!(effect("function", Some("fs::read"), None), None);
    assert_eq!(effect("function", Some("std::fs"), None), None);
    assert_eq!(effect("function", Some("panic!"), None), None);
    assert_eq!(effect("function", None, None), None);
}

#[test]
fn side_effects_of_macros_and_methods() {
    assert_eq!(effect("macro", Some("panic!"), None), Some("panic".to_string()));
    assert_eq!(effect("macro", Some("unreachable!"), None), Some("panic".to_string()));
    assert_eq!(effect("macro", Some("eprintln!"), None), Some("io:print".to_string()));
    assert_eq!(effect("macro", Some("dbg!"), None), Some("io:debug".to_string()));
    assert_eq!(effect("macro", Some("vec!"), None), None);
    assert_eq!(effect("macro", Some("panic"), None), None);
    assert_eq!(effect("method", None, Some("unwrap")), Some("panic".to_string()));
    assert_eq!(effect("method", None, Some("read")), Some("io:read".to_string()));
    assert_eq!(effect("method", None, Some("write")), Some("io:write".to_string()));
    assert_eq!(effect("method", None, Some("flush")), Some("io:write".to_string()));
    assert_eq!(effect("method", None, Some("accept")), Some("net:socket".to_string()));
    assert_eq!(effect("method", None, Some("delete")), Some("net:http".to_string()));
    assert_eq!(effect("method", None, Some("lock")), Some("sync:lock".to_string()));
    assert_eq!(effect("method", None, Some("notify_all")), Some("sync:condvar".to_string()));
    assert_eq!(effect("method", None, Some("len")), None);
    // the path is asked first, the method only where the path says nothing
    assert_eq!(effect("macro", Some("vec!"), Some("unwrap")), Some("panic".to_string()));
    assert_eq!(effect("function", Some("std::io::x"), Some("unwrap")), Some("io:stream".to_string()));
}

#[test]
fn receivers() {
    assert_eq!(receiver_text(false, false), "self");
    assert_eq!(receiver_text(false, true), "self");
    assert_eq!(receiver_text(true, false), "&self");
    assert_eq!(receiver_text(true, true), "&mut self");
}

#[test]
fn text_within_text() {
    assert!(contains_text("a constructor b", "constructor"));
    assert!(contains_text("constructor", "constructor"));
    assert!(contains_text("xconstructor", "constructor"));
    assert!(!contains_text("constructo", "constructor"));
    assert!(!contains_text("", "c"));
    assert!(contains_text("", ""));
    assert!(contains_text("abc", ""));
    assert!(contains_text("aab", "ab"));
}

#[test]
fn binding_attributes() {
    let none = extract_napi_info(&[]);
    assert!(!none.is_napi);
    assert_eq!(none.js_name, None);

    let bare = extract_napi_info(&[None]);
    assert!(bare.is_napi);
    assert!(!bare.constructor);
    assert_eq!(bare.getter, None);

    let named = extract_napi_info(&[Some("js_name = \"addNodes\"".to_string())]);
    assert!(named.is_napi);
    assert_eq!(named.js_name, Some("addNodes".to_string()));
    assert!(!named.constructor);

    let spaced = extract_napi_info(&[Some("constructor , js_name=\"New\"".to_string())]);
    assert!(spaced.constructor);
    assert_eq!(spaced.js_name, Some("New".to_string()));

    let getter = extract_napi_info(&[Some("getter".to_string())]);
    assert_eq!(getter.getter, Some(String::new()));
    assert_eq!(getter.setter, None);

    let both = extract_napi_info(&[
        Some("getter = \"size\"".to_string()),
        None,
        Some("setter = \"size\" , js_name = \"\"".to_string()),
    ]);
    assert_eq!(both.getter, Some("size".to_string()));
    assert_eq!(both.setter, Some("size".to_string()));
    assert_eq!(both.js_name, None);

    // a later attribute overrides an earlier one
    let twice = extract_napi_info(&[
        Some("js_name = \"a\", getter = \"x\"".to_string()),
        Some("js_name = \"b\", getter".to_string()),
    ]);
    assert_eq!(twice.js_name, Some("b".to_string()));
    assert_eq!(twice.getter, Some(String::new()));
}

#[test]
fn one_more_attribute() {
    let before = NapiInfo {
        is_napi: false,
        js_name: Some("old".to_string()),
        constructor: false,
        getter: Some("g".to_string()),
        setter: None,
    };
    let found = Found { js_name: None, getter: None, setter: Some("s".to_string()) };
    let after = absorb(before, "setter = \"s\", constructor, getter", found);
    assert!(after.is_napi);
    assert_eq!(after.js_name, Some("old".to_string()));
    assert!(after.constructor);
    // the key word is there, no name behind it
    assert_eq!(after.getter, Some(String::new()));
    assert_eq!(after.setter, Some("s".to_string()));

    let before = NapiInfo {
        is_napi: true,
        js_name: None,
        constructor: true,
        getter: Some("g".to_string()),
        setter: None,
    };
    // a name that was found counts only where the key word stands in the tokens
    let found = Found { js_name: Some("n".to_string()), getter: Some("x".to_string()), setter: None };
    let after = absorb(before, "", found);
    assert_eq!(after.js_name, Some("n".to_string()));
    assert!(after.constructor);
    assert_eq!(after.getter, Some("g".to_string()));
    assert_eq!(after.setter, None);
}

#[test]
fn cursor_through_a_query() {
    let mut engine = GraphEngine::create("db").unwrap();
    let mut blank = node(2, "FUNCTION", "");
    blank.metadata = Some(String::new());
    engine.add_nodes(vec![node(1, "FUNCTION", "a"), blank, node(3, "CLASS", "c")]);
    let query = AttrQuery::new().node_type("FUNCTION");
    let first = query_next_node(&engine, &query, None);
    assert_eq!(first.node.as_ref().unwrap().id, 1);
    assert_eq!(first.node.as_ref().unwrap().name, Some("a".to_string()));
    assert_eq!(first.next_cursor, Some(1));
    let second = query_next_node(&engine, &query, first.next_cursor);
    let n = second.node.unwrap();
    assert_eq!(n.id, 2);
    assert_eq!(n.name, None);
    assert_eq!(n.metadata, None);
    assert_eq!(n.file, Some("f.js".to_string()));
    assert_eq!(second.next_cursor, None);
    let behind = query_next_node(&engine, &query, Some(2));
    assert!(behind.node.is_none());
    assert_eq!(behind.next_cursor, None);
    let zero = query_next_node(&engine, &query, Some(0));
    assert_eq!(zero.node.unwrap().id, 1);
    let nothing = query_next_node(&engine, &AttrQuery::new().name("zzz"), None);
    assert!(nothing.node.is_none());
}

#[test]
fn loaded_rules() {
    let mut engine = GraphEngine::create("db").unwrap();
    engine.add_nodes(vec![node(1, "FUNCTION", "a"), node(2, "CLASS", "b")]);
    let mut rules = RuleSet::new();
    assert_eq!(rules.len(), 0);
    assert_eq!(rules.load("fun(X) :- node(X, \"FUNCTION\")."), Ok(1));
    assert_eq!(rules.load("cls(X) :- node(X, \"CLASS\"). both(X) :- fun(X). both(X) :- cls(X)."), Ok(3));
    assert_eq!(rules.len(), 4);
    assert_eq!(
        rules.load("broken("),
        Err("Datalog parse error: Parse error at 7: unexpected end".to_string())
    );
    assert_eq!(rules.len(), 4);
    let answers = rules.query(&engine, "both(X)").unwrap();
    assert_eq!(
        answers,
        vec![
            vec![("X".to_string(), "1".to_string())],
            vec![("X".to_string(), "2".to_string())],
        ]
    );
    assert_eq!(
        rules.query(&engine, "both(X"),
        Err("Datalog parse error: Parse error at 6: expected ')'".to_string())
    );
    rules.clear();
    assert_eq!(rules.len(), 0);
    assert_eq!(rules.query(&engine, "both(X)").unwrap().len(), 0);
}

#[test]
fn programs_with_a_goal() {
    let mut engine = GraphEngine::create("db").unwrap();
    engine.add_nodes(vec![node(1, "FUNCTION", "a"), node(2, "CLASS", "b")]);
    // the head of the first rule named `query` is the goal
    let r = execute_datalog_query(
        &engine,
        "fun(X) :- node(X, \"FUNCTION\"). query(Y) :- node(Y, \"CLASS\"). query(Z) :- fun(Z).",
        false,
    )
    .unwrap();
    assert_eq!(
        r.bindings,
        vec![
            vec![("Y".to_string(), "2".to_string())],
            vec![("Y".to_string(), "1".to_string())],
        ]
    );
    assert_eq!(r.stats.total_results, 2);
    assert!(r.explain_steps.is_empty());
    // without one, the head of the first rule
    let r = execute_datalog_query(&engine, "fun(X) :- node(X, \"FUNCTION\").", true).unwrap();
    assert_eq!(r.bindings, vec![vec![("X".to_string(), "1".to_string())]]);
    assert!(!r.explain_steps.is_empty());
    assert_eq!(
        execute_datalog_query(&engine, " % nothing", false).unwrap_err(),
        "No rules found in program"
    );
    assert_eq!(
        execute_datalog_query(&engine, "p(", false).unwrap_err(),
        "Datalog parse error: Parse error at 2: unexpected end"
    );
    let r = execute_check_guarantee(&engine, "violation(X) :- node(X, \"CLASS\").", false).unwrap();
    assert_eq!(r.bindings, vec![vec![("X".to_string(), "2".to_string())]]);
    let r = execute_check_guarantee(&engine, "", false).unwrap();
    assert!(r.bindings.is_empty());
    assert!(execute_check_guarantee(&engine, "violation(X) :-", true).is_err());
}

#[test]
fn commands() {
    let mut engine = GraphEngine::create("db").unwrap();
    assert!(matches!(
        run_command(&mut engine, Command::AddNodes { nodes: vec![node(1, "F", "a"), node(2, "F", "b")] }),
        Reply::Done
    ));
    assert!(matches!(
        run_command(
            &mut engine,
            Command::AddEdges { edges: vec![edge(1, 2, "CALLS"), edge(1, 9, "CALLS")], skip_validation: false }
        ),
        Reply::Done
    ));
    match run_command(&mut engine, Command::Neighbors { id: 1, edge_types: vec!["CALLS".to_string()] }) {
        Reply::Ids(ids) => assert_eq!(ids, vec![2]),
        other => panic!("{:?}", other),
    }
    match run_command(&mut engine, Command::GetNode { id: 2 }) {
        Reply::Node(Some(n)) => assert_eq!(n.name, Some("b".to_string())),
        other => panic!("{:?}", other),
    }
    match run_command(&mut engine, Command::NodeExists { id: 3 }) {
        Reply::Flag(b) => assert!(!b),
        other => panic!("{:?}", other),
    }
    match run_command(&mut engine, Command::GetNodeIdentifier { id: 1 }) {
        Reply::Identifier(s) => assert_eq!(s, Some("F:a@f.js".to_string())),
        other => panic!("{:?}", other),
    }
    match run_command(&mut engine, Command::FindByAttr { query: AttrQuery::new().name("b") }) {
        Reply::Ids(ids) => assert_eq!(ids, vec![2]),
        other => panic!("{:?}", other),
    }
    match run_command(&mut engine, Command::FindByType { node_type: "F*".to_string() }) {
        Reply::Ids(ids) => assert_eq!(ids, vec![1, 2]),
        other => panic!("{:?}", other),
    }
    match run_command(&mut engine, Command::Bfs { start_ids: vec![1], max_depth: 3, edge_types: vec![] }) {
        Reply::Ids(ids) => assert_eq!(ids, vec![1, 2]),
        other => panic!("{:?}", other),
    }
    match run_command(&mut engine, Command::GetOutgoingEdges { node_id: 1, edge_types: None }) {
        Reply::Edges(edges) => assert_eq!(edges.len(), 1),
        other => panic!("{:?}", other),
    }
    match run_command(&mut engine, Command::GetIncomingEdges { node_id: 2, edge_types: Some(vec![]) }) {
        Reply::Edges(edges) => assert_eq!(edges.len(), 0),
        other => panic!("{:?}", other),
    }
    match run_command(&mut engine, Command::GetAllEdges) {
        Reply::Edges(edges) => assert_eq!(edges.len(), 1),
        other => panic!("{:?}", other),
    }
    match run_command(&mut engine, Command::IsEndpoint { id: 1 }) {
        Reply::Flag(b) => assert!(!b),
        other => panic!("{:?}", other),
    }
    match run_command(&mut engine, Command::GetNodeStringsWithMetadata { id: 1 }) {
        Reply::Strings(s) => {
            assert_eq!(s, Some((Some("f.js".to_string()), Some("a".to_string()), None)))
        },
        other => panic!("{:?}", other),
    }
    match run_command(&mut engine, Command::NodeCount) {
        Reply::Count(n) => assert_eq!(n, 2),
        other => panic!("{:?}", other),
    }
    match run_command(&mut engine, Command::EdgeCount) {
        Reply::Count(n) => assert_eq!(n, 1),
        other => panic!("{:?}", other),
    }
    match run_command(&mut engine, Command::CountNodesByType { types: None }) {
        Reply::Counts(c) => assert_eq!(c, vec![("F".to_string(), 2)]),
        other => panic!("{:?}", other),
    }
    match run_command(&mut engine, Command::CountEdgesByType { edge_types: Some(vec!["X".to_string()]) }) {
        Reply::Counts(c) => assert_eq!(c, vec![]),
        other => panic!("{:?}", other),
    }
    match run_command(
        &mut engine,
        Command::CheckGuarantee { rule_source: "violation(X) :- node(X, \"F\").".to_string(), explain: false },
    ) {
        Reply::Answers(Ok(r)) => assert_eq!(r.bindings.len(), 2),
        other => panic!("{:?}", other),
    }
    match run_command(
        &mut engine,
        Command::DatalogQuery { rule_source: "".to_string(), explain: false },
    ) {
        Reply::Answers(Err(e)) => assert_eq!(e, "No rules found in program"),
        other => panic!("{:?}", other),
    }
    match run_command(&mut engine, Command::DeleteEdge { src: 1, dst: 2, edge_type: "CALLS".to_string() }) {
        Reply::Done => assert_eq!(engine.neighbors(1, &[]), Vec::<u128>::new()),
        other => panic!("{:?}", other),
    }
    match run_command(&mut engine, Command::DeleteNode { id: 2 }) {
        Reply::Done => assert!(!engine.node_exists(2)),
        other => panic!("{:?}", other),
    }
    match run_command(&mut engine, Command::Flush) {
        Reply::Flushed(Ok(Some(snapshot))) => assert_eq!(&snapshot.edges[0..4], b"SGRF"),
        other => panic!("{:?}", other),
    }
    match run_command(&mut engine, Command::Compact) {
        Reply::Flushed(Ok(None)) => {},
        other => panic!("{:?}", other),
    }
    run_command(&mut engine, Command::AddNodes { nodes: vec![node(5, "F", "e")] });
    match run_command(&mut engine, Command::Shutdown) {
        Reply::Stopped(Ok(Some(snapshot))) => {
            let reopened =
                GraphEngine::open("db", Some(snapshot.nodes), Some(snapshot.edges)).unwrap();
            assert_eq!(reopened.find_by_type("F"), vec![1, 5]);
        },
        other => panic!("{:?}", other),
    }
}
