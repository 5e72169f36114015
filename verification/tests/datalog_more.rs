use rfdb::datalog::{
    parse_atom, parse_literal, parse_program, parse_rule, parse_term, Atom, Bindings, Evaluator,
    EvaluatorExplain, Literal, Rule, Term, Value,
};
use rfdb::datalog::json::{attribute_text, JsonField};
use rfdb::wire::{
    execute_check_guarantee, execute_datalog_load_rules, execute_datalog_query, handle_request,
    Request, Response, WireAttrQuery, WireEdge, WireNode,
};
use rfdb::{EdgeRecord, GraphEngine, NodeRecord};

fn node(id: u128, node_type: &str, name: &str, metadata: Option<&str>) -> NodeRecord {
    NodeRecord {
        id,
        node_type: Some(node_type.to_string()),
        file_id: 0,
        name_offset: 0,
        version: "main".to_string(),
        exported: false,
        replaces: None,
        deleted: false,
        name: Some(name.to_string()),
        file: Some("f.js".to_string()),
        metadata: metadata.map(|m| m.to_string()),
    }
}

fn edge(src: u128, dst: u128, edge_type: &str) -> EdgeRecord {
    EdgeRecord {
        src,
        dst,
        edge_type: Some(edge_type.to_string()),
        version: "main".to_string(),
        metadata: None,
        deleted: false,
    }
}

fn graph() -> GraphEngine {
    let mut engine = GraphEngine::create("db").unwrap();
    engine.add_nodes(vec![
        node(1, "FUNCTION", "main", Some("{\"async\":true,\"line\":12,\"tag\":\"x\",\"n\":null}")),
        node(2, "FUNCTION", "helper", Some("not json")),
        node(3, "CLASS", "<anonymous>", None),
    ]);
    engine.add_edges(vec![edge(1, 2, "CALLS"), edge(2, 3, "USES"), edge(3, 1, "CALLS")], false);
    engine
}

fn var(b: &Bindings, name: &str) -> Option<Value> {
    b.get(name).cloned()
}

#[test]
fn parse_errors_have_a_place_and_a_message() {
    let e = parse_rule("invalid syntax here").unwrap_err();
    assert_eq!(e.position, 8);
    assert_eq!(e.message, "expected '.'");
    assert_eq!(e.to_string(), "Parse error at 8: expected '.'");
    let e = parse_term("").unwrap_err();
    assert_eq!((e.position, e.message.as_str()), (0, "unexpected end"));
    let e = parse_term("  \"abc").unwrap_err();
    assert_eq!((e.position, e.message.as_str()), (3, "unterminated string"));
    let e = parse_term("123").unwrap_err();
    assert_eq!((e.position, e.message.as_str()), (0, "unexpected character"));
    let e = parse_atom("(x)").unwrap_err();
    assert_eq!((e.position, e.message.as_str()), (0, "expected identifier"));
    let e = parse_atom("p(X, Y").unwrap_err();
    assert_eq!((e.position, e.message.as_str()), (6, "expected ')'"));
    let e = parse_atom("p(X) q").unwrap_err();
    assert_eq!((e.position, e.message.as_str()), (5, "unexpected trailing input"));
    let e = parse_program("a. b :- c, .").unwrap_err();
    assert_eq!((e.position, e.message.as_str()), (11, "expected identifier"));
    let e = parse_literal("\\+").unwrap_err();
    assert_eq!((e.position, e.message.as_str()), (2, "expected identifier"));
}

#[test]
fn terms_of_every_kind() {
    assert_eq!(parse_term("_").unwrap(), Term::Wildcard);
    assert_eq!(parse_term("_x1").unwrap(), Term::var("_x1"));
    assert_eq!(parse_term("Queue").unwrap(), Term::var("Queue"));
    assert_eq!(parse_term("http:route").unwrap(), Term::constant("http:route"));
    assert_eq!(parse_term(" \"a b, c.\" % note").unwrap(), Term::constant("a b, c."));
    assert_eq!(parse_term("\"\"").unwrap(), Term::constant(""));
    assert_eq!(parse_term("\"\\\"").unwrap(), Term::constant("\\"));
    assert_eq!(parse_term("\"h\u{e9}\"").unwrap(), Term::constant("h\u{e9}"));
    let atom = parse_atom("p( _ , _a, \"s\" ,x )").unwrap();
    assert_eq!(
        atom.args(),
        &[Term::Wildcard, Term::var("_a"), Term::constant("s"), Term::constant("x")]
    );
    assert_eq!(parse_atom("p()").unwrap().arity(), 0);
}

#[test]
fn programs_with_comments() {
    let source = "% header\nfact. % trailing\n a(X):-b(X),\\+c(X). %end";
    let program = parse_program(source).unwrap();
    assert_eq!(program.rules().len(), 2);
    assert!(program.rules()[0].is_fact());
    let rule = &program.rules()[1];
    assert_eq!(rule.head(), &Atom::new("a", vec![Term::var("X")]));
    assert_eq!(
        rule.body(),
        &[
            Literal::positive(Atom::new("b", vec![Term::var("X")])),
            Literal::negative(Atom::new("c", vec![Term::var("X")])),
        ]
    );
    assert!(program.is_safe());
    assert_eq!(program.rules_for("a").len(), 1);
    assert_eq!(program.rules_for("zzz").len(), 0);
    assert_eq!(parse_program("").unwrap().rules().len(), 0);
    assert_eq!(parse_program("  % only a comment").unwrap().rules().len(), 0);
}

#[test]
fn safety() {
    assert!(!parse_rule("p(X).").unwrap().is_safe());
    assert!(parse_rule("p(\"a\", _).").unwrap().is_safe());
    assert!(!parse_rule("p(X, Y) :- q(X), \\+ r(Y).").unwrap().is_safe());
    assert!(parse_rule("p(X, Y) :- q(X), \\+ r(Y), s(Y, _).").unwrap().is_safe());
    assert!(parse_rule("p :- \\+ q(Z).").unwrap().is_safe());
    let rule = parse_rule("p(X, Y) :- q(X), \\+ r(Y).").unwrap();
    assert_eq!(rule.positive_body_variables().len(), 1);
    assert!(rule.binds_variable("X"));
    assert!(!rule.binds_variable("Y"));
    assert!(!parse_program("a(X) :- b(X). c(Y).").unwrap().is_safe());
}

#[test]
fn a_head_variable_that_the_body_leaves_unbound_gets_no_value() {
    let engine = graph();
    let mut evaluator = Evaluator::new(&engine);
    evaluator.add_rule(parse_rule("pair(X, Y) :- node(X, \"CLASS\"), \\+ edge(X, Y, \"NONE\").").unwrap());
    let results = evaluator.query(&parse_atom("pair(A, B)").unwrap());
    assert_eq!(results.len(), 1);
    assert_eq!(var(&results[0], "A"), Some(Value::Id(3)));
    assert_eq!(var(&results[0], "B"), None);
}

#[test]
fn values() {
    assert_eq!(Value::from_term_const("12"), Value::Id(12));
    assert_eq!(Value::from_term_const("x12"), Value::Str("x12".to_string()));
    assert_eq!(Value::Id(5).as_id(), Some(5));
    assert_eq!(Value::Str("17".to_string()).as_id(), Some(17));
    assert_eq!(Value::Str("a".to_string()).as_id(), None);
    assert_eq!(Value::Id(5).as_str(), "5");
    assert_eq!(Value::Str("a".to_string()).as_str(), "a");
    assert!(Value::Id(5).same(&Value::Id(5)));
    assert!(!Value::Id(5).same(&Value::Str("5".to_string())));
}

#[test]
fn bindings_keep_one_value_a_variable() {
    let mut b = Bindings::new();
    b.set("X", Value::Id(1));
    b.set("Y", Value::Str("y".to_string()));
    b.set("X", Value::Id(2));
    assert_eq!(b.iter().len(), 2);
    assert_eq!(b.get("X"), Some(&Value::Id(2)));
    let mut same = Bindings::new();
    same.set("Y", Value::Str("y".to_string()));
    same.set("Z", Value::Id(3));
    let merged = b.extend(&same).unwrap();
    assert_eq!(merged.iter().len(), 3);
    assert_eq!(merged.get("Z"), Some(&Value::Id(3)));
    let mut other = Bindings::new();
    other.set("X", Value::Str("2".to_string()));
    assert!(b.extend(&other).is_none());
    assert!(!b.is_empty());
}

#[test]
fn node_in_every_mode() {
    let engine = graph();
    let ev = Evaluator::new(&engine);
    let r = ev.eval_atom(&parse_atom("node(X, \"FUNCTION\")").unwrap());
    assert_eq!(r.iter().map(|b| var(b, "X")).collect::<Vec<_>>(), vec![Some(Value::Id(1)), Some(Value::Id(2))]);
    let r = ev.eval_atom(&parse_atom("node(\"3\", T)").unwrap());
    assert_eq!(var(&r[0], "T"), Some(Value::Str("CLASS".to_string())));
    assert_eq!(ev.eval_atom(&parse_atom("node(\"3\", \"CLASS\")").unwrap()).len(), 1);
    assert_eq!(ev.eval_atom(&parse_atom("node(\"3\", \"FUNCTION\")").unwrap()).len(), 0);
    assert_eq!(ev.eval_atom(&parse_atom("node(\"9\", T)").unwrap()).len(), 0);
    assert_eq!(ev.eval_atom(&parse_atom("node(\"x\", T)").unwrap()).len(), 0);
    let r = ev.eval_atom(&parse_atom("node(X, T)").unwrap());
    assert_eq!(r.len(), 3);
    assert_eq!(var(&r[2], "X"), Some(Value::Id(3)));
    assert_eq!(var(&r[2], "T"), Some(Value::Str("CLASS".to_string())));
    assert_eq!(ev.eval_atom(&parse_atom("node(X, _)").unwrap()).len(), 0);
    assert_eq!(ev.eval_atom(&parse_atom("node(X)").unwrap()).len(), 0);
}

#[test]
fn edges_and_paths() {
    let engine = graph();
    let ev = Evaluator::new(&engine);
    let r = ev.eval_atom(&parse_atom("edge(\"1\", X, T)").unwrap());
    assert_eq!(r.len(), 1);
    assert_eq!(var(&r[0], "X"), Some(Value::Id(2)));
    assert_eq!(var(&r[0], "T"), Some(Value::Str("CALLS".to_string())));
    assert_eq!(ev.eval_atom(&parse_atom("edge(\"1\", \"2\")").unwrap()).len(), 1);
    assert_eq!(ev.eval_atom(&parse_atom("edge(\"1\", \"3\")").unwrap()).len(), 0);
    assert_eq!(ev.eval_atom(&parse_atom("edge(\"1\", _, \"USES\")").unwrap()).len(), 0);
    assert_eq!(ev.eval_atom(&parse_atom("edge(X, \"2\")").unwrap()).len(), 0);
    let r = ev.eval_atom(&parse_atom("incoming(\"1\", S, _)").unwrap());
    assert_eq!(var(&r[0], "S"), Some(Value::Id(3)));

    let r = ev.eval_atom(&parse_atom("path(\"1\", X)").unwrap());
    assert_eq!(
        r.iter().map(|b| var(b, "X")).collect::<Vec<_>>(),
        vec![Some(Value::Id(1)), Some(Value::Id(2)), Some(Value::Id(3))]
    );
    assert_eq!(ev.eval_atom(&parse_atom("path(\"1\", \"3\")").unwrap()).len(), 1);
    // a way leads from 1 by 2 and 3 back to 1
    assert_eq!(ev.eval_atom(&parse_atom("path(\"1\", \"1\")").unwrap()).len(), 1);
    assert_eq!(ev.eval_atom(&parse_atom("path(\"1\", _)").unwrap()).len(), 1);
    assert_eq!(ev.eval_atom(&parse_atom("path(\"77\", _)").unwrap()).len(), 0);
    assert_eq!(ev.eval_atom(&parse_atom("path(X, \"1\")").unwrap()).len(), 0);
}

#[test]
fn attributes() {
    let engine = graph();
    let ev = Evaluator::new(&engine);
    let get = |q: &str| ev.eval_atom(&parse_atom(q).unwrap());
    assert_eq!(var(&get("attr(\"1\", \"name\", V)")[0], "V"), Some(Value::Str("main".to_string())));
    assert_eq!(var(&get("attr(\"1\", \"file\", V)")[0], "V"), Some(Value::Str("f.js".to_string())));
    assert_eq!(var(&get("attr(\"1\", \"type\", V)")[0], "V"), Some(Value::Str("FUNCTION".to_string())));
    assert_eq!(var(&get("attr(\"1\", \"tag\", V)")[0], "V"), Some(Value::Str("x".to_string())));
    assert_eq!(var(&get("attr(\"1\", \"line\", V)")[0], "V"), Some(Value::Str("12".to_string())));
    assert_eq!(var(&get("attr(\"1\", \"async\", V)")[0], "V"), Some(Value::Str("true".to_string())));
    assert_eq!(get("attr(\"1\", \"n\", V)").len(), 0);
    assert_eq!(get("attr(\"1\", \"missing\", V)").len(), 0);
    assert_eq!(get("attr(\"2\", \"tag\", V)").len(), 0);
    assert_eq!(get("attr(\"3\", \"tag\", _)").len(), 0);
    assert_eq!(get("attr(\"1\", \"line\", \"12\")").len(), 1);
    assert_eq!(get("attr(\"1\", \"line\", \"13\")").len(), 0);
    assert_eq!(get("attr(\"1\", \"line\", _)").len(), 1);
    assert_eq!(get("attr(X, \"line\", _)").len(), 0);
    assert_eq!(get("attr(\"1\", N, _)").len(), 0);
}

#[test]
fn fields_as_attributes() {
    assert_eq!(attribute_text(JsonField::Text("a b".to_string())), Some("a b".to_string()));
    assert_eq!(attribute_text(JsonField::Text(String::new())), Some(String::new()));
    assert_eq!(attribute_text(JsonField::Number("1.5e3".to_string())), Some("1.5e3".to_string()));
    assert_eq!(attribute_text(JsonField::Flag(true)), Some("true".to_string()));
    assert_eq!(attribute_text(JsonField::Flag(false)), Some("false".to_string()));
    assert_eq!(attribute_text(JsonField::Other), None);
    assert_eq!(attribute_text(JsonField::Absent), None);
    assert_eq!(attribute_text(JsonField::Invalid), None);
}

#[test]
fn tests_on_constants() {
    let engine = graph();
    let ev = Evaluator::new(&engine);
    let n = |q: &str| ev.eval_atom(&parse_atom(q).unwrap()).len();
    assert_eq!(n("neq(\"a\", \"b\")"), 1);
    assert_eq!(n("neq(\"a\", \"a\")"), 0);
    assert_eq!(n("neq(X, \"a\")"), 0);
    assert_eq!(n("starts_with(\"abc\", \"ab\")"), 1);
    assert_eq!(n("starts_with(\"abc\", \"\")"), 1);
    assert_eq!(n("starts_with(\"ab\", \"abc\")"), 0);
    assert_eq!(n("not_starts_with(\"abc\", \"b\")"), 1);
    assert_eq!(n("not_starts_with(\"abc\", \"a\")"), 0);
    assert_eq!(n("not_starts_with(\"abc\", _)"), 0);
}

#[test]
fn rules_call_rules_and_cycles_are_cut() {
    let engine = graph();
    let mut ev = Evaluator::new(&engine);
    ev.load_rules(vec![
        parse_rule("fun(X) :- node(X, \"FUNCTION\").").unwrap(),
        parse_rule("named(X, N) :- fun(X), attr(X, \"name\", N).").unwrap(),
        parse_rule("fun(X) :- node(X, \"CLASS\").").unwrap(),
        parse_rule("loop(X) :- loop(X).").unwrap(),
        parse_rule("loop(X) :- node(X, \"CLASS\").").unwrap(),
    ]);
    let r = ev.query(&parse_atom("named(Id, Name)").unwrap());
    assert_eq!(r.len(), 3);
    assert_eq!(var(&r[2], "Id"), Some(Value::Id(3)));
    assert_eq!(var(&r[2], "Name"), Some(Value::Str("<anonymous>".to_string())));
    // a constant in the goal binds nothing and rules nothing out
    assert_eq!(ev.query(&parse_atom("fun(\"1\")").unwrap()).len(), 3);
    assert_eq!(ev.query(&parse_atom("unknown(X)").unwrap()).len(), 0);
    // the rule that leads back to itself ends at the depth limit
    let r = ev.query(&parse_atom("loop(X)").unwrap());
    assert!(r.len() >= 1);
    assert!(r.iter().all(|b| var(b, "X") == Some(Value::Id(3))));
    let _ = Rule::fact(Atom::new("f", vec![]));
}

#[test]
fn what_an_evaluation_records() {
    let engine = graph();
    let mut ev = EvaluatorExplain::new(&engine, true);
    // the two variables ask for one search of each type; the path for one walk
    let result = ev.query(&parse_atom("node(X, T)").unwrap());
    assert_eq!(result.stats.find_by_type_calls, 2);
    assert_eq!(result.stats.nodes_visited, 3);
    assert_eq!(result.stats.intermediate_counts, vec![3]);
    let result = ev.query(&parse_atom("path(\"1\", X)").unwrap());
    assert_eq!(result.stats.bfs_calls, 1);
    assert_eq!(result.stats.nodes_visited, 3);
    let result = ev.query(&parse_atom("edge(\"1\", X, \"CALLS\")").unwrap());
    assert_eq!(result.stats.outgoing_edge_calls, 1);
    assert_eq!(result.stats.incoming_edge_calls, 0);
    assert_eq!(result.stats.edges_traversed, 1);
    let result = ev.query(&parse_atom("incoming(\"1\", X)").unwrap());
    assert_eq!(result.stats.incoming_edge_calls, 1);
    assert_eq!(result.stats.edges_traversed, 1);
    let result = ev.query(&parse_atom("node(\"9\", T)").unwrap());
    assert_eq!(result.stats.get_node_calls, 1);
    assert_eq!(result.stats.nodes_visited, 0);
    assert_eq!(result.stats.total_results, 0);
    let result = ev.query(&parse_atom("neq(\"a\", _)").unwrap());
    assert_eq!(result.explain_steps.len(), 1);
    assert_eq!(
        result.explain_steps[0].args,
        vec!["Const(\"a\")".to_string(), "Wildcard".to_string()]
    );
    let result = ev.query(&Atom::new("p", vec![Term::constant("a\"b\\")]));
    assert_eq!(result.explain_steps[0].args, vec!["Const(\"a\\\"b\\\\\")".to_string()]);
    assert_eq!(result.stats.rule_evaluations, 0);
}

#[test]
fn explaining_evaluator_gives_the_same_answers() {
    let engine = graph();
    let rule = "named(X, N) :- node(X, \"FUNCTION\"), attr(X, \"name\", N).";
    let mut plain = Evaluator::new(&engine);
    plain.add_rule(parse_rule(rule).unwrap());
    let expected = plain.query(&parse_atom("named(A, B)").unwrap());

    let mut ev = EvaluatorExplain::new(&engine, true);
    ev.add_rule(parse_rule(rule).unwrap());
    let result = ev.query(&parse_atom("named(A, B)").unwrap());
    assert_eq!(result.bindings.len(), expected.len());
    assert_eq!(
        result.bindings[0],
        vec![("A".to_string(), "1".to_string()), ("B".to_string(), "main".to_string())]
    );
    assert_eq!(result.stats.total_results, 2);
    assert_eq!(result.stats.rule_evaluations, 1);
    assert_eq!(result.stats.find_by_type_calls, 1);
    assert_eq!(result.stats.get_node_calls, 2);
    // node, two attr goals, and the goal itself
    assert_eq!(result.explain_steps.len(), 4);
    assert_eq!(result.explain_steps[0].step, 1);
    assert_eq!(result.explain_steps[0].predicate, "node");
    assert_eq!(
        result.explain_steps[0].args,
        vec!["Var(\"X\")".to_string(), "Const(\"FUNCTION\")".to_string()]
    );
    assert_eq!(result.explain_steps[0].operation, "eval_atom");
    assert_eq!(result.explain_steps[0].result_count, 2);
    assert_eq!(result.explain_steps[0].details, None);
    assert_eq!(result.explain_steps[1].step, 2);
    assert_eq!(result.explain_steps[1].predicate, "attr");
    assert_eq!(
        result.explain_steps[1].args,
        vec!["Const(\"1\")".to_string(), "Const(\"name\")".to_string(), "Var(\"N\")".to_string()]
    );
    assert_eq!(result.stats.nodes_visited, 4);
    assert_eq!(result.stats.edges_traversed, 0);
    assert_eq!(result.stats.bfs_calls, 0);
    let timed: Vec<&str> = result.profile.predicate_times.iter().map(|e| e.0.as_str()).collect();
    assert_eq!(timed, vec!["node", "attr", "named"]);
    assert_eq!(result.profile.rule_eval_time_us, 0);
    assert_eq!(result.explain_steps[3].predicate, "named");
    assert_eq!(result.stats.intermediate_counts, vec![2, 1, 1, 2]);
    assert_eq!(result.profile.predicate_times.len(), 3);

    let mut quiet = EvaluatorExplain::new(&engine, false);
    quiet.load_rules(vec![parse_rule(rule).unwrap()]);
    let result = quiet.query(&parse_atom("named(A, B)").unwrap());
    assert_eq!(result.bindings.len(), 2);
    assert!(result.explain_steps.is_empty());
}

#[test]
fn guarantees_over_the_wire() {
    let engine = graph();
    let v = execute_check_guarantee(&engine, "violation(X) :- node(X, \"CLASS\").").unwrap();
    assert_eq!(v.len(), 1);
    assert_eq!(v[0].bindings, vec![("X".to_string(), "3".to_string())]);
    assert_eq!(
        execute_check_guarantee(&engine, "violation(X) :- ").unwrap_err(),
        "Datalog parse error: Parse error at 16: expected identifier"
    );
    assert_eq!(execute_datalog_load_rules("a. b. c :- a.").unwrap(), 3);
    assert!(execute_datalog_load_rules("a").is_err());
    let r = execute_datalog_query(&engine, "edge(\"2\", X)").unwrap();
    assert_eq!(r[0].bindings, vec![("X".to_string(), "3".to_string())]);
    assert_eq!(
        execute_datalog_query(&engine, "(").unwrap_err(),
        "Datalog query parse error: Parse error at 0: expected identifier"
    );
}

#[test]
fn requests() {
    let mut engine = GraphEngine::create("db").unwrap();
    let add = Request::AddNodes {
        nodes: vec![
            WireNode {
                id: "10".to_string(),
                node_type: Some("FUNCTION".to_string()),
                name: Some("f".to_string()),
                file: None,
                exported: true,
                metadata: None,
            },
            WireNode {
                id: "SERVICE:api".to_string(),
                node_type: None,
                name: None,
                file: None,
                exported: false,
                metadata: None,
            },
        ],
    };
    assert!(matches!(handle_request(&mut engine, add).response, Response::Ack { ok: true }));
    let hashed = rfdb::string_id_to_u128("SERVICE:api");
    assert!(engine.node_exists(hashed));
    let add = Request::AddEdges {
        edges: vec![WireEdge {
            src: "10".to_string(),
            dst: "SERVICE:api".to_string(),
            edge_type: Some("CALLS".to_string()),
            metadata: None,
        }],
        skip_validation: false,
    };
    handle_request(&mut engine, add);
    match handle_request(&mut engine, Request::Neighbors { id: "10".to_string(), edge_types: vec![] }).response {
        Response::Ids { ids } => assert_eq!(ids, vec![hashed.to_string()]),
        other => panic!("{:?}", other),
    }
    match handle_request(&mut engine, Request::GetNode { id: "10".to_string() }).response {
        Response::Node { node: Some(n) } => {
            assert_eq!(n.id, "10");
            assert_eq!(n.name, Some("f".to_string()));
            assert!(n.exported);
        },
        other => panic!("{:?}", other),
    }
    match handle_request(&mut engine, Request::GetNodeIdentifier { id: "SERVICE:api".to_string() }).response {
        Response::Identifier { identifier } => {
            assert_eq!(identifier, Some("UNKNOWN:SERVICE:api".to_string()))
        },
        other => panic!("{:?}", other),
    }
    match handle_request(&mut engine, Request::NodeCount).response {
        Response::Count { count } => assert_eq!(count, 2),
        other => panic!("{:?}", other),
    }
    match handle_request(&mut engine, Request::IsEndpoint { id: "10".to_string() }).response {
        Response::Bool { value } => assert!(value),
        other => panic!("{:?}", other),
    }
    match handle_request(
        &mut engine,
        Request::Bfs { start_ids: vec!["10".to_string()], max_depth: 3, edge_types: vec!["CALLS".to_string()] },
    )
    .response
    {
        Response::Ids { ids } => assert_eq!(ids, vec!["10".to_string(), hashed.to_string()]),
        other => panic!("{:?}", other),
    }
    match handle_request(&mut engine, Request::Ping).response {
        Response::Pong { pong, version } => {
            assert!(pong);
            assert_eq!(version, "0.1.0");
        },
        other => panic!("{:?}", other),
    }
    match handle_request(&mut engine, Request::DatalogQuery { query: "node(X, \"FUNCTION\")".to_string() }).response {
        Response::DatalogResults { results } => {
            assert_eq!(results[0].bindings, vec![("X".to_string(), "10".to_string())])
        },
        other => panic!("{:?}", other),
    }
    match handle_request(&mut engine, Request::CheckGuarantee { rule_source: "oops".to_string() }).response {
        Response::Error { error } => {
            assert_eq!(error, "Datalog parse error: Parse error at 4: expected '.'")
        },
        other => panic!("{:?}", other),
    }
    let flushed = handle_request(&mut engine, Request::Flush);
    assert!(matches!(flushed.response, Response::Ack { ok: true }));
    let snapshot = flushed.snapshot.unwrap();
    assert_eq!(&snapshot.nodes[0..4], b"SGRF");
    assert!(handle_request(&mut engine, Request::Compact).snapshot.is_none());
    handle_request(&mut engine, Request::DeleteNode { id: "10".to_string() });
    match handle_request(&mut engine, Request::NodeExists { id: "10".to_string() }).response {
        Response::Bool { value } => assert!(!value),
        other => panic!("{:?}", other),
    }
    handle_request(&mut engine, Request::Clear);
    assert_eq!(engine.node_count(), 0);
}


fn wire_node(id: &str, node_type: &str, name: &str) -> WireNode {
    WireNode {
        id: id.to_string(),
        node_type: Some(node_type.to_string()),
        name: Some(name.to_string()),
        file: None,
        exported: false,
        metadata: None,
    }
}

fn wire_edge(src: &str, dst: &str, edge_type: &str) -> WireEdge {
    WireEdge {
        src: src.to_string(),
        dst: dst.to_string(),
        edge_type: Some(edge_type.to_string()),
        metadata: None,
    }
}

fn ids_of(response: Response) -> Vec<String> {
    match response {
        Response::Ids { ids } => ids,
        other => panic!("{:?}", other),
    }
}

#[test]
fn more_requests() {
    let mut engine = GraphEngine::create("db").unwrap();
    handle_request(
        &mut engine,
        Request::AddNodes {
            nodes: vec![wire_node("1", "F", "a"), wire_node("2", "F", "b"), wire_node("3", "C", "c")],
        },
    );
    handle_request(
        &mut engine,
        Request::AddEdges {
            edges: vec![wire_edge("1", "2", "CALLS"), wire_edge("2", "3", "USES")],
            skip_validation: false,
        },
    );
    let q = || WireAttrQuery { node_type: Some("F".to_string()), name: None, file: None, exported: None };
    assert_eq!(
        ids_of(handle_request(&mut engine, Request::FindByAttr { query: q() }).response),
        vec!["1".to_string(), "2".to_string()]
    );
    assert_eq!(
        ids_of(handle_request(&mut engine, Request::FindByType { node_type: "C".to_string() }).response),
        vec!["3".to_string()]
    );
    match handle_request(&mut engine, Request::QueryNodes { query: q() }).response {
        Response::Nodes { nodes } => {
            assert_eq!(nodes.len(), 2);
            assert_eq!(nodes[1].name, Some("b".to_string()));
        },
        other => panic!("{:?}", other),
    }
    assert_eq!(
        ids_of(
            handle_request(
                &mut engine,
                Request::Reachability {
                    start_ids: vec!["3".to_string()],
                    max_depth: 5,
                    edge_types: vec![],
                    backward: true,
                },
            )
            .response
        ),
        vec!["3".to_string(), "2".to_string(), "1".to_string()]
    );
    assert_eq!(
        ids_of(
            handle_request(
                &mut engine,
                Request::Dfs { start_ids: vec!["1".to_string()], max_depth: 5, edge_types: vec![] },
            )
            .response
        ),
        vec!["1".to_string(), "2".to_string(), "3".to_string()]
    );
    match handle_request(
        &mut engine,
        Request::GetOutgoingEdges { id: "1".to_string(), edge_types: Some(vec!["USES".to_string()]) },
    )
    .response
    {
        Response::Edges { edges } => assert!(edges.is_empty()),
        other => panic!("{:?}", other),
    }
    match handle_request(&mut engine, Request::GetIncomingEdges { id: "3".to_string(), edge_types: None })
        .response
    {
        Response::Edges { edges } => {
            assert_eq!(edges.len(), 1);
            assert_eq!(edges[0].src, "2");
            assert_eq!(edges[0].edge_type, Some("USES".to_string()));
        },
        other => panic!("{:?}", other),
    }
    match handle_request(&mut engine, Request::GetAllEdges).response {
        Response::Edges { edges } => assert_eq!(edges.len(), 2),
        other => panic!("{:?}", other),
    }
    match handle_request(&mut engine, Request::EdgeCount).response {
        Response::Count { count } => assert_eq!(count, 2),
        other => panic!("{:?}", other),
    }
    match handle_request(&mut engine, Request::CountNodesByType { types: Some(vec!["F".to_string()]) })
        .response
    {
        Response::Counts { counts } => assert_eq!(counts, vec![("F".to_string(), 2)]),
        other => panic!("{:?}", other),
    }
    match handle_request(&mut engine, Request::CountEdgesByType { edge_types: None }).response {
        Response::Counts { counts } => {
            assert_eq!(counts, vec![("CALLS".to_string(), 1), ("USES".to_string(), 1)])
        },
        other => panic!("{:?}", other),
    }
    match handle_request(
        &mut engine,
        Request::DatalogLoadRules { source: "a(X) :- node(X, \"F\"). b.".to_string() },
    )
    .response
    {
        Response::Count { count } => assert_eq!(count, 2),
        other => panic!("{:?}", other),
    }
    assert!(matches!(
        handle_request(&mut engine, Request::DatalogClearRules).response,
        Response::Ack { ok: true }
    ));
    match handle_request(
        &mut engine,
        Request::CheckGuarantee { rule_source: "violation(X) :- node(X, \"C\").".to_string() },
    )
    .response
    {
        Response::Violations { violations } => {
            assert_eq!(violations.len(), 1);
            assert_eq!(violations[0].bindings, vec![("X".to_string(), "3".to_string())]);
        },
        other => panic!("{:?}", other),
    }
    // the server does not act on this request
    handle_request(
        &mut engine,
        Request::UpdateNodeVersion { id: "1".to_string(), version: "v2".to_string() },
    );
    assert_eq!(engine.get_node(1).unwrap().version, "main");
    handle_request(
        &mut engine,
        Request::DeleteEdge { src: "1".to_string(), dst: "2".to_string(), edge_type: "CALLS".to_string() },
    );
    assert_eq!(
        ids_of(
            handle_request(&mut engine, Request::Neighbors { id: "1".to_string(), edge_types: vec![] })
                .response
        ),
        Vec::<String>::new()
    );
    // a shutdown flushes: the images come with the acknowledgement
    let last = handle_request(&mut engine, Request::Shutdown);
    assert!(matches!(last.response, Response::Ack { ok: true }));
    let snapshot = last.snapshot.unwrap();
    let reopened = GraphEngine::open("db", Some(snapshot.nodes), Some(snapshot.edges)).unwrap();
    assert_eq!(reopened.node_count(), 3);
    assert_eq!(reopened.edge_count(), 1);
    assert_eq!(reopened.neighbors(2, &[]), vec![3]);
}


#[test]
fn the_way_of_no_edge_is_no_path() {
    let mut engine = GraphEngine::create("db").unwrap();
    engine.add_nodes(vec![
        node(1, "A", "a", None),
        node(2, "A", "b", None),
        node(3, "A", "c", None),
        node(4, "A", "d", None),
    ]);
    // 1 -> 2; 3 -> 3; 4 has no edge
    engine.add_edges(vec![edge(1, 2, "CALLS"), edge(3, 3, "CALLS")], false);
    let ev = Evaluator::new(&engine);
    let n = |q: &str| ev.eval_atom(&parse_atom(q).unwrap()).len();
    assert_eq!(n("path(\"1\", \"1\")"), 0);
    assert_eq!(n("path(\"1\", \"2\")"), 1);
    assert_eq!(n("path(\"2\", \"2\")"), 0);
    assert_eq!(n("path(\"4\", \"4\")"), 0);
    assert_eq!(n("path(\"2\", _)"), 0);
    // the edge from 3 to itself is a way out of 3, and a way to 3
    assert_eq!(n("path(\"3\", \"3\")"), 1);
    assert_eq!(n("path(\"3\", _)"), 1);
    let r = ev.eval_atom(&parse_atom("path(\"3\", X)").unwrap());
    assert_eq!(r.len(), 1);
    assert_eq!(var(&r[0], "X"), Some(Value::Id(3)));
    let r = ev.eval_atom(&parse_atom("path(\"1\", X)").unwrap());
    assert_eq!(r.len(), 1);
    assert_eq!(var(&r[0], "X"), Some(Value::Id(2)));

    let mut ev = Evaluator::new(&engine);
    ev.add_rule(parse_rule("violation(X) :- node(X, T), \\+ path(X, _).").unwrap());
    let r = ev.query(&parse_atom("violation(X)").unwrap());
    let ids: Vec<Option<Value>> = r.iter().map(|b| var(b, "X")).collect();
    assert_eq!(ids, vec![Some(Value::Id(2)), Some(Value::Id(4))]);
}

#[test]
fn a_plus_before_the_digits_of_an_id() {
    assert_eq!(Value::from_term_const("+5"), Value::Id(5));
    assert_eq!(Value::from_term_const("+007"), Value::Id(7));
    assert_eq!(Value::from_term_const("+0"), Value::Id(0));
    assert_eq!(
        Value::from_term_const("+340282366920938463463374607431768211455"),
        Value::Id(u128::MAX)
    );
    assert_eq!(
        Value::from_term_const("+340282366920938463463374607431768211456"),
        Value::Str("+340282366920938463463374607431768211456".to_string())
    );
    assert_eq!(Value::from_term_const("+"), Value::Str("+".to_string()));
    assert_eq!(Value::from_term_const("++5"), Value::Str("++5".to_string()));
    assert_eq!(Value::from_term_const("-1"), Value::Str("-1".to_string()));
    assert_eq!(Value::from_term_const("5+"), Value::Str("5+".to_string()));
    assert_eq!(Value::from_term_const(" 5"), Value::Str(" 5".to_string()));
    assert_eq!(Value::from_term_const(""), Value::Str(String::new()));
    assert_eq!(Value::from_term_const("123"), Value::Id(123));
    assert_eq!(Value::from_term_const("queue:publish"), Value::Str("queue:publish".to_string()));
    assert_eq!(Value::Str("+17".to_string()).as_id(), Some(17));
    assert_eq!(Value::Str("-17".to_string()).as_id(), None);

    let engine = graph();
    let ev = Evaluator::new(&engine);
    let r = ev.eval_atom(&parse_atom("node(\"+3\", T)").unwrap());
    assert_eq!(var(&r[0], "T"), Some(Value::Str("CLASS".to_string())));
    let r = ev.eval_atom(&parse_atom("edge(\"+1\", X)").unwrap());
    assert_eq!(var(&r[0], "X"), Some(Value::Id(2)));
    assert_eq!(ev.eval_atom(&parse_atom("edge(\"1\", \"+2\")").unwrap()).len(), 1);
    assert_eq!(ev.eval_atom(&parse_atom("path(\"+1\", \"+3\")").unwrap()).len(), 1);
    assert_eq!(ev.eval_atom(&parse_atom("attr(\"+1\", \"name\", \"main\")").unwrap()).len(), 1);
    // on the wire an id is a run of digits and nothing else
    assert_eq!(rfdb::wire::string_to_id("+5"), rfdb::string_id_to_u128("+5"));
}

#[test]
fn bindings_extend_where_they_agree() {
    let mut a = Bindings::new();
    a.set("X", Value::Id(1));
    a.set("Y", Value::Str("y".to_string()));
    let mut b = Bindings::new();
    b.set("Z", Value::Id(3));
    b.set("Y", Value::Str("y".to_string()));
    let ab = a.extend(&b).unwrap();
    let ba = b.extend(&a).unwrap();
    for v in ["X", "Y", "Z", "W"] {
        assert_eq!(ab.get(v), a.get(v).or(b.get(v)));
        assert_eq!(ba.get(v), ab.get(v));
    }
    assert_eq!(ab.iter().len(), 3);
    assert_eq!(ba.iter().len(), 3);
    // the two are as they were
    assert_eq!(a.iter().len(), 2);
    assert_eq!(b.get("X"), None);
    // nothing to add
    assert_eq!(a.extend(&Bindings::new()).unwrap().iter(), a.iter());
    assert_eq!(Bindings::new().extend(&a).unwrap().iter(), a.iter());
    assert_eq!(a.extend(&a).unwrap().iter(), a.iter());
    // one variable with two values
    let mut c = Bindings::new();
    c.set("Z", Value::Id(3));
    c.set("Y", Value::Str("other".to_string()));
    assert!(a.extend(&c).is_none());
    assert!(c.extend(&a).is_none());
    // an id is not the string of its digits
    let mut d = Bindings::new();
    d.set("X", Value::Str("1".to_string()));
    assert!(a.extend(&d).is_none());
}

#[test]
fn white_space_of_every_kind() {
    let source = "a(X)\u{a0}:-\u{2028}b(X)\u{3000},\u{85}\t\\+\u{2003}c(X)\u{1680}.\u{202f}\u{205f}\u{2029}\u{200a}";
    let program = parse_program(source).unwrap();
    assert_eq!(program.rules().len(), 1);
    assert_eq!(program.rules()[0], parse_rule("a(X) :- b(X), \\+ c(X).").unwrap());
    assert_eq!(parse_term("\u{b}\u{c}\r\n X").unwrap(), Term::var("X"));
    // a position is counted in bytes
    let e = parse_atom("\u{3000}p(X\u{a0}").unwrap_err();
    assert_eq!((e.position, e.message.as_str()), (8, "expected ')'"));
    // U+200B is no white space
    let e = parse_term("\u{200b}X").unwrap_err();
    assert_eq!((e.position, e.message.as_str()), (0, "unexpected character"));
    // in a string white space stays
    assert_eq!(parse_term("\"a\u{a0}b\"").unwrap(), Term::constant("a\u{a0}b"));
}
