use rfdb::datalog::{
    parse_atom, parse_literal, parse_program, parse_rule, parse_term, Term,
};

#[test]
fn test_parse_term_var() {
    let term = parse_term("X").unwrap();
    assert_eq!(term, Term::var("X"));
}

#[test]
fn test_parse_term_const() {
    let term = parse_term("\"queue:publish\"").unwrap();
    assert_eq!(term, Term::constant("queue:publish"));
}

#[test]
fn test_parse_term_wildcard() {
    let term = parse_term("_").unwrap();
    assert!(term.is_wildcard());
}

#[test]
fn test_parse_atom() {
    let atom = parse_atom("node(X, \"FUNCTION\")").unwrap();
    assert_eq!(atom.predicate(), "node");
    assert_eq!(atom.arity(), 2);
    assert_eq!(atom.args()[0], Term::var("X"));
    assert_eq!(atom.args()[1], Term::constant("FUNCTION"));
}

#[test]
fn test_parse_atom_no_args() {
    let atom = parse_atom("fact").unwrap();
    assert_eq!(atom.predicate(), "fact");
    assert_eq!(atom.arity(), 0);
}

#[test]
fn test_parse_literal_positive() {
    let lit = parse_literal("node(X)").unwrap();
    assert!(lit.is_positive());
}

#[test]
fn test_parse_literal_negative() {
    let lit = parse_literal("\\+ path(X, Y)").unwrap();
    assert!(lit.is_negative());
    assert_eq!(lit.atom().predicate(), "path");
}

#[test]
fn test_parse_fact() {
    let rule = parse_rule("node(\"n1\", \"FUNCTION\").").unwrap();
    assert!(rule.is_fact());
}

#[test]
fn test_parse_rule() {
    let rule = parse_rule("violation(X) :- node(X, \"queue:publish\"), \\+ path(X, _).").unwrap();
    assert_eq!(rule.head().predicate(), "violation");
    assert_eq!(rule.body().len(), 2);
    assert!(rule.body()[0].is_positive());
    assert!(rule.body()[1].is_negative());
}

#[test]
fn test_parse_program() {
    let source = r#"
        node("n1", "FUNCTION").
        node("n2", "FUNCTION").
        connected(X, Y) :- edge(X, Y).
        connected(X, Z) :- edge(X, Y), connected(Y, Z).
    "#;
    let program = parse_program(source).unwrap();
    assert_eq!(program.rules().len(), 4);
}

#[test]
fn test_parse_error_invalid_syntax() {
    let result = parse_rule("invalid syntax here");
    assert!(result.is_err());
}
