use rfdb::datalog::{Atom, Literal, Program, Rule, Term};

#[test]
fn test_var_creation() {
    let term = Term::var("X");
    assert!(term.is_var());
    assert!(!term.is_const());
    assert_eq!(term.var_name(), Some("X"));
}

#[test]
fn test_const_creation() {
    let term = Term::constant("queue:publish");
    assert!(term.is_const());
    assert!(!term.is_var());
    assert_eq!(term.const_value(), Some("queue:publish"));
}

#[test]
fn test_wildcard() {
    let term = Term::wildcard();
    assert!(term.is_wildcard());
    assert!(!term.is_var());
    assert!(!term.is_const());
}

#[test]
fn test_term_equality() {
    assert_eq!(Term::var("X"), Term::var("X"));
    assert_ne!(Term::var("X"), Term::var("Y"));
    assert_eq!(Term::constant("foo"), Term::constant("foo"));
    assert_ne!(Term::var("X"), Term::constant("X"));
}

#[test]
fn test_atom_creation() {
    let atom = Atom::new("node", vec![Term::var("X"), Term::constant("FUNCTION")]);
    assert_eq!(atom.predicate(), "node");
    assert_eq!(atom.arity(), 2);
}

#[test]
fn test_atom_args() {
    let atom = Atom::new("edge", vec![
        Term::var("A"),
        Term::var("B"),
        Term::constant("CALLS"),
    ]);
    assert_eq!(atom.args()[0], Term::var("A"));
    assert_eq!(atom.args()[2], Term::constant("CALLS"));
}

#[test]
fn test_atom_variables() {
    let atom = Atom::new("path", vec![
        Term::var("X"),
        Term::var("Y"),
        Term::wildcard(),
    ]);
    let vars = atom.variables();
    assert_eq!(vars.len(), 2);
    assert!(vars.contains(&"X".to_string()));
    assert!(vars.contains(&"Y".to_string()));
}

#[test]
fn test_ground_atom() {
    let ground = Atom::new("node", vec![
        Term::constant("n1"),
        Term::constant("FUNCTION"),
    ]);
    assert!(ground.is_ground());

    let non_ground = Atom::new("node", vec![
        Term::var("X"),
        Term::constant("FUNCTION"),
    ]);
    assert!(!non_ground.is_ground());
}

#[test]
fn test_positive_literal() {
    let atom = Atom::new("node", vec![Term::var("X")]);
    let lit = Literal::positive(atom.clone());
    assert!(lit.is_positive());
    assert!(!lit.is_negative());
    assert_eq!(lit.atom(), &atom);
}

#[test]
fn test_negative_literal() {
    let atom = Atom::new("path", vec![Term::var("X"), Term::var("Y")]);
    let lit = Literal::negative(atom.clone());
    assert!(lit.is_negative());
    assert!(!lit.is_positive());
}

#[test]
fn test_fact_creation() {
    let head = Atom::new("node", vec![
        Term::constant("n1"),
        Term::constant("FUNCTION"),
    ]);
    let rule = Rule::fact(head);
    assert!(rule.is_fact());
    assert!(rule.body().is_empty());
}

#[test]
fn test_rule_creation() {
    // violation(X) :- node(X, "queue:publish"), \+ path(X, _).
    let head = Atom::new("violation", vec![Term::var("X")]);
    let body = vec![
        Literal::positive(Atom::new("node", vec![
            Term::var("X"),
            Term::constant("queue:publish"),
        ])),
        Literal::negative(Atom::new("path", vec![
            Term::var("X"),
            Term::wildcard(),
        ])),
    ];
    let rule = Rule::new(head.clone(), body);
    assert!(!rule.is_fact());
    assert_eq!(rule.head(), &head);
    assert_eq!(rule.body().len(), 2);
}

#[test]
fn test_rule_variables() {
    let head = Atom::new("result", vec![Term::var("X"), Term::var("Y")]);
    let body = vec![
        Literal::positive(Atom::new("edge", vec![
            Term::var("X"),
            Term::var("Z"),
        ])),
        Literal::positive(Atom::new("edge", vec![
            Term::var("Z"),
            Term::var("Y"),
        ])),
    ];
    let rule = Rule::new(head, body);
    let vars = rule.all_variables();
    assert_eq!(vars.len(), 3); // X, Y, Z
}

#[test]
fn test_rule_safety() {
    // Safe: all head variables appear in positive body literals
    let safe_rule = Rule::new(
        Atom::new("result", vec![Term::var("X")]),
        vec![Literal::positive(Atom::new("node", vec![Term::var("X")]))],
    );
    assert!(safe_rule.is_safe());

    // Unsafe: X in head but only in negative literal
    let unsafe_rule = Rule::new(
        Atom::new("result", vec![Term::var("X")]),
        vec![Literal::negative(Atom::new("node", vec![Term::var("X")]))],
    );
    assert!(!unsafe_rule.is_safe());
}

#[test]
fn test_program_creation() {
    let rules = vec![
        Rule::fact(Atom::new("node", vec![
            Term::constant("n1"),
            Term::constant("FUNCTION"),
        ])),
        Rule::new(
            Atom::new("violation", vec![Term::var("X")]),
            vec![Literal::positive(Atom::new("node", vec![Term::var("X")]))],
        ),
    ];
    let program = Program::new(rules);
    assert_eq!(program.rules().len(), 2);
}

#[test]
fn test_program_predicates() {
    let rules = vec![
        Rule::fact(Atom::new("node", vec![Term::constant("n1")])),
        Rule::new(
            Atom::new("violation", vec![Term::var("X")]),
            vec![Literal::positive(Atom::new("node", vec![Term::var("X")]))],
        ),
    ];
    let program = Program::new(rules);
    let preds = program.defined_predicates();
    assert!(preds.contains("node"));
    assert!(preds.contains("violation"));
}
