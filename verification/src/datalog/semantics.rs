//! What a goal means: the bindings that the evaluator answers, as a
//! function of the graph, the rules and the goal.
//!
//! A built-in predicate is answered from the graph. Any other predicate is
//! answered from the rules that define it: the body of each is evaluated
//! from left to right, and what it binds is handed to the variables of the
//! goal by position. Rules are followed to a bounded depth only; beyond
//! it a derived goal has no answer.

use vstd::prelude::*;

use crate::datalog::bindings::{b_extend, b_get, b_set, value_text, BindingsModel, ValueModel};
use crate::datalog::json::metadata_attr;
use crate::datalog::types::{AtomModel, LiteralModel, RuleModel, TermModel};
use crate::graph::model::{forward_step, GraphModel};
use crate::graph::traversal::spec_bfs;
use crate::storage::{empty_query, EdgeModel, NodeModel, QueryModel};
use crate::text::{is_prefix, spec_parse_number, text};

verus! {

/// Bindings that bind nothing.
pub open spec fn no_bindings() -> BindingsModel {
    Seq::empty()
}

/// The answer of a goal that holds and binds nothing.
pub open spec fn succeed() -> Seq<BindingsModel> {
    seq![no_bindings()]
}

/// The answer of a goal that does not hold.
pub open spec fn fail() -> Seq<BindingsModel> {
    Seq::empty()
}

/// `var` bound to an id.
pub open spec fn bind_id(var: Seq<u8>) -> spec_fn(u128) -> BindingsModel {
    |id: u128| b_set(no_bindings(), var, ValueModel::Id(id))
}

/// `id_var` bound to an id and then `type_var` to a type.
pub open spec fn bind_id_and_type(id_var: Seq<u8>, type_var: Seq<u8>, t: Seq<u8>) -> spec_fn(
    u128,
) -> BindingsModel {
    |id: u128| b_set(b_set(no_bindings(), id_var, ValueModel::Id(id)), type_var, ValueModel::Str(t))
}

/// The query for the nodes of a type.
pub open spec fn type_query(t: Seq<u8>) -> QueryModel {
    QueryModel { node_type: Some(t), ..empty_query() }
}

/// The nodes of the first `k` counted types, each with its type.
pub open spec fn nodes_by_type(
    g: GraphModel,
    id_var: Seq<u8>,
    type_var: Seq<u8>,
    k: int,
) -> Seq<BindingsModel>
    decreases k,
{
    if k <= 0 {
        Seq::empty()
    } else {
        let t = g.node_counts(None)[k - 1].0;
        nodes_by_type(g, id_var, type_var, k - 1) + g.find(type_query(t)).map_values(
            bind_id_and_type(id_var, type_var, t),
        )
    }
}

/// `node(Id, Type)`: with a variable and a type, the nodes of the type;
/// with an id and a variable, the type of the node; with an id and a
/// type, whether the node is of the type; with two variables, every node
/// of every counted type. Any other form has no answer.
pub open spec fn eval_node(g: GraphModel, atom: AtomModel) -> Seq<BindingsModel> {
    if atom.args.len() < 2 {
        fail()
    } else {
        match (atom.args[0], atom.args[1]) {
            (TermModel::Var(v), TermModel::Const(t)) => g.find(type_query(t)).map_values(bind_id(v)),
            (TermModel::Const(c), TermModel::Var(v)) => match spec_parse_number(c) {
                Some(id) => match g.get_node(id) {
                    Some(n) => match n.node_type {
                        Some(t) => seq![b_set(no_bindings(), v, ValueModel::Str(t))],
                        None => fail(),
                    },
                    None => fail(),
                },
                None => fail(),
            },
            (TermModel::Const(c), TermModel::Const(t)) => match spec_parse_number(c) {
                Some(id) => match g.get_node(id) {
                    Some(n) => if n.node_type == Some(t) {
                        succeed()
                    } else {
                        fail()
                    },
                    None => fail(),
                },
                None => fail(),
            },
            (TermModel::Var(iv), TermModel::Var(tv)) => nodes_by_type(
                g,
                iv,
                tv,
                g.node_counts(None).len() as int,
            ),
            _ => fail(),
        }
    }
}

/// The third argument of an atom, if it has one.
pub open spec fn third_arg(atom: AtomModel) -> Option<TermModel> {
    if atom.args.len() > 2 {
        Some(atom.args[2])
    } else {
        None
    }
}

/// The edge-type filter that a type term asks for: a constant asks for
/// its type, anything else for no filter.
pub open spec fn type_filter(type_term: Option<TermModel>) -> Option<Seq<Seq<u8>>> {
    match type_term {
        Some(TermModel::Const(s)) => Some(seq![s]),
        _ => None,
    }
}

/// What an edge binds: its far end to a variable, or nothing where the
/// far end is a wildcard or the constant that denotes it (a constant that
/// denotes another node rules the edge out); and its type to the type
/// term, where that is a variable and the edge has a type.
pub open spec fn edge_match(
    end_term: TermModel,
    type_term: Option<TermModel>,
    end: u128,
    edge_type: Option<Seq<u8>>,
) -> Option<BindingsModel> {
    let first: Option<BindingsModel> = match end_term {
        TermModel::Var(v) => Some(b_set(no_bindings(), v, ValueModel::Id(end))),
        TermModel::Const(s) => if spec_parse_number(s) == Some(end) {
            Some(no_bindings())
        } else {
            None
        },
        TermModel::Wildcard => Some(no_bindings()),
    };
    match first {
        None => None,
        Some(b) => match (type_term, edge_type) {
            (Some(TermModel::Var(tv)), Some(t)) => Some(b_set(b, tv, ValueModel::Str(t))),
            _ => Some(b),
        },
    }
}

/// What an outgoing edge binds.
pub open spec fn out_match(end_term: TermModel, type_term: Option<TermModel>) -> spec_fn(
    EdgeModel,
) -> Option<BindingsModel> {
    |e: EdgeModel| edge_match(end_term, type_term, e.dst, e.edge_type)
}

/// What an incoming edge binds.
pub open spec fn in_match(end_term: TermModel, type_term: Option<TermModel>) -> spec_fn(
    EdgeModel,
) -> Option<BindingsModel> {
    |e: EdgeModel| edge_match(end_term, type_term, e.src, e.edge_type)
}

/// `edge(Src, Dst, Type)`: the edges that leave the node that `Src`
/// denotes. `Src` must be a constant that denotes an id.
pub open spec fn eval_edge(g: GraphModel, atom: AtomModel) -> Seq<BindingsModel> {
    if atom.args.len() < 2 {
        fail()
    } else {
        match atom.args[0] {
            TermModel::Const(s) => match spec_parse_number(s) {
                Some(src) => g.outgoing_edges(src, type_filter(third_arg(atom))).filter_map(
                    out_match(atom.args[1], third_arg(atom)),
                ),
                None => fail(),
            },
            _ => fail(),
        }
    }
}

/// `incoming(Dst, Src, Type)`: the edges that enter the node that `Dst`
/// denotes. `Dst` must be a constant that denotes an id.
pub open spec fn eval_incoming(g: GraphModel, atom: AtomModel) -> Seq<BindingsModel> {
    if atom.args.len() < 2 {
        fail()
    } else {
        match atom.args[0] {
            TermModel::Const(s) => match spec_parse_number(s) {
                Some(dst) => g.incoming_edges(dst, type_filter(third_arg(atom))).filter_map(
                    in_match(atom.args[1], third_arg(atom)),
                ),
                None => fail(),
            },
            _ => fail(),
        }
    }
}

/// The attribute of a node under a name: `name`, `file` and `type` are
/// the node's own; any other name is looked up in its metadata.
pub open spec fn node_attr(n: NodeModel, name: Seq<u8>) -> Option<Seq<u8>> {
    if name == text("name"@) {
        n.name
    } else if name == text("file"@) {
        n.file
    } else if name == text("type"@) {
        n.node_type
    } else {
        match n.metadata {
            Some(m) => metadata_attr(m, name),
            None => None,
        }
    }
}

/// `attr(Id, Name, Value)`: the attribute `Name` of the node that `Id`
/// denotes. `Id` and `Name` must be constants. A variable is bound to the
/// attribute, a constant must equal it, a wildcard asks only that it is
/// there.
pub open spec fn eval_attr(g: GraphModel, atom: AtomModel) -> Seq<BindingsModel> {
    if atom.args.len() < 3 {
        fail()
    } else {
        match (atom.args[0], atom.args[1]) {
            (TermModel::Const(c), TermModel::Const(name)) => match spec_parse_number(c) {
                Some(id) => match g.get_node(id) {
                    Some(n) => match node_attr(n, name) {
                        Some(value) => match atom.args[2] {
                            TermModel::Var(v) => seq![
                                b_set(no_bindings(), v, ValueModel::Str(value)),
                            ],
                            TermModel::Const(expected) => if value == expected {
                                succeed()
                            } else {
                                fail()
                            },
                            TermModel::Wildcard => succeed(),
                        },
                        None => fail(),
                    },
                    None => fail(),
                },
                None => fail(),
            },
            _ => fail(),
        }
    }
}

/// How deep `path` looks.
pub open spec fn path_depth() -> nat {
    100
}

/// The nodes that a walk along all edges reaches from `src` within the
/// depth of `path`, `src` first.
pub open spec fn reach(g: GraphModel, src: u128) -> Seq<u128> {
    spec_bfs(forward_step(g, Seq::empty()), seq![src], path_depth())
}

/// A way leads back to `src`: some node that the walk from `src` reaches,
/// `src` itself too, has an edge to `src`.
pub open spec fn comes_back(g: GraphModel, src: u128) -> bool {
    exists|i: int|
        0 <= i < reach(g, src).len() && (#[trigger] g.neighbors(
            reach(g, src)[i],
            Seq::empty(),
        )).contains(src)
}

/// The id lies at the end of a way of at least one edge from `src`:
/// it is another node than `src`, or a way leads back to `src`.
pub open spec fn landed_on(g: GraphModel, src: u128) -> spec_fn(u128) -> bool {
    |id: u128| id != src || comes_back(g, src)
}

/// The nodes at the end of a way of at least one edge from `src`, in the
/// order in which the walk from `src` reaches them.
pub open spec fn ways(g: GraphModel, src: u128) -> Seq<u128> {
    reach(g, src).filter(landed_on(g, src))
}

/// `path(Src, Dst)`: the nodes that can be reached from the node that
/// `Src` denotes by a way of at least one edge. The way of no edge from a
/// node to itself does not count; a way that leads back to the node does. `Src` must be a constant that denotes an
/// id. A variable is bound to each such node, a constant must denote one
/// of them, a wildcard asks only that there is one.
pub open spec fn eval_path(g: GraphModel, atom: AtomModel) -> Seq<BindingsModel> {
    if atom.args.len() < 2 {
        fail()
    } else {
        match atom.args[0] {
            TermModel::Const(s) => match spec_parse_number(s) {
                Some(src) => {
                    let others = ways(g, src);
                    match atom.args[1] {
                        TermModel::Const(d) => match spec_parse_number(d) {
                            Some(dst) => if others.contains(dst) {
                                succeed()
                            } else {
                                fail()
                            },
                            None => fail(),
                        },
                        TermModel::Var(v) => others.map_values(bind_id(v)),
                        TermModel::Wildcard => if others.len() > 0 {
                            succeed()
                        } else {
                            fail()
                        },
                    }
                },
                None => fail(),
            },
            _ => fail(),
        }
    }
}

/// The answer of a test on two constants: it holds and binds nothing, or
/// it does not hold. With anything but two constants it does not hold.
pub open spec fn eval_test(atom: AtomModel, test: spec_fn(Seq<u8>, Seq<u8>) -> bool) -> Seq<
    BindingsModel,
> {
    if atom.args.len() < 2 {
        fail()
    } else {
        match (atom.args[0], atom.args[1]) {
            (TermModel::Const(a), TermModel::Const(b)) => if test(a, b) {
                succeed()
            } else {
                fail()
            },
            _ => fail(),
        }
    }
}

/// `neq(X, Y)`: the two texts differ.
pub open spec fn differs() -> spec_fn(Seq<u8>, Seq<u8>) -> bool {
    |a: Seq<u8>, b: Seq<u8>| a != b
}

/// `starts_with(X, P)`: `X` begins with `P`.
pub open spec fn begins() -> spec_fn(Seq<u8>, Seq<u8>) -> bool {
    |a: Seq<u8>, b: Seq<u8>| is_prefix(b, a)
}

/// `not_starts_with(X, P)`: `X` does not begin with `P`.
pub open spec fn begins_not() -> spec_fn(Seq<u8>, Seq<u8>) -> bool {
    |a: Seq<u8>, b: Seq<u8>| !is_prefix(b, a)
}

/// The answer of a built-in predicate; `None` for any other predicate.
pub open spec fn eval_builtin(g: GraphModel, atom: AtomModel) -> Option<Seq<BindingsModel>> {
    let p = atom.predicate;
    if p == text("node"@) {
        Some(eval_node(g, atom))
    } else if p == text("edge"@) {
        Some(eval_edge(g, atom))
    } else if p == text("incoming"@) {
        Some(eval_incoming(g, atom))
    } else if p == text("path"@) {
        Some(eval_path(g, atom))
    } else if p == text("attr"@) {
        Some(eval_attr(g, atom))
    } else if p == text("neq"@) {
        Some(eval_test(atom, differs()))
    } else if p == text("starts_with"@) {
        Some(eval_test(atom, begins()))
    } else if p == text("not_starts_with"@) {
        Some(eval_test(atom, begins_not()))
    } else {
        None
    }
}

/// A term with what the bindings know of it: a bound variable becomes the
/// constant that is the text of its value.
pub open spec fn substitute_term(b: BindingsModel) -> spec_fn(TermModel) -> TermModel {
    |t: TermModel|
        match t {
            TermModel::Var(v) => match b_get(b, v) {
                Some(value) => TermModel::Const(value_text(value)),
                None => t,
            },
            _ => t,
        }
}

/// An atom with what the bindings know of its variables.
pub open spec fn substitute(atom: AtomModel, b: BindingsModel) -> AtomModel {
    AtomModel { predicate: atom.predicate, args: atom.args.map_values(substitute_term(b)) }
}

/// What the first `k` arguments of a rule's head hand to the goal: where
/// the head has a variable that the body bound, and the goal has a
/// variable at the same place, the goal's variable gets the value.
pub open spec fn project(head: AtomModel, goal: AtomModel, b: BindingsModel, k: int) -> BindingsModel
    decreases k,
{
    if k <= 0 {
        no_bindings()
    } else {
        let r = project(head, goal, b, k - 1);
        match head.args[k - 1] {
            TermModel::Var(v) => match b_get(b, v) {
                Some(value) => if k - 1 < goal.args.len() {
                    match goal.args[k - 1] {
                        TermModel::Var(gv) => b_set(r, gv, value),
                        _ => r,
                    }
                } else {
                    r
                },
                None => r,
            },
            _ => r,
        }
    }
}

/// What a rule's head hands to the goal.
pub open spec fn project_onto(head: AtomModel, goal: AtomModel) -> spec_fn(
    BindingsModel,
) -> BindingsModel {
    |b: BindingsModel| project(head, goal, b, head.args.len() as int)
}

/// The bindings `b` extended by an answer.
pub open spec fn extended_by(b: BindingsModel) -> spec_fn(BindingsModel) -> Option<BindingsModel> {
    |r: BindingsModel| b_extend(b, r, r.len() as int)
}

/// What a literal leaves of bindings, given the answer of its atom under
/// them: a positive literal, the extensions of the bindings by each
/// answer that agrees with them; a negative literal, the bindings
/// themselves where there is no answer, and nothing where there is one.
pub open spec fn after_literal(
    b: BindingsModel,
    positive: bool,
    answers: Seq<BindingsModel>,
) -> Seq<BindingsModel> {
    if positive {
        answers.filter_map(extended_by(b))
    } else if answers.len() == 0 {
        seq![b]
    } else {
        Seq::empty()
    }
}

/// The answer of a goal at a depth: that of a built-in predicate, or what
/// the rules derive.
pub open spec fn eval_atom(g: GraphModel, rules: Seq<RuleModel>, atom: AtomModel, depth: nat) -> Seq<
    BindingsModel,
>
    decreases depth, 1int, 0int,
{
    match eval_builtin(g, atom) {
        Some(r) => r,
        None => eval_derived(g, rules, atom, depth, rules.len() as int),
    }
}

/// What the first `k` rules derive for a goal: for each rule of the
/// goal's predicate, in order, what its head hands to the goal from each
/// answer of its body. At depth 0 nothing is derived.
pub open spec fn eval_derived(
    g: GraphModel,
    rules: Seq<RuleModel>,
    atom: AtomModel,
    depth: nat,
    k: int,
) -> Seq<BindingsModel>
    decreases depth, 0int, k,
{
    if k <= 0 || depth == 0 || k > rules.len() {
        Seq::empty()
    } else {
        let before = eval_derived(g, rules, atom, depth, k - 1);
        let rule = rules[k - 1];
        if rule.head.predicate == atom.predicate {
            before + eval_body(
                g,
                rules,
                rule.body,
                (depth - 1) as nat,
                rule.body.len() as int,
            ).map_values(project_onto(rule.head, atom))
        } else {
            before
        }
    }
}

/// The answers of the first `k` literals of a body, from left to right:
/// before the first literal there is one answer that binds nothing.
pub open spec fn eval_body(
    g: GraphModel,
    rules: Seq<RuleModel>,
    body: Seq<LiteralModel>,
    depth: nat,
    k: int,
) -> Seq<BindingsModel>
    decreases depth, 3int, k,
{
    if k <= 0 || k > body.len() {
        seq![no_bindings()]
    } else {
        let current = eval_body(g, rules, body, depth, k - 1);
        eval_step(g, rules, current, body[k - 1], depth, current.len() as int)
    }
}

/// What a literal leaves of the first `j` of the current answers.
pub open spec fn eval_step(
    g: GraphModel,
    rules: Seq<RuleModel>,
    current: Seq<BindingsModel>,
    literal: LiteralModel,
    depth: nat,
    j: int,
) -> Seq<BindingsModel>
    decreases depth, 2int, j,
{
    if j <= 0 || j > current.len() {
        Seq::empty()
    } else {
        let b = current[j - 1];
        eval_step(g, rules, current, literal, depth, j - 1) + after_literal(
            b,
            literal is Positive,
            eval_atom(g, rules, substitute(literal.atom(), b), depth),
        )
    }
}

} // verus!
