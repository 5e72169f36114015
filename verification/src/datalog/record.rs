//! What the evaluation of a goal records: a step for every goal that was
//! evaluated on the way, in the order in which the evaluations ended, and
//! the counts of what the built-in predicates asked of the graph.

use vstd::prelude::*;

use crate::datalog::bindings::BindingsModel;
use crate::datalog::semantics::{
    eval_atom, eval_body, eval_builtin, reach, substitute, third_arg, type_filter, type_query,
};
use crate::datalog::trace::{charge, followed_by, nothing, one_step, Counts, Record, Step};
use crate::datalog::types::{AtomModel, LiteralModel, RuleModel, TermModel};
use crate::graph::model::GraphModel;
use crate::text::{spec_parse_number, text};

verus! {

/// The number of nodes that the first `k` counted types have together.
pub open spec fn found_of_types(g: GraphModel, k: int) -> nat
    decreases k,
{
    if k <= 0 {
        0
    } else {
        found_of_types(g, k - 1) + g.find(type_query(g.node_counts(None)[k - 1].0)).len()
    }
}

/// One look at a node by its id: the node counts as visited if it is
/// there.
pub open spec fn one_lookup(g: GraphModel, id_text: Seq<u8>) -> Counts {
    Counts {
        get_node_calls: 1,
        nodes_visited: match spec_parse_number(id_text) {
            Some(id) => if g.get_node(id).is_some() {
                1
            } else {
                0
            },
            None => 0,
        },
        ..Counts::zero()
    }
}

/// What `node(Id, Type)` asks of the graph: with a variable and a type,
/// one search by type; with two variables, one search for each counted
/// type; with an id, one look at the node. Every node that a search
/// answers counts as visited.
pub open spec fn cost_node(g: GraphModel, atom: AtomModel) -> Counts {
    if atom.args.len() < 2 {
        Counts::zero()
    } else {
        match (atom.args[0], atom.args[1]) {
            (TermModel::Var(v), TermModel::Const(t)) => Counts {
                find_by_type_calls: 1,
                nodes_visited: g.find(type_query(t)).len(),
                ..Counts::zero()
            },
            (TermModel::Var(iv), TermModel::Var(tv)) => Counts {
                find_by_type_calls: g.node_counts(None).len(),
                nodes_visited: found_of_types(g, g.node_counts(None).len() as int),
                ..Counts::zero()
            },
            (TermModel::Const(c), TermModel::Var(v)) => one_lookup(g, c),
            (TermModel::Const(c), TermModel::Const(t)) => one_lookup(g, c),
            _ => Counts::zero(),
        }
    }
}

/// What `edge` (where `outgoing` is set) or `incoming` asks of the graph:
/// the edges of one node, each of which counts as traversed.
pub open spec fn cost_edge(g: GraphModel, atom: AtomModel, outgoing: bool) -> Counts {
    if atom.args.len() < 2 {
        Counts::zero()
    } else {
        match atom.args[0] {
            TermModel::Const(s) => match spec_parse_number(s) {
                Some(id) => if outgoing {
                    Counts {
                        outgoing_edge_calls: 1,
                        edges_traversed: g.outgoing_edges(id, type_filter(third_arg(atom))).len(),
                        ..Counts::zero()
                    }
                } else {
                    Counts {
                        incoming_edge_calls: 1,
                        edges_traversed: g.incoming_edges(id, type_filter(third_arg(atom))).len(),
                        ..Counts::zero()
                    }
                },
                None => Counts::zero(),
            },
            _ => Counts::zero(),
        }
    }
}

/// What `attr(Id, Name, Value)` asks of the graph: one look at the node.
pub open spec fn cost_attr(g: GraphModel, atom: AtomModel) -> Counts {
    if atom.args.len() < 3 {
        Counts::zero()
    } else {
        match (atom.args[0], atom.args[1]) {
            (TermModel::Const(c), TermModel::Const(name)) => match spec_parse_number(c) {
                Some(id) => one_lookup(g, c),
                None => Counts::zero(),
            },
            _ => Counts::zero(),
        }
    }
}

/// What `path(Src, Dst)` asks of the graph: one walk, every node of
/// which counts as visited.
pub open spec fn cost_path(g: GraphModel, atom: AtomModel) -> Counts {
    if atom.args.len() < 2 {
        Counts::zero()
    } else {
        match atom.args[0] {
            TermModel::Const(s) => match spec_parse_number(s) {
                Some(src) => {
                    let walked = Counts {
                        bfs_calls: 1,
                        nodes_visited: reach(g, src).len(),
                        ..Counts::zero()
                    };
                    match atom.args[1] {
                        TermModel::Const(d) => if spec_parse_number(d).is_some() {
                            walked
                        } else {
                            Counts::zero()
                        },
                        _ => walked,
                    }
                },
                None => Counts::zero(),
            },
            _ => Counts::zero(),
        }
    }
}

/// What a built-in predicate asks of the graph. The tests on constants
/// ask nothing.
pub open spec fn cost_builtin(g: GraphModel, atom: AtomModel) -> Counts {
    let p = atom.predicate;
    if p == text("node"@) {
        cost_node(g, atom)
    } else if p == text("edge"@) {
        cost_edge(g, atom, true)
    } else if p == text("incoming"@) {
        cost_edge(g, atom, false)
    } else if p == text("path"@) {
        cost_path(g, atom)
    } else if p == text("attr"@) {
        cost_attr(g, atom)
    } else {
        Counts::zero()
    }
}

/// The step that the evaluation of a goal ends with.
pub open spec fn step_of(g: GraphModel, rules: Seq<RuleModel>, atom: AtomModel, depth: nat) -> Step {
    Step {
        operation: text("eval_atom"@),
        predicate: atom.predicate,
        args: atom.args,
        result_count: eval_atom(g, rules, atom, depth).len(),
        details: None,
    }
}

/// One rule was evaluated.
pub open spec fn one_rule() -> Counts {
    Counts { rule_evaluations: 1, ..Counts::zero() }
}

/// What the evaluation of a goal records: what answering it records,
/// and then its own step.
pub open spec fn record_atom(g: GraphModel, rules: Seq<RuleModel>, atom: AtomModel, depth: nat) -> Record
    decreases depth, 1int, 0int,
{
    followed_by(
        match eval_builtin(g, atom) {
            Some(r) => charge(cost_builtin(g, atom)),
            None => record_derived(g, rules, atom, depth, rules.len() as int),
        },
        one_step(step_of(g, rules, atom, depth)),
    )
}

/// What deriving a goal from the first `k` rules records: for each rule
/// of the goal's predicate one rule evaluation, and what its body
/// records.
pub open spec fn record_derived(
    g: GraphModel,
    rules: Seq<RuleModel>,
    atom: AtomModel,
    depth: nat,
    k: int,
) -> Record
    decreases depth, 0int, k,
{
    if k <= 0 || depth == 0 || k > rules.len() {
        nothing()
    } else {
        let before = record_derived(g, rules, atom, depth, k - 1);
        let rule = rules[k - 1];
        if rule.head.predicate == atom.predicate {
            followed_by(
                followed_by(before, charge(one_rule())),
                record_body(g, rules, rule.body, (depth - 1) as nat, rule.body.len() as int),
            )
        } else {
            before
        }
    }
}

/// What the first `k` literals of a body record.
pub open spec fn record_body(
    g: GraphModel,
    rules: Seq<RuleModel>,
    body: Seq<LiteralModel>,
    depth: nat,
    k: int,
) -> Record
    decreases depth, 3int, k,
{
    if k <= 0 || k > body.len() {
        nothing()
    } else {
        let current = eval_body(g, rules, body, depth, k - 1);
        followed_by(
            record_body(g, rules, body, depth, k - 1),
            record_step(g, rules, current, body[k - 1], depth, current.len() as int),
        )
    }
}

/// What a literal records for the first `j` of the current answers: for
/// each the evaluation of its atom under the answer.
pub open spec fn record_step(
    g: GraphModel,
    rules: Seq<RuleModel>,
    current: Seq<BindingsModel>,
    literal: LiteralModel,
    depth: nat,
    j: int,
) -> Record
    decreases depth, 2int, j,
{
    if j <= 0 || j > current.len() {
        nothing()
    } else {
        followed_by(
            record_step(g, rules, current, literal, depth, j - 1),
            record_atom(g, rules, substitute(literal.atom(), current[j - 1]), depth),
        )
    }
}

} // verus!
