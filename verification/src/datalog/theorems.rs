//! What holds of the evaluator: what a head hands to a goal, and what the
//! guarantee "no node without a way out" answers.

use vstd::prelude::*;
use vstd::seq_lib::*;

use crate::datalog::bindings::{
    b_extend, b_get, b_set, bound_at, lemma_bound, BindingsModel, ValueModel,
};
use crate::datalog::semantics::{
    after_literal, bind_id_and_type, eval_atom, eval_body, eval_builtin, eval_derived, eval_node,
    eval_path, eval_step, extended_by, no_bindings, nodes_by_type, project,
    project_onto, substitute, type_query, ways,
};
use crate::datalog::types::{AtomModel, LiteralModel, RuleModel, TermModel};
use crate::graph::model::{lemma_filter_empty, lemma_filter_push, GraphModel};
use crate::text::{decimal, lemma_number_of_decimal, lemma_text_injective, text};

verus! {

/// The goal's variable `var` stands, among the first `k` places, where
/// the head has a variable that the body bound.
pub open spec fn handed(head: AtomModel, goal: AtomModel, b: BindingsModel, var: Seq<u8>, k: int) -> bool {
    exists|i: int|
        0 <= i < k && i < goal.args.len() && #[trigger] goal.args[i] == TermModel::Var(var) && (
        head.args[i] matches TermModel::Var(hv) && b_get(b, hv).is_some())
}

proof fn lemma_get_after_set(b: BindingsModel, var: Seq<u8>, value: ValueModel, other: Seq<u8>)
    ensures
        b_get(b_set(b, var, value), other).is_some() <==> (other == var || b_get(b, other).is_some()),
{
    let after = b_set(b, var, value);
    lemma_bound(b, other, b.len() as int);
    lemma_bound(b, var, b.len() as int);
    lemma_bound(after, other, after.len() as int);
    match bound_at(b, var, b.len() as int) {
        Some(i) => {
            assert(after == b.update(i, (var, value)));
            if other == var {
                assert(after[i].0 == other);
            } else if b_get(b, other).is_some() {
                let j = bound_at(b, other, b.len() as int)->0;
                assert(after[j].0 == other);
            } else if b_get(after, other).is_some() {
                let j = bound_at(after, other, after.len() as int)->0;
                assert(b[j].0 == other);
            }
        },
        None => {
            assert(after == b.push((var, value)));
            if other == var {
                assert(after[b.len() as int].0 == other);
            } else if b_get(b, other).is_some() {
                let j = bound_at(b, other, b.len() as int)->0;
                assert(after[j].0 == other);
            } else if b_get(after, other).is_some() {
                let j = bound_at(after, other, after.len() as int)->0;
                if j < b.len() {
                    assert(b[j].0 == other);
                }
            }
        },
    }
}

/// A head hands a value to a variable of the goal only from a variable of
/// its own that the body bound: a variable of the head that the body
/// leaves unbound, as a rule that is not safe may have, gives the goal
/// nothing.
pub proof fn lemma_head_hands_bound_only(
    head: AtomModel,
    goal: AtomModel,
    b: BindingsModel,
    var: Seq<u8>,
    k: int,
)
    requires
        0 <= k <= head.args.len(),
    ensures
        b_get(project(head, goal, b, k), var).is_some() <==> handed(head, goal, b, var, k),
    decreases k,
{
    if k == 0 {
        assert(project(head, goal, b, 0) =~= Seq::<(Seq<u8>, ValueModel)>::empty());
    } else {
        lemma_head_hands_bound_only(head, goal, b, var, k - 1);
        let r = project(head, goal, b, k - 1);
        let here: bool = k - 1 < goal.args.len() && goal.args[k - 1] == TermModel::Var(var) && (
        head.args[k - 1] matches TermModel::Var(hv) && b_get(b, hv).is_some());
        assert(handed(head, goal, b, var, k) <==> (handed(head, goal, b, var, k - 1) || here)) by {
            if handed(head, goal, b, var, k) {
                let i = choose|i: int|
                    0 <= i < k && i < goal.args.len() && #[trigger] goal.args[i] == TermModel::Var(
                        var,
                    ) && (head.args[i] matches TermModel::Var(hv) && b_get(b, hv).is_some());
                if i < k - 1 {
                    assert(handed(head, goal, b, var, k - 1));
                }
            }
            if handed(head, goal, b, var, k - 1) {
                let i = choose|i: int|
                    0 <= i < k - 1 && i < goal.args.len() && #[trigger] goal.args[i]
                        == TermModel::Var(var) && (head.args[i] matches TermModel::Var(hv) && b_get(
                        b,
                        hv,
                    ).is_some());
                assert(0 <= i < k);
            }
            if here {
                assert(goal.args[k - 1] == TermModel::Var(var));
            }
        }
        match head.args[k - 1] {
            TermModel::Var(v) => match b_get(b, v) {
                Some(value) => if k - 1 < goal.args.len() {
                    match goal.args[k - 1] {
                        TermModel::Var(gv) => {
                            lemma_get_after_set(r, gv, value, var);
                        },
                        _ => {},
                    }
                },
                None => {},
            },
            _ => {},
        }
    }
}

/// A node with its type, as `node(X, T)` binds them.
pub open spec fn typed(x: Seq<u8>, t: Seq<u8>, id: u128, ty: Seq<u8>) -> BindingsModel {
    seq![(x, ValueModel::Id(id)), (t, ValueModel::Str(ty))]
}

/// The bindings are those of a node with its type.
pub open spec fn is_typed(b: BindingsModel, x: Seq<u8>, t: Seq<u8>) -> bool {
    b.len() == 2 && b[0].0 == x && b[0].1 is Id && b[1].0 == t
}

/// The node that the bindings bind first has no way out: no way of at
/// least one edge leads from it to any node.
pub open spec fn stuck(g: GraphModel) -> spec_fn(BindingsModel) -> bool {
    |b: BindingsModel| ways(g, b[0].1->Id_0).len() == 0
}

/// The first binding alone.
pub open spec fn first_only() -> spec_fn(BindingsModel) -> BindingsModel {
    |b: BindingsModel| seq![b[0]]
}

/// The rule `p(X) :- node(X, T), \+ path(X, _).`
pub open spec fn no_way_out_rule(p: Seq<u8>, x: Seq<u8>, t: Seq<u8>) -> RuleModel {
    RuleModel {
        head: AtomModel { predicate: p, args: seq![TermModel::Var(x)] },
        body: seq![
            LiteralModel::Positive(
                AtomModel {
                    predicate: text("node"@),
                    args: seq![TermModel::Var(x), TermModel::Var(t)],
                },
            ),
            LiteralModel::Negative(
                AtomModel {
                    predicate: text("path"@),
                    args: seq![TermModel::Var(x), TermModel::Wildcard],
                },
            ),
        ],
    }
}

proof fn lemma_path_is_builtin(g: GraphModel, atom: AtomModel)
    requires
        atom.predicate == text("path"@),
    ensures
        eval_builtin(g, atom) == Some(eval_path(g, atom)),
{
    reveal_strlit("path");
    reveal_strlit("node");
    reveal_strlit("edge");
    reveal_strlit("incoming");
    if text("path"@) == text("node"@) {
        lemma_text_injective("path"@, "node"@);
        assert("path"@[0] == 'p');
        assert("node"@[0] == 'n');
    }
    if text("path"@) == text("edge"@) {
        lemma_text_injective("path"@, "edge"@);
        assert("path"@[0] == 'p');
        assert("edge"@[0] == 'e');
    }
    if text("path"@) == text("incoming"@) {
        lemma_text_injective("path"@, "incoming"@);
        assert("path"@.len() == 4);
        assert("incoming"@.len() == 8);
    }
}

proof fn lemma_typed_shape(g: GraphModel, x: Seq<u8>, t: Seq<u8>, k: int, i: int)
    requires
        x != t,
        0 <= i < nodes_by_type(g, x, t, k).len(),
    ensures
        is_typed(nodes_by_type(g, x, t, k)[i], x, t),
    decreases k,
{
    if k > 0 {
        let before = nodes_by_type(g, x, t, k - 1);
        if i < before.len() {
            lemma_typed_shape(g, x, t, k - 1, i);
        } else {
            let ty = g.node_counts(None)[k - 1].0;
            let ids = g.find(type_query(ty));
            let id = ids[i - before.len()];
            let b = bind_id_and_type(x, t, ty)(id);
            assert(nodes_by_type(g, x, t, k)[i] == b);
            let one = b_set(no_bindings(), x, ValueModel::Id(id));
            assert(one =~= seq![(x, ValueModel::Id(id))]);
            assert(bound_at(one, t, 0).is_none());
            assert(bound_at(one, t, 1).is_none());
            assert(b =~= typed(x, t, id, ty));
        }
    }
}

/// The second step of the rule: of the nodes with their types, those
/// without a way out are left.
proof fn lemma_negative_step(
    g: GraphModel,
    rules: Seq<RuleModel>,
    x: Seq<u8>,
    t: Seq<u8>,
    current: Seq<BindingsModel>,
    depth: nat,
    j: int,
)
    requires
        x != t,
        0 <= j <= current.len(),
        forall|i: int| 0 <= i < current.len() ==> is_typed(#[trigger] current[i], x, t),
    ensures
        eval_step(g, rules, current, no_way_out_rule(text("p"@), x, t).body[1], depth, j)
            == current.subrange(0, j).filter(stuck(g)),
    decreases j,
{
    let lit = no_way_out_rule(text("p"@), x, t).body[1];
    if j == 0 {
        lemma_filter_empty(stuck(g));
        assert(current.subrange(0, 0) =~= Seq::<BindingsModel>::empty());
    } else {
        lemma_negative_step(g, rules, x, t, current, depth, j - 1);
        let b = current[j - 1];
        assert(is_typed(b, x, t));
        let id = b[0].1->Id_0;
        let atom = lit.atom();
        let sub = substitute(atom, b);
        // X is bound to the id, which becomes a constant
        assert(bound_at(b, x, 0).is_none());
        assert(bound_at(b, x, 1) == Some(0int));
        assert(bound_at(b, x, 2) == Some(0int));
        assert(b_get(b, x) == Some(b[0].1));
        assert(sub.args =~= seq![TermModel::Const(decimal(id as nat)), TermModel::Wildcard]);
        lemma_number_of_decimal(id);
        lemma_path_is_builtin(g, sub);
        let answers = eval_atom(g, rules, sub, depth);
        assert(answers == eval_path(g, sub));
        let others = ways(g, id);
        assert(answers.len() == 0 <==> others.len() == 0);
        assert(current.subrange(0, j) =~= current.subrange(0, j - 1).push(b));
        lemma_filter_push(current.subrange(0, j - 1), b, stuck(g));
        assert(stuck(g)(b) == (others.len() == 0));
        let kept = after_literal(b, false, answers);
        if others.len() == 0 {
            assert(kept =~= seq![b]);
            assert(current.subrange(0, j - 1).filter(stuck(g)) + kept =~= current.subrange(
                0,
                j - 1,
            ).filter(stuck(g)).push(b));
        } else {
            assert(kept =~= Seq::<BindingsModel>::empty());
            assert(current.subrange(0, j - 1).filter(stuck(g)) + kept =~= current.subrange(
                0,
                j - 1,
            ).filter(stuck(g)));
        }
    }
}

/// Bindings of two different variables extend the empty bindings to
/// themselves.
proof fn lemma_extend_empty(b: BindingsModel, x: Seq<u8>, t: Seq<u8>)
    requires
        x != t,
        is_typed(b, x, t),
    ensures
        b_extend(no_bindings(), b, 2) == Some(b),
{
    let e = no_bindings();
    assert(b_extend(e, b, 0) == Some(e));
    assert(bound_at(e, b[0].0, 0).is_none());
    let one = e.push(b[0]);
    assert(b_extend(e, b, 1) == Some(one));
    assert(bound_at(one, b[1].0, 0).is_none());
    assert(bound_at(one, b[1].0, 1).is_none());
    assert(one.push(b[1]) =~= b);
}

proof fn lemma_filter_map_all<A>(s: Seq<A>, f: spec_fn(A) -> Option<A>)
    requires
        forall|i: int| 0 <= i < s.len() ==> f(#[trigger] s[i]) == Some(s[i]),
    ensures
        s.filter_map(f) == s,
    decreases s.len(),
{
    if s.len() > 0 {
        let front = s.drop_last();
        assert forall|i: int| 0 <= i < front.len() implies f(#[trigger] front[i]) == Some(
            front[i],
        ) by {
            assert(front[i] == s[i]);
        }
        lemma_filter_map_all(front, f);
        assert(s.last() == s[s.len() - 1]);
        assert(front + seq![s.last()] =~= s);
    } else {
        assert(s.filter_map(f) =~= s);
    }
}

/// The guarantee `p(X) :- node(X, T), \+ path(X, _).` answers the goal
/// `p(X)` with exactly the nodes that `node(X, T)` lists and from which no
/// way of at least one edge leads anywhere, in the order of that list,
/// each bound to `X`. (`node(X, T)` lists the nodes of every counted type: a node
/// without a type is not among them.)
pub proof fn lemma_no_way_out(g: GraphModel, p: Seq<u8>, x: Seq<u8>, t: Seq<u8>, depth: nat)
    requires
        x != t,
        depth >= 1,
        eval_builtin(g, AtomModel { predicate: p, args: seq![TermModel::Var(x)] }).is_none(),
    ensures
        eval_atom(
            g,
            seq![no_way_out_rule(p, x, t)],
            AtomModel { predicate: p, args: seq![TermModel::Var(x)] },
            depth,
        ) == nodes_by_type(g, x, t, g.node_counts(None).len() as int).filter(stuck(g)).map_values(
            first_only(),
        ),
{
    let rule = no_way_out_rule(p, x, t);
    let rules = seq![rule];
    let goal = AtomModel { predicate: p, args: seq![TermModel::Var(x)] };
    let d = (depth - 1) as nat;
    let listed = nodes_by_type(g, x, t, g.node_counts(None).len() as int);
    assert forall|i: int| 0 <= i < listed.len() implies is_typed(#[trigger] listed[i], x, t) by {
        lemma_typed_shape(g, x, t, g.node_counts(None).len() as int, i);
    }
    // the first literal lists the nodes
    let start = seq![no_bindings()];
    assert(eval_body(g, rules, rule.body, d, 0) == start);
    let node_atom = rule.body[0].atom();
    let sub = substitute(node_atom, no_bindings());
    assert(bound_at(no_bindings(), x, 0).is_none());
    assert(bound_at(no_bindings(), t, 0).is_none());
    assert(sub.args =~= node_atom.args);
    assert(sub == node_atom);
    assert(eval_builtin(g, node_atom) == Some(eval_node(g, node_atom)));
    assert(eval_atom(g, rules, node_atom, d) == listed);
    assert forall|i: int| 0 <= i < listed.len() implies extended_by(no_bindings())(
        #[trigger] listed[i],
    ) == Some(listed[i]) by {
        lemma_extend_empty(listed[i], x, t);
    }
    lemma_filter_map_all(listed, extended_by(no_bindings()));
    assert(eval_step(g, rules, start, rule.body[0], d, 0) =~= Seq::<BindingsModel>::empty());
    assert(eval_step(g, rules, start, rule.body[0], d, 1) =~= listed);
    assert(eval_body(g, rules, rule.body, d, 1) == listed);
    // the second literal leaves those without a way out
    assert(rule.body[1] == no_way_out_rule(text("p"@), x, t).body[1]);
    lemma_negative_step(g, rules, x, t, listed, d, listed.len() as int);
    assert(listed.subrange(0, listed.len() as int) =~= listed);
    let left = listed.filter(stuck(g));
    assert(eval_body(g, rules, rule.body, d, 2) == left);
    // the head hands X to the goal
    let handed_on = left.map_values(project_onto(rule.head, goal));
    assert(handed_on =~= left.map_values(first_only())) by {
        assert forall|i: int| 0 <= i < left.len() implies project_onto(rule.head, goal)(left[i])
            == first_only()(#[trigger] left[i]) by {
            let b = left[i];
            listed.lemma_filter_pred(stuck(g), i);
            assert(left.contains(b));
            listed.lemma_filter_contains_rev(stuck(g), b);
            let k = choose|k: int| 0 <= k < listed.len() && listed[k] == b;
            assert(is_typed(listed[k], x, t));
            assert(bound_at(b, x, 0).is_none());
            assert(bound_at(b, x, 1) == Some(0int));
            assert(bound_at(b, x, 2) == Some(0int));
            assert(project(rule.head, goal, b, 0) == no_bindings());
            assert(bound_at(no_bindings(), x, 0).is_none());
            assert(project(rule.head, goal, b, 1) =~= seq![(x, b[0].1)]);
            assert(seq![b[0]] =~= seq![(x, b[0].1)]);
        }
    }
    assert(eval_derived(g, rules, goal, depth, 0) =~= Seq::<BindingsModel>::empty());
    assert(eval_derived(g, rules, goal, depth, 1) =~= handed_on);
}

} // verus!
