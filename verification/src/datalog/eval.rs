//! The evaluator: answers a goal from the rules and the live graph.

use vstd::prelude::*;
use vstd::string::*;

use crate::datalog::bindings::{b_set, bindings_models, Bindings, BindingsModel, Value};
use crate::datalog::json::{attribute_text, json_field};
use crate::datalog::record::{
    cost_attr, cost_builtin, cost_edge, cost_node, cost_path, found_of_types, one_rule, record_atom,
    record_body, record_derived, record_step, step_of,
};
use crate::datalog::semantics::{
    after_literal, begins, begins_not, bind_id, bind_id_and_type, comes_back, differs, edge_match,
    eval_atom, landed_on,
    eval_attr, eval_body, eval_builtin, eval_derived, eval_edge, eval_incoming, eval_node,
    eval_path, eval_step, eval_test, extended_by, fail, in_match, no_bindings, node_attr,
    nodes_by_type, out_match, project, project_onto, reach, substitute, substitute_term,
    succeed, third_arg, type_filter,
};
use crate::datalog::trace::{
    add_up, after, capped, charge, followed_by, lemma_charged, lemma_followed_by, lemma_nothing,
    now_micros, one_step, Counts, Trace, TraceModel,
};
use crate::datalog::types::{
    literal_models, rule_models, term_models, Atom, Literal, Rule, RuleModel, Term, TermModel,
};
use crate::graph::engine::{opt_type_texts, GraphEngine};
use crate::graph::model::{lemma_filter_empty, lemma_filter_step, type_texts, GraphModel};
use crate::graph::tally::{clipped, counts_model, opt_pattern_texts};
use crate::storage::{edge_models, EdgeModel, EdgeRecord, NodeRecord};
use crate::text::{bytes_start_with, opt_text, parse_number, str_eq, text};

verus! {

/// How many rules deep a goal is followed. A derived goal that lies deeper
/// has no answer: rules that lead back to themselves are cut there.
pub const MAX_RULE_DEPTH: usize = 64;

/// How many steps deep `path` looks.
pub const PATH_DEPTH: usize = 100;

/// The answer of a goal that does not hold.
fn no() -> (r: Vec<Bindings>)
    ensures
        bindings_models(r@) == fail(),
{
    let r: Vec<Bindings> = Vec::new();
    assert(bindings_models(r@) =~= fail());
    r
}

/// The answer that holds one set of bindings.
fn one(b: Bindings) -> (r: Vec<Bindings>)
    ensures
        bindings_models(r@) == seq![b@],
{
    let mut r: Vec<Bindings> = Vec::new();
    r.push(b);
    assert(bindings_models(r@) =~= seq![b@]);
    r
}

/// The answer of a goal that holds and binds nothing.
fn yes() -> (r: Vec<Bindings>)
    ensures
        bindings_models(r@) == succeed(),
{
    one(Bindings::new())
}

/// Bindings of one variable.
fn bind(var: &str, value: Value) -> (b: Bindings)
    ensures
        b@ == b_set(no_bindings(), text(var@), value@),
{
    let mut b = Bindings::new();
    b.set(var, value);
    b
}

/// Filtering and mapping a prefix that is one longer.
pub proof fn lemma_filter_map_step<A, B>(s: Seq<A>, i: int, f: spec_fn(A) -> Option<B>)
    requires
        0 <= i < s.len(),
    ensures
        s.subrange(0, i + 1).filter_map(f) == match f(s[i]) {
            Some(y) => s.subrange(0, i).filter_map(f).push(y),
            None => s.subrange(0, i).filter_map(f),
        },
{
    let t = s.subrange(0, i + 1);
    assert(t.drop_last() =~= s.subrange(0, i));
    assert(t.last() == s[i]);
    match f(s[i]) {
        Some(y) => {
            assert(s.subrange(0, i).filter_map(f) + seq![y] =~= s.subrange(0, i).filter_map(f).push(
                y,
            ));
        },
        None => {},
    }
}

/// Each id bound to `var`.
fn bind_ids(ids: &Vec<u128>, var: &str) -> (r: Vec<Bindings>)
    ensures
        bindings_models(r@) == ids@.map_values(bind_id(text(var@))),
{
    let mut out: Vec<Bindings> = Vec::new();
    let mut i: usize = 0;
    while i < ids.len()
        invariant
            i <= ids@.len(),
            bindings_models(out@) == ids@.map_values(bind_id(text(var@))).subrange(0, i as int),
        decreases ids@.len() - i,
    {
        let ghost before = out@;
        let b = bind(var, Value::Id(ids[i]));
        let ghost bm = b@;
        out.push(b);
        i += 1;
        proof {
            assert(bindings_models(out@) =~= bindings_models(before).push(bm));
            assert(bindings_models(out@) =~= ids@.map_values(bind_id(text(var@))).subrange(
                0,
                i as int,
            ));
        }
    }
    assert(ids@.map_values(bind_id(text(var@))).subrange(0, ids@.len() as int) =~= ids@.map_values(
        bind_id(text(var@)),
    ));
    out
}

/// `node(Id, Type)`.
fn eval_node_in(engine: &GraphEngine, atom: &Atom, trace: &mut Trace) -> (r: Vec<Bindings>)
    requires
        engine.wf(),
    ensures
        bindings_models(r@) == eval_node(engine@, atom@),
        final(trace)@ == after(old(trace)@, charge(cost_node(engine@, atom@))),
{
    proof {
        lemma_charged(old(trace)@, cost_node(engine@, atom@));
    }
    let args = atom.args();
    if args.len() < 2 {
        return no();
    }
    let ghost g = engine@;
    assert(atom@.args[0] == args@[0]@);
    assert(atom@.args[1] == args@[1]@);
    match &args[0] {
        Term::Var(var) => match &args[1] {
            Term::Const(node_type) => {
                trace.stats.find_by_type_calls = add_up(trace.stats.find_by_type_calls, 1);
                let ids = engine.find_by_type(node_type.as_str());
                trace.stats.nodes_visited = add_up(trace.stats.nodes_visited, ids.len());
                bind_ids(&ids, var.as_str())
            },
            Term::Var(type_var) => {
                let counts = engine.count_nodes_by_type(None);
                let ghost tally = g.node_counts(None);
                assert(opt_pattern_texts(None) == None::<Seq<Seq<u8>>>);
                assert(counts_model(counts@) == clipped(tally));
                let mut out: Vec<Bindings> = Vec::new();
                let mut k: usize = 0;
                assert(bindings_models(out@) =~= nodes_by_type(
                    g,
                    text(var@),
                    text(type_var@),
                    0,
                ));
                while k < counts.len()
                    invariant
                        k <= counts@.len(),
                        engine.wf(),
                        g == engine@,
                        tally == g.node_counts(None),
                        counts_model(counts@) == clipped(tally),
                        counts@.len() == tally.len(),
                        trace@ == (TraceModel {
                            counts: Counts {
                                find_by_type_calls: capped(
                                    old(trace)@.counts.find_by_type_calls + k,
                                ) as nat,
                                nodes_visited: capped(
                                    (old(trace)@.counts.nodes_visited + found_of_types(
                                        g,
                                        k as int,
                                    )) as int,
                                ) as nat,
                                ..old(trace)@.counts
                            },
                            ..old(trace)@
                        }),
                        bindings_models(out@) == nodes_by_type(
                            g,
                            text(var@),
                            text(type_var@),
                            k as int,
                        ),
                    decreases counts@.len() - k,
                {
                    let t = &counts[k].0;
                    proof {
                        assert(counts_model(counts@)[k as int].0 == text(t@));
                        assert(clipped(tally)[k as int].0 == tally[k as int].0);
                    }
                    trace.stats.find_by_type_calls = add_up(trace.stats.find_by_type_calls, 1);
                    let ids = engine.find_by_type(t.as_str());
                    trace.stats.nodes_visited = add_up(trace.stats.nodes_visited, ids.len());
                    let ghost f = bind_id_and_type(text(var@), text(type_var@), text(t@));
                    let ghost base = bindings_models(out@);
                    let mut i: usize = 0;
                    assert(bindings_models(out@) =~= base + ids@.map_values(f).subrange(0, 0));
                    while i < ids.len()
                        invariant
                            i <= ids@.len(),
                            f == bind_id_and_type(text(var@), text(type_var@), text(t@)),
                            bindings_models(out@) == base + ids@.map_values(f).subrange(
                                0,
                                i as int,
                            ),
                        decreases ids@.len() - i,
                    {
                        let ghost before = out@;
                        let mut b = Bindings::new();
                        b.set(var.as_str(), Value::Id(ids[i]));
                        b.set(type_var.as_str(), Value::Str(t.clone()));
                        let ghost bm = b@;
                        out.push(b);
                        i += 1;
                        proof {
                            assert(bindings_models(out@) =~= bindings_models(before).push(bm));
                            assert(bindings_models(out@) =~= base + ids@.map_values(f).subrange(
                                0,
                                i as int,
                            ));
                        }
                    }
                    assert(ids@.map_values(f).subrange(0, ids@.len() as int) =~= ids@.map_values(
                        f,
                    ));
                    k += 1;
                }
                out
            },
            Term::Wildcard => no(),
        },
        Term::Const(id_text) => match &args[1] {
            Term::Var(var) => {
                trace.stats.get_node_calls = add_up(trace.stats.get_node_calls, 1);
                match parse_number(id_text.as_str()) {
                    Some(id) => match engine.get_node(id) {
                        Some(node) => {
                            trace.stats.nodes_visited = add_up(trace.stats.nodes_visited, 1);
                            match node.node_type {
                                Some(t) => one(bind(var.as_str(), Value::Str(t))),
                                None => no(),
                            }
                        },
                        None => no(),
                    },
                    None => no(),
                }
            },
            Term::Const(expected) => {
                trace.stats.get_node_calls = add_up(trace.stats.get_node_calls, 1);
                match parse_number(id_text.as_str()) {
                    Some(id) => match engine.get_node(id) {
                        Some(node) => {
                            trace.stats.nodes_visited = add_up(trace.stats.nodes_visited, 1);
                            let same = match &node.node_type {
                                Some(t) => str_eq(t.as_str(), expected.as_str()),
                                None => false,
                            };
                            if same {
                                yes()
                            } else {
                                no()
                            }
                        },
                        None => no(),
                    },
                    None => no(),
                }
            },
            Term::Wildcard => no(),
        },
        Term::Wildcard => no(),
    }
}

/// The model of an optional term.
pub open spec fn opt_term(t: Option<&Term>) -> Option<TermModel> {
    match t {
        Some(t) => Some(t@),
        None => None,
    }
}

/// What an edge binds.
fn edge_bindings(end_term: &Term, type_term: Option<&Term>, end: u128, edge_type: &Option<String>) -> (r:
    Option<Bindings>)
    ensures
        r.is_some() == edge_match(end_term@, opt_term(type_term), end, opt_text(*edge_type))
            .is_some(),
        r matches Some(b) ==> Some(b@) == edge_match(
            end_term@,
            opt_term(type_term),
            end,
            opt_text(*edge_type),
        ),
{
    let mut b = Bindings::new();
    match end_term {
        Term::Var(v) => {
            b.set(v.as_str(), Value::Id(end));
        },
        Term::Const(s) => {
            if parse_number(s.as_str()) != Some(end) {
                return None;
            }
        },
        Term::Wildcard => {},
    }
    match type_term {
        Some(Term::Var(tv)) => match edge_type {
            Some(t) => {
                b.set(tv.as_str(), Value::Str(t.clone()));
            },
            None => {},
        },
        _ => {},
    }
    Some(b)
}

/// `edge(Src, Dst, Type)` where `outgoing` is set, `incoming(Dst, Src,
/// Type)` where it is not.
fn eval_edges_in(engine: &GraphEngine, atom: &Atom, outgoing: bool, trace: &mut Trace) -> (r: Vec<
    Bindings,
>)
    requires
        engine.wf(),
    ensures
        bindings_models(r@) == if outgoing {
            eval_edge(engine@, atom@)
        } else {
            eval_incoming(engine@, atom@)
        },
        final(trace)@ == after(old(trace)@, charge(cost_edge(engine@, atom@, outgoing))),
{
    proof {
        lemma_charged(old(trace)@, cost_edge(engine@, atom@, outgoing));
    }
    let args = atom.args();
    if args.len() < 2 {
        return no();
    }
    assert(atom@.args[0] == args@[0]@);
    assert(atom@.args[1] == args@[1]@);
    let type_term: Option<&Term> = if args.len() > 2 {
        assert(atom@.args[2] == args@[2]@);
        Some(&args[2])
    } else {
        None
    };
    assert(opt_term(type_term) == third_arg(atom@));
    let near: u128 = match &args[0] {
        Term::Const(s) => match parse_number(s.as_str()) {
            Some(id) => id,
            None => {
                return no();
            },
        },
        _ => {
            return no();
        },
    };
    let mut wanted: Vec<&str> = Vec::new();
    let has_filter: bool = match type_term {
        Some(Term::Const(s)) => {
            wanted.push(s.as_str());
            true
        },
        _ => false,
    };
    let filter: Option<&[&str]> = if has_filter {
        Some(wanted.as_slice())
    } else {
        None
    };
    proof {
        if has_filter {
            assert(type_texts(wanted@) =~= seq![text(wanted@[0]@)]);
        }
        assert(opt_type_texts(filter) == type_filter(third_arg(atom@)));
    }
    let edges: Vec<EdgeRecord> = if outgoing {
        trace.stats.outgoing_edge_calls = add_up(trace.stats.outgoing_edge_calls, 1);
        engine.get_outgoing_edges(near, filter)
    } else {
        trace.stats.incoming_edge_calls = add_up(trace.stats.incoming_edge_calls, 1);
        engine.get_incoming_edges(near, filter)
    };
    trace.stats.edges_traversed = add_up(trace.stats.edges_traversed, edges.len());
    let ghost f = if outgoing {
        out_match(args@[1]@, third_arg(atom@))
    } else {
        in_match(args@[1]@, third_arg(atom@))
    };
    let ghost ems = edge_models(edges@);
    let mut out: Vec<Bindings> = Vec::new();
    let mut i: usize = 0;
    assert(ems.subrange(0, 0) =~= Seq::<EdgeModel>::empty());
    assert(bindings_models(out@) =~= ems.subrange(0, 0).filter_map(f));
    while i < edges.len()
        invariant
            i <= edges@.len(),
            args@.len() >= 2,
            ems == edge_models(edges@),
            opt_term(type_term) == third_arg(atom@),
            f == if outgoing {
                out_match(args@[1]@, third_arg(atom@))
            } else {
                in_match(args@[1]@, third_arg(atom@))
            },
            bindings_models(out@) == ems.subrange(0, i as int).filter_map(f),
        decreases edges@.len() - i,
    {
        let e = &edges[i];
        proof {
            assert(ems[i as int] == e@);
            lemma_filter_map_step(ems, i as int, f);
        }
        let far: u128 = if outgoing {
            e.dst
        } else {
            e.src
        };
        match edge_bindings(&args[1], type_term, far, &e.edge_type) {
            Some(b) => {
                let ghost before = out@;
                let ghost bm = b@;
                out.push(b);
                assert(bindings_models(out@) =~= bindings_models(before).push(bm));
            },
            None => {},
        }
        i += 1;
    }
    assert(ems.subrange(0, edges@.len() as int) =~= ems);
    out
}

/// The attribute of a node under a name.
fn attribute_of(node: NodeRecord, name: &str) -> (r: Option<String>)
    ensures
        opt_text(r) == node_attr(node@, text(name@)),
{
    if str_eq(name, "name") {
        node.name
    } else if str_eq(name, "file") {
        node.file
    } else if str_eq(name, "type") {
        node.node_type
    } else {
        match &node.metadata {
            Some(m) => attribute_text(json_field(m.as_str(), name)),
            None => None,
        }
    }
}

/// `attr(Id, Name, Value)`.
fn eval_attr_in(engine: &GraphEngine, atom: &Atom, trace: &mut Trace) -> (r: Vec<Bindings>)
    requires
        engine.wf(),
    ensures
        bindings_models(r@) == eval_attr(engine@, atom@),
        final(trace)@ == after(old(trace)@, charge(cost_attr(engine@, atom@))),
{
    proof {
        lemma_charged(old(trace)@, cost_attr(engine@, atom@));
    }
    let args = atom.args();
    if args.len() < 3 {
        return no();
    }
    assert(atom@.args[0] == args@[0]@);
    assert(atom@.args[1] == args@[1]@);
    assert(atom@.args[2] == args@[2]@);
    let id: u128 = match &args[0] {
        Term::Const(s) => match parse_number(s.as_str()) {
            Some(id) => id,
            None => {
                return no();
            },
        },
        _ => {
            return no();
        },
    };
    let name: &str = match &args[1] {
        Term::Const(n) => n.as_str(),
        _ => {
            return no();
        },
    };
    trace.stats.get_node_calls = add_up(trace.stats.get_node_calls, 1);
    let node = match engine.get_node(id) {
        Some(n) => n,
        None => {
            return no();
        },
    };
    trace.stats.nodes_visited = add_up(trace.stats.nodes_visited, 1);
    let value = match attribute_of(node, name) {
        Some(v) => v,
        None => {
            return no();
        },
    };
    match &args[2] {
        Term::Var(v) => one(bind(v.as_str(), Value::Str(value))),
        Term::Const(expected) => {
            if str_eq(value.as_str(), expected.as_str()) {
                yes()
            } else {
                no()
            }
        },
        Term::Wildcard => yes(),
    }
}

/// Whether the list holds the id.
fn holds_id(ids: &Vec<u128>, id: u128) -> (r: bool)
    ensures
        r == ids@.contains(id),
{
    let mut k: usize = 0;
    while k < ids.len()
        invariant
            k <= ids@.len(),
            forall|j: int| 0 <= j < k ==> ids@[j] != id,
        decreases ids@.len() - k,
    {
        if ids[k] == id {
            assert(ids@[k as int] == id);
            return true;
        }
        k += 1;
    }
    false
}

/// Whether a node that the walk from `src` reached has an edge to `src`.
fn leads_back(engine: &GraphEngine, reached: &Vec<u128>, src: u128) -> (r: bool)
    requires
        engine.wf(),
        reached@ == reach(engine@, src),
    ensures
        r == comes_back(engine@, src),
{
    let ghost g = engine@;
    let types: Vec<&str> = Vec::new();
    proof {
        assert(type_texts(types@) =~= Seq::<Seq<u8>>::empty());
    }
    let mut i: usize = 0;
    while i < reached.len()
        invariant
            i <= reached@.len(),
            engine.wf(),
            g == engine@,
            reached@ == reach(g, src),
            type_texts(types@) == Seq::<Seq<u8>>::empty(),
            forall|j: int| 0 <= j < i ==> !(#[trigger] g.neighbors(reached@[j], Seq::empty())).contains(src),
        decreases reached@.len() - i,
    {
        let ns = engine.neighbors(reached[i], types.as_slice());
        if holds_id(&ns, src) {
            assert(g.neighbors(reach(g, src)[i as int], Seq::empty()).contains(src));
            return true;
        }
        i += 1;
    }
    false
}

/// `path(Src, Dst)`.
fn eval_path_in(engine: &GraphEngine, atom: &Atom, trace: &mut Trace) -> (r: Vec<Bindings>)
    requires
        engine.wf(),
    ensures
        bindings_models(r@) == eval_path(engine@, atom@),
        final(trace)@ == after(old(trace)@, charge(cost_path(engine@, atom@))),
{
    proof {
        lemma_charged(old(trace)@, cost_path(engine@, atom@));
    }
    let args = atom.args();
    if args.len() < 2 {
        return no();
    }
    let ghost g = engine@;
    assert(atom@.args[0] == args@[0]@);
    assert(atom@.args[1] == args@[1]@);
    let src: u128 = match &args[0] {
        Term::Const(s) => match parse_number(s.as_str()) {
            Some(id) => id,
            None => {
                return no();
            },
        },
        _ => {
            return no();
        },
    };
    let dst: Option<u128> = match &args[1] {
        Term::Const(d) => match parse_number(d.as_str()) {
            Some(id) => Some(id),
            None => {
                return no();
            },
        },
        _ => None,
    };
    let mut start: Vec<u128> = Vec::new();
    start.push(src);
    let types: Vec<&str> = Vec::new();
    proof {
        assert(start@ =~= seq![src]);
        assert(type_texts(types@) =~= Seq::<Seq<u8>>::empty());
    }
    trace.stats.bfs_calls = add_up(trace.stats.bfs_calls, 1);
    let reachable = engine.bfs(start.as_slice(), PATH_DEPTH, types.as_slice());
    trace.stats.nodes_visited = add_up(trace.stats.nodes_visited, reachable.len());
    assert(reachable@ == reach(g, src));
    let back = leads_back(engine, &reachable, src);
    let ghost f = landed_on(g, src);
    let mut others: Vec<u128> = Vec::new();
    let mut i: usize = 0;
    proof {
        lemma_filter_empty(f);
        assert(reachable@.subrange(0, 0) =~= Seq::<u128>::empty());
    }
    while i < reachable.len()
        invariant
            i <= reachable@.len(),
            f == landed_on(g, src),
            back == comes_back(g, src),
            others@ == reachable@.subrange(0, i as int).filter(f),
        decreases reachable@.len() - i,
    {
        proof {
            lemma_filter_step(reachable@, i as int, f);
        }
        if reachable[i] != src || back {
            others.push(reachable[i]);
        }
        i += 1;
    }
    assert(reachable@.subrange(0, reachable@.len() as int) =~= reachable@);
    match &args[1] {
        Term::Const(_) => {
            let d: u128 = dst.unwrap();
            if holds_id(&others, d) {
                yes()
            } else {
                no()
            }
        },
        Term::Var(v) => bind_ids(&others, v.as_str()),
        Term::Wildcard => {
            if others.len() > 0 {
                yes()
            } else {
                no()
            }
        },
    }
}

/// `neq`, `starts_with` and `not_starts_with`: 0 stands for the first, 1
/// for the second, 2 for the third.
fn eval_test_in(atom: &Atom, which: u8) -> (r: Vec<Bindings>)
    requires
        which < 3,
    ensures
        bindings_models(r@) == eval_test(
            atom@,
            if which == 0 {
                differs()
            } else if which == 1 {
                begins()
            } else {
                begins_not()
            },
        ),
{
    let args = atom.args();
    if args.len() < 2 {
        return no();
    }
    assert(atom@.args[0] == args@[0]@);
    assert(atom@.args[1] == args@[1]@);
    let a: &str = match &args[0] {
        Term::Const(s) => s.as_str(),
        _ => {
            return no();
        },
    };
    let b: &str = match &args[1] {
        Term::Const(s) => s.as_str(),
        _ => {
            return no();
        },
    };
    let holds = if which == 0 {
        !str_eq(a, b)
    } else if which == 1 {
        bytes_start_with(a.as_bytes(), b.as_bytes())
    } else {
        !bytes_start_with(a.as_bytes(), b.as_bytes())
    };
    if holds {
        yes()
    } else {
        no()
    }
}

/// The answer of a built-in predicate; `None` for any other predicate.
fn eval_builtin_in(engine: &GraphEngine, atom: &Atom, trace: &mut Trace) -> (r: Option<Vec<Bindings>>)
    requires
        engine.wf(),
    ensures
        r.is_some() == eval_builtin(engine@, atom@).is_some(),
        r matches Some(v) ==> Some(bindings_models(v@)) == eval_builtin(engine@, atom@),
        final(trace)@ == after(old(trace)@, charge(cost_builtin(engine@, atom@))),
{
    proof {
        lemma_charged(old(trace)@, cost_builtin(engine@, atom@));
    }
    let p = atom.predicate();
    if str_eq(p, "node") {
        Some(eval_node_in(engine, atom, trace))
    } else if str_eq(p, "edge") {
        Some(eval_edges_in(engine, atom, true, trace))
    } else if str_eq(p, "incoming") {
        Some(eval_edges_in(engine, atom, false, trace))
    } else if str_eq(p, "path") {
        Some(eval_path_in(engine, atom, trace))
    } else if str_eq(p, "attr") {
        Some(eval_attr_in(engine, atom, trace))
    } else if str_eq(p, "neq") {
        Some(eval_test_in(atom, 0))
    } else if str_eq(p, "starts_with") {
        Some(eval_test_in(atom, 1))
    } else if str_eq(p, "not_starts_with") {
        Some(eval_test_in(atom, 2))
    } else {
        None
    }
}

/// An atom with what the bindings know of its variables.
pub fn substitute_atom(atom: &Atom, bindings: &Bindings) -> (r: Atom)
    ensures
        r@ == substitute(atom@, bindings@),
{
    let args = atom.args();
    let ghost f = substitute_term(bindings@);
    let ghost ms = term_models(args@);
    let mut out: Vec<Term> = Vec::new();
    let mut i: usize = 0;
    assert(term_models(out@) =~= ms.map_values(f).subrange(0, 0));
    while i < args.len()
        invariant
            i <= args@.len(),
            ms == term_models(args@),
            f == substitute_term(bindings@),
            term_models(out@) == ms.map_values(f).subrange(0, i as int),
        decreases args@.len() - i,
    {
        assert(ms[i as int] == args@[i as int]@);
        let t: Term = match &args[i] {
            Term::Var(v) => match bindings.get(v.as_str()) {
                Some(value) => Term::Const(value.as_str()),
                None => args[i].clone(),
            },
            _ => args[i].clone(),
        };
        let ghost before = out@;
        let ghost tm = t@;
        out.push(t);
        i += 1;
        proof {
            assert(term_models(out@) =~= term_models(before).push(tm));
            assert(term_models(out@) =~= ms.map_values(f).subrange(0, i as int));
        }
    }
    assert(ms.map_values(f).subrange(0, args@.len() as int) =~= ms.map_values(f));
    Atom::new(atom.predicate(), out)
}

/// What a rule's head hands to the goal from an answer of its body.
pub fn project_to_head(head: &Atom, goal: &Atom, bindings: &Bindings) -> (r: Bindings)
    ensures
        r@ == project(head@, goal@, bindings@, head@.args.len() as int),
{
    let hargs = head.args();
    let gargs = goal.args();
    let mut result = Bindings::new();
    let mut i: usize = 0;
    while i < hargs.len()
        invariant
            i <= hargs@.len(),
            term_models(hargs@) == head@.args,
            term_models(gargs@) == goal@.args,
            result@ == project(head@, goal@, bindings@, i as int),
        decreases hargs@.len() - i,
    {
        assert(head@.args[i as int] == hargs@[i as int]@);
        if let Term::Var(v) = &hargs[i] {
            if let Some(value) = bindings.get(v.as_str()) {
                if i < gargs.len() {
                    assert(goal@.args[i as int] == gargs@[i as int]@);
                    if let Term::Var(gv) = &gargs[i] {
                        result.set(gv.as_str(), value.clone());
                    }
                }
            }
        }
        i += 1;
    }
    result
}

/// What a literal leaves of bindings, given the answer of its atom.
fn after_literal_in(b: &Bindings, positive: bool, answers: &Vec<Bindings>, out: &mut Vec<Bindings>)
    ensures
        bindings_models(final(out)@) == bindings_models(old(out)@) + after_literal(
            b@,
            positive,
            bindings_models(answers@),
        ),
{
    let ghost base = bindings_models(out@);
    let ghost ans = bindings_models(answers@);
    if positive {
        let ghost f = extended_by(b@);
        let mut i: usize = 0;
        assert(ans.subrange(0, 0) =~= Seq::<BindingsModel>::empty());
        assert(bindings_models(out@) =~= base + ans.subrange(0, 0).filter_map(f));
        while i < answers.len()
            invariant
                i <= answers@.len(),
                ans == bindings_models(answers@),
                f == extended_by(b@),
                bindings_models(out@) == base + ans.subrange(0, i as int).filter_map(f),
            decreases answers@.len() - i,
        {
            proof {
                assert(ans[i as int] == answers@[i as int]@);
                lemma_filter_map_step(ans, i as int, f);
            }
            match b.extend(&answers[i]) {
                Some(m) => {
                    let ghost before = out@;
                    let ghost mm = m@;
                    out.push(m);
                    assert(bindings_models(out@) =~= bindings_models(before).push(mm));
                },
                None => {},
            }
            i += 1;
        }
        assert(ans.subrange(0, answers@.len() as int) =~= ans);
    } else if answers.len() == 0 {
        let ghost before = out@;
        let c = b.clone();
        let ghost cm = c@;
        out.push(c);
        assert(bindings_models(out@) =~= bindings_models(before).push(cm));
        assert(bindings_models(out@) =~= base + seq![b@]);
    } else {
        assert(bindings_models(out@) =~= base + Seq::<BindingsModel>::empty());
    }
}

/// The answer of a goal at a depth.
pub fn eval_atom_at(
    engine: &GraphEngine,
    rules: &Vec<Rule>,
    atom: &Atom,
    depth: usize,
    trace: &mut Trace,
) -> (r: Vec<Bindings>)
    requires
        engine.wf(),
    ensures
        bindings_models(r@) == eval_atom(engine@, rule_models(rules@), atom@, depth as nat),
        final(trace)@ == after(
            old(trace)@,
            record_atom(engine@, rule_models(rules@), atom@, depth as nat),
        ),
    decreases depth, 1int, 0int,
{
    let ghost g = engine@;
    let ghost rs = rule_models(rules@);
    let begun = now_micros();
    let result = match eval_builtin_in(engine, atom, trace) {
        Some(v) => v,
        None => {
            proof {
                lemma_nothing(old(trace)@);
            }
            eval_derived_at(engine, rules, atom, depth, trace)
        },
    };
    let ghost inner = match eval_builtin(g, atom@) {
        Some(r) => charge(cost_builtin(g, atom@)),
        None => record_derived(g, rs, atom@, depth as nat, rs.len() as int),
    };
    assert(trace@ == after(old(trace)@, inner));
    let ended = now_micros();
    let spent: u64 = if ended >= begun {
        ended - begun
    } else {
        0
    };
    trace.record_step("eval_atom", atom.predicate(), atom.args(), result.len(), spent, None);
    proof {
        assert(result@.len() == bindings_models(result@).len());
        lemma_followed_by(old(trace)@, inner, one_step(step_of(g, rs, atom@, depth as nat)));
    }
    result
}

/// What the rules derive for a goal at a depth.
fn eval_derived_at(
    engine: &GraphEngine,
    rules: &Vec<Rule>,
    atom: &Atom,
    depth: usize,
    trace: &mut Trace,
) -> (r: Vec<Bindings>)
    requires
        engine.wf(),
    ensures
        bindings_models(r@) == eval_derived(
            engine@,
            rule_models(rules@),
            atom@,
            depth as nat,
            rules@.len() as int,
        ),
        final(trace)@ == after(
            old(trace)@,
            record_derived(engine@, rule_models(rules@), atom@, depth as nat, rules@.len() as int),
        ),
    decreases depth, 0int, 0int,
{
    let ghost g = engine@;
    let ghost rs = rule_models(rules@);
    let mut out: Vec<Bindings> = Vec::new();
    proof {
        lemma_nothing(old(trace)@);
    }
    if depth == 0 {
        assert(bindings_models(out@) =~= Seq::<BindingsModel>::empty());
        return out;
    }
    let mut k: usize = 0;
    assert(bindings_models(out@) =~= eval_derived(g, rs, atom@, depth as nat, 0));
    while k < rules.len()
        invariant
            k <= rules@.len(),
            depth > 0,
            engine.wf(),
            g == engine@,
            rs == rule_models(rules@),
            trace@ == after(old(trace)@, record_derived(g, rs, atom@, depth as nat, k as int)),
            bindings_models(out@) == eval_derived(g, rs, atom@, depth as nat, k as int),
        decreases rules@.len() - k,
    {
        let rule = &rules[k];
        assert(rs[k as int] == rule@);
        if str_eq(rule.head().predicate(), atom.predicate()) {
            let ghost before = record_derived(g, rs, atom@, depth as nat, k as int);
            let ghost held = trace@;
            trace.stats.rule_evaluations = add_up(trace.stats.rule_evaluations, 1);
            proof {
                lemma_charged(held, one_rule());
                lemma_followed_by(old(trace)@, before, charge(one_rule()));
            }
            let bodies = eval_body_at(engine, rules, rule.body(), depth - 1, trace);
            proof {
                lemma_followed_by(
                    old(trace)@,
                    followed_by(before, charge(one_rule())),
                    record_body(g, rs, rule@.body, (depth - 1) as nat, rule@.body.len() as int),
                );
            }
            let ghost f = project_onto(rule@.head, atom@);
            let ghost bms = bindings_models(bodies@);
            let ghost base = bindings_models(out@);
            let mut i: usize = 0;
            assert(bindings_models(out@) =~= base + bms.map_values(f).subrange(0, 0));
            while i < bodies.len()
                invariant
                    i <= bodies@.len(),
                    bms == bindings_models(bodies@),
                    f == project_onto(rule@.head, atom@),
                    bindings_models(out@) == base + bms.map_values(f).subrange(0, i as int),
                decreases bodies@.len() - i,
            {
                assert(bms[i as int] == bodies@[i as int]@);
                let b = project_to_head(rule.head(), atom, &bodies[i]);
                let ghost before = out@;
                let ghost bm = b@;
                out.push(b);
                i += 1;
                proof {
                    assert(bindings_models(out@) =~= bindings_models(before).push(bm));
                    assert(bindings_models(out@) =~= base + bms.map_values(f).subrange(0, i as int));
                }
            }
            assert(bms.map_values(f).subrange(0, bodies@.len() as int) =~= bms.map_values(f));
        }
        k += 1;
    }
    out
}

/// The answers of the body of a rule at a depth.
fn eval_body_at(
    engine: &GraphEngine,
    rules: &Vec<Rule>,
    body: &[Literal],
    depth: usize,
    trace: &mut Trace,
) -> (r: Vec<Bindings>)
    requires
        engine.wf(),
    ensures
        bindings_models(r@) == eval_body(
            engine@,
            rule_models(rules@),
            literal_models(body@),
            depth as nat,
            body@.len() as int,
        ),
        final(trace)@ == after(
            old(trace)@,
            record_body(
                engine@,
                rule_models(rules@),
                literal_models(body@),
                depth as nat,
                body@.len() as int,
            ),
        ),
    decreases depth, 3int, 0int,
{
    let ghost g = engine@;
    let ghost rs = rule_models(rules@);
    let ghost lits = literal_models(body@);
    let mut current = one(Bindings::new());
    let mut k: usize = 0;
    proof {
        lemma_nothing(old(trace)@);
    }
    while k < body.len()
        invariant
            k <= body@.len(),
            engine.wf(),
            g == engine@,
            rs == rule_models(rules@),
            lits == literal_models(body@),
            trace@ == after(old(trace)@, record_body(g, rs, lits, depth as nat, k as int)),
            bindings_models(current@) == eval_body(g, rs, lits, depth as nat, k as int),
        decreases body@.len() - k,
    {
        assert(lits[k as int] == body@[k as int]@);
        let ghost cur = bindings_models(current@);
        let next = eval_step_at(engine, rules, &current, &body[k], depth, trace);
        proof {
            assert(current@.len() == cur.len());
            lemma_followed_by(
                old(trace)@,
                record_body(g, rs, lits, depth as nat, k as int),
                record_step(g, rs, cur, lits[k as int], depth as nat, cur.len() as int),
            );
        }
        current = next;
        k += 1;
    }
    current
}

/// What a literal leaves of the current answers at a depth.
fn eval_step_at(
    engine: &GraphEngine,
    rules: &Vec<Rule>,
    current: &Vec<Bindings>,
    literal: &Literal,
    depth: usize,
    trace: &mut Trace,
) -> (r: Vec<Bindings>)
    requires
        engine.wf(),
    ensures
        bindings_models(r@) == eval_step(
            engine@,
            rule_models(rules@),
            bindings_models(current@),
            literal@,
            depth as nat,
            current@.len() as int,
        ),
        final(trace)@ == after(
            old(trace)@,
            record_step(
                engine@,
                rule_models(rules@),
                bindings_models(current@),
                literal@,
                depth as nat,
                current@.len() as int,
            ),
        ),
    decreases depth, 2int, 0int,
{
    let ghost g = engine@;
    let ghost rs = rule_models(rules@);
    let ghost cur = bindings_models(current@);
    let mut next: Vec<Bindings> = Vec::new();
    let mut j: usize = 0;
    assert(bindings_models(next@) =~= eval_step(g, rs, cur, literal@, depth as nat, 0));
    proof {
        lemma_nothing(old(trace)@);
    }
    while j < current.len()
        invariant
            j <= current@.len(),
            engine.wf(),
            g == engine@,
            rs == rule_models(rules@),
            cur == bindings_models(current@),
            trace@ == after(old(trace)@, record_step(g, rs, cur, literal@, depth as nat, j as int)),
            bindings_models(next@) == eval_step(g, rs, cur, literal@, depth as nat, j as int),
        decreases current@.len() - j,
    {
        let b = &current[j];
        assert(cur[j as int] == b@);
        let substituted = substitute_atom(literal.atom(), b);
        let answers = eval_atom_at(engine, rules, &substituted, depth, trace);
        proof {
            lemma_followed_by(
                old(trace)@,
                record_step(g, rs, cur, literal@, depth as nat, j as int),
                record_atom(g, rs, substitute(literal@.atom(), cur[j as int]), depth as nat),
            );
        }
        after_literal_in(b, literal.is_positive(), &answers, &mut next);
        j += 1;
    }
    next
}

/// The evaluator: a graph and the rules that were loaded.
pub struct Evaluator<'a> {
    engine: &'a GraphEngine,
    rules: Vec<Rule>,
}

impl<'a> Evaluator<'a> {
    /// The graph that goals are answered from.
    pub closed spec fn graph(&self) -> GraphModel {
        self.engine@
    }

    /// The rules, in the order in which they were loaded.
    pub closed spec fn rules(&self) -> Seq<RuleModel> {
        rule_models(self.rules@)
    }

    /// The engine of the evaluator is well formed.
    pub closed spec fn wf(&self) -> bool {
        self.engine.wf()
    }

    /// An evaluator over a graph, without rules.
    pub fn new(engine: &'a GraphEngine) -> (r: Self)
        requires
            engine.wf(),
        ensures
            r.wf(),
            r.graph() == engine@,
            r.rules() == Seq::<RuleModel>::empty(),
    {
        let r = Evaluator { engine, rules: Vec::new() };
        assert(r.rules() =~= Seq::<RuleModel>::empty());
        r
    }

    /// Adds a rule behind those that were loaded before.
    pub fn add_rule(&mut self, rule: Rule)
        ensures
            final(self).rules() == old(self).rules().push(rule@),
            final(self).graph() == old(self).graph(),
            final(self).wf() == old(self).wf(),
    {
        self.rules.push(rule);
        assert(self.rules() =~= old(self).rules().push(rule@));
    }

    /// Adds rules, in order, behind those that were loaded before.
    pub fn load_rules(&mut self, rules: Vec<Rule>)
        ensures
            final(self).rules() == old(self).rules() + rule_models(rules@),
            final(self).graph() == old(self).graph(),
            final(self).wf() == old(self).wf(),
    {
        let mut rules = rules;
        let ghost added = rule_models(rules@);
        self.rules.append(&mut rules);
        assert(self.rules() =~= old(self).rules() + added);
    }

    /// The answers to a goal: the bindings of its variables under which it
    /// holds, in the order in which they are found.
    pub fn query(&self, goal: &Atom) -> (r: Vec<Bindings>)
        requires
            self.wf(),
        ensures
            bindings_models(r@) == eval_atom(self.graph(), self.rules(), goal@, MAX_RULE_DEPTH as nat),
    {
        self.eval_atom(goal)
    }

    /// The answers to a goal.
    pub fn eval_atom(&self, atom: &Atom) -> (r: Vec<Bindings>)
        requires
            self.wf(),
        ensures
            bindings_models(r@) == eval_atom(self.graph(), self.rules(), atom@, MAX_RULE_DEPTH as nat),
    {
        let mut trace = Trace::new(false);
        eval_atom_at(self.engine, &self.rules, atom, MAX_RULE_DEPTH, &mut trace)
    }
}

} // verus!
