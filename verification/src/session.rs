//! What a host that embeds the engine keeps between calls: the rules that
//! were loaded, a cursor into the answers of a query, and ids as pairs of
//! 64-bit words.

use vstd::prelude::*;
use vstd::string::*;

use crate::datalog::eval::{eval_atom_at, MAX_RULE_DEPTH};
use crate::datalog::eval_explain::{answers_model, render_all, rendered_all};
use crate::datalog::grammar::{whole, Parsed};
use crate::datalog::grammar;
use crate::datalog::parser::{parse_atom, parse_program};
use crate::datalog::semantics::eval_atom;
use crate::datalog::trace::Trace;
use crate::datalog::types::{copy_rules, rule_models, Rule, RuleModel};
use crate::graph::engine::GraphEngine;
use crate::graph::model::{unless_empty, GraphModel};
use crate::storage::{AttrQuery, NodeModel, NodeRecord, QueryModel};
use crate::text::{opt_text, text};
use crate::wire::{clip32, describe_failure, parse_failure};

verus! {

/// Two to the power of 64.
pub open spec fn word_base() -> int {
    0x1_0000_0000_0000_0000
}

/// The low and the high word of an id.
pub open spec fn spec_words(value: u128) -> (u64, u64) {
    ((value as int % word_base()) as u64, (value as int / word_base()) as u64)
}

/// The word at an index, 0 where there is none.
pub open spec fn word_at(words: Seq<u64>, i: int) -> int {
    if 0 <= i < words.len() {
        words[i] as int
    } else {
        0
    }
}

/// The id of a list of words, the low word first. Words behind the second
/// do not count.
pub open spec fn spec_from_words(words: Seq<u64>) -> u128 {
    (word_at(words, 0) + word_at(words, 1) * word_base()) as u128
}

/// The low and the high word of an id.
pub fn u128_to_words(value: u128) -> (r: (u64, u64))
    ensures
        r == spec_words(value),
        r.0 as int + r.1 as int * word_base() == value,
{
    let base: u128 = 0x1_0000_0000_0000_0000;
    let low: u128 = value % base;
    let high: u128 = value / base;
    assert(high < base) by (nonlinear_arith)
        requires
            high == value / base,
            base == 0x1_0000_0000_0000_0000,
            value <= u128::MAX,
    ;
    assert(value == high * base + low) by (nonlinear_arith)
        requires
            high == value / base,
            low == value % base,
            base > 0,
    ;
    (low as u64, high as u64)
}

/// The id of a list of words, the low word first.
pub fn words_to_u128(words: &[u64]) -> (r: u128)
    ensures
        r == spec_from_words(words@),
{
    let low: u128 = if words.len() > 0 {
        words[0] as u128
    } else {
        0
    };
    let high: u128 = if words.len() > 1 {
        words[1] as u128
    } else {
        0
    };
    assert(high * 0x1_0000_0000_0000_0000 + low <= u128::MAX) by (nonlinear_arith)
        requires
            high <= u64::MAX,
            low <= u64::MAX,
    ;
    high * 0x1_0000_0000_0000_0000 + low
}

/// An id comes back from its two words.
pub proof fn lemma_words_round_trip(value: u128)
    ensures
        spec_from_words(seq![spec_words(value).0, spec_words(value).1]) == value,
{
    let base = word_base();
    let v = value as int;
    assert(0 <= v % base < base && 0 <= v / base < base && v == (v / base) * base + v % base)
        by (nonlinear_arith)
        requires
            base == 0x1_0000_0000_0000_0000,
            0 <= v <= u128::MAX,
    ;
    let words = seq![spec_words(value).0, spec_words(value).1];
    assert(word_at(words, 0) == v % base);
    assert(word_at(words, 1) == v / base);
}

/// One answer of a query and where to go on.
#[derive(Debug)]
pub struct QueryStep {
    /// The node at the cursor; `None` behind the last answer.
    pub node: Option<NodeRecord>,
    /// The cursor of the next answer; `None` if there is none.
    pub next_cursor: Option<u32>,
}

/// A node as a host sees it: file, name and metadata only if they have at
/// least one byte.
pub open spec fn shown(n: NodeModel) -> NodeModel {
    NodeModel {
        file: unless_empty(n.file),
        name: unless_empty(n.name),
        metadata: unless_empty(n.metadata),
        ..n
    }
}

/// The answer of a query at a cursor. The answers are counted from 0; no
/// cursor stands for 0. The next cursor is counted modulo two to the
/// power of 32.
pub open spec fn step_at(g: GraphModel, q: QueryModel, cursor: Option<u32>) -> (
    Option<NodeModel>,
    Option<u32>,
) {
    let ids = g.find(q);
    let start: int = match cursor {
        Some(c) => c as int,
        None => 0,
    };
    if start >= ids.len() {
        (None, None)
    } else {
        match g.get_node(ids[start]) {
            Some(n) => (
                Some(shown(n)),
                if start + 1 < ids.len() {
                    Some(((start + 1) % 0x1_0000_0000) as u32)
                } else {
                    None
                },
            ),
            None => (None, None),
        }
    }
}

/// The string, unless it is empty.
fn unless_blank(o: Option<String>) -> (r: Option<String>)
    ensures
        opt_text(r) == unless_empty(opt_text(o)),
{
    match o {
        Some(s) => if s.as_str().as_bytes().len() == 0 {
            None
        } else {
            Some(s)
        },
        None => None,
    }
}

/// The answer of a query at a cursor, and the cursor of the next answer.
pub fn query_next_node(engine: &GraphEngine, query: &AttrQuery, cursor: Option<u32>) -> (r:
    QueryStep)
    requires
        engine.wf(),
    ensures
        (match r.node {
            Some(n) => Some(n@),
            None => None,
        }) == step_at(engine@, query@, cursor).0,
        r.next_cursor == step_at(engine@, query@, cursor).1,
{
    let ids = engine.find_by_attr(query);
    let start: usize = match cursor {
        Some(c) => c as usize,
        None => 0,
    };
    if start >= ids.len() {
        return QueryStep { node: None, next_cursor: None };
    }
    match engine.get_node(ids[start]) {
        Some(n) => {
            let next_cursor: Option<u32> = if start + 1 < ids.len() {
                let next: u64 = (start + 1) as u64;
                Some((next % 0x1_0000_0000) as u32)
            } else {
                None
            };
            let node = NodeRecord {
                id: n.id,
                node_type: n.node_type,
                file_id: n.file_id,
                name_offset: n.name_offset,
                version: n.version,
                exported: n.exported,
                replaces: n.replaces,
                deleted: n.deleted,
                name: unless_blank(n.name),
                file: unless_blank(n.file),
                metadata: unless_blank(n.metadata),
            };
            QueryStep { node: Some(node), next_cursor }
        },
        None => QueryStep { node: None, next_cursor: None },
    }
}

/// The rules that a host has loaded, in the order in which they came.
pub struct RuleSet {
    rules: Vec<Rule>,
}

impl View for RuleSet {
    type V = Seq<RuleModel>;

    closed spec fn view(&self) -> Seq<RuleModel> {
        rule_models(self.rules@)
    }
}

impl RuleSet {
    /// No rules.
    pub fn new() -> (r: Self)
        ensures
            r@ == Seq::<RuleModel>::empty(),
    {
        let r = RuleSet { rules: Vec::new() };
        assert(r@ =~= Seq::<RuleModel>::empty());
        r
    }

    /// The number of rules.
    pub fn len(&self) -> (r: usize)
        ensures
            r == self@.len(),
    {
        self.rules.len()
    }

    /// Forgets every rule.
    pub fn clear(&mut self)
        ensures
            final(self)@ == Seq::<RuleModel>::empty(),
    {
        self.rules.clear();
        assert(self@ =~= Seq::<RuleModel>::empty());
    }

    /// Adds the rules of a program behind those that are loaded, and
    /// gives their number. Fails, with the text of the parse error,
    /// exactly when the source is no program; the rules are then as they
    /// were.
    pub fn load(&mut self, source: &str) -> (r: Result<u32, String>)
        ensures
            match grammar::parse_rules(text(source@), 0, Seq::empty()) {
                Parsed::Done { value, pos } => r == Ok::<u32, String>(clip32(value.len() as int))
                    && final(self)@ == old(self)@ + value,
                Parsed::Failed { pos, message } => r matches Err(e) && text(e@) == parse_failure(
                    text("Datalog parse error: "@),
                    pos,
                    message,
                ) && final(self)@ == old(self)@,
            },
    {
        let program = match parse_program(source) {
            Ok(p) => p,
            Err(e) => {
                return Err(describe_failure("Datalog parse error: ", &e));
            },
        };
        let mut added = copy_rules(program.rules());
        let n: usize = added.len();
        let ghost models = rule_models(added@);
        assert(n == models.len());
        self.rules.append(&mut added);
        assert(self@ =~= old(self)@ + models);
        if n > u32::MAX as usize {
            Ok(u32::MAX)
        } else {
            Ok(n as u32)
        }
    }

    /// Answers a goal that is given as text, under the loaded rules: each
    /// answer as pairs of a variable and the text of its value. Fails,
    /// with the text of the parse error, exactly when the text is no
    /// atom.
    pub fn query(&self, engine: &GraphEngine, goal: &str) -> (r: Result<
        Vec<Vec<(String, String)>>,
        String,
    >)
        requires
            engine.wf(),
        ensures
            match whole(text(goal@), grammar::parse_atom(text(goal@), 0)) {
                Parsed::Done { value, pos } => r matches Ok(v) && answers_model(v@)
                    == rendered_all(eval_atom(engine@, self@, value, MAX_RULE_DEPTH as nat)),
                Parsed::Failed { pos, message } => r matches Err(e) && text(e@) == parse_failure(
                    text("Datalog parse error: "@),
                    pos,
                    message,
                ),
            },
    {
        let atom = match parse_atom(goal) {
            Ok(a) => a,
            Err(e) => {
                return Err(describe_failure("Datalog parse error: ", &e));
            },
        };
        let mut trace = Trace::new(false);
        let answers = eval_atom_at(engine, &self.rules, &atom, MAX_RULE_DEPTH, &mut trace);
        Ok(render_all(&answers))
    }
}

} // verus!
