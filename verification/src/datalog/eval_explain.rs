//! The evaluator that tells what it did: the same answers as the plain
//! evaluator, with counts, times and, on request, every step.

use vstd::prelude::*;
use vstd::string::*;

use crate::datalog::bindings::{bindings_models, value_text, Bindings, BindingsModel, ValueModel};
use crate::datalog::eval::{eval_atom_at, MAX_RULE_DEPTH};
use crate::datalog::record::record_atom;
use crate::datalog::semantics::eval_atom;
use crate::datalog::trace::{
    after, fresh, now_micros, step_models, timed, ExplainStep, QueryProfile, QueryStats, StepModel,
    Trace, TraceModel,
};
use crate::datalog::types::{rule_models, Atom, Rule, RuleModel};
use crate::graph::engine::GraphEngine;
use crate::graph::model::GraphModel;
use crate::text::text;

verus! {

/// The answers to a goal with what the evaluation recorded.
#[derive(Debug)]
pub struct QueryResult {
    /// The answers: each variable with the text of its value.
    pub bindings: Vec<Vec<(String, String)>>,
    pub stats: QueryStats,
    pub profile: QueryProfile,
    /// The steps of the evaluation; empty unless steps were asked for.
    pub explain_steps: Vec<ExplainStep>,
}

/// What a result holds of a trace: the counts, the numbers of answers
/// and the predicates that were timed; the steps if they were asked for;
/// and the number of its answers. The parts of the time that are not
/// measured are 0.
pub open spec fn holds_trace(q: QueryResult, t: TraceModel, explain: bool) -> bool {
    &&& q.stats.counts() == t.counts
    &&& q.stats.intermediate_counts@ == t.intermediate_counts
    &&& q.stats.total_results == q.bindings@.len()
    &&& step_models(q.explain_steps@) == if explain {
        t.steps
    } else {
        Seq::<StepModel>::empty()
    }
    &&& timed(q.profile.predicate_times@) == t.predicates
    &&& q.profile.rule_eval_time_us == 0
    &&& q.profile.projection_time_us == 0
}

/// What the evaluation of a goal leaves in a trace that had recorded
/// nothing.
pub open spec fn trace_of(
    g: GraphModel,
    rules: Seq<RuleModel>,
    goal: crate::datalog::types::AtomModel,
    explain: bool,
) -> TraceModel {
    after(fresh(explain), record_atom(g, rules, goal, MAX_RULE_DEPTH as nat))
}

/// Bindings as text: each variable with the text of its value.
pub open spec fn rendered(b: BindingsModel) -> Seq<(Seq<u8>, Seq<u8>)> {
    b.map_values(|e: (Seq<u8>, ValueModel)| (e.0, value_text(e.1)))
}

/// The answers as text.
pub open spec fn rendered_all(s: Seq<BindingsModel>) -> Seq<Seq<(Seq<u8>, Seq<u8>)>> {
    s.map_values(|b: BindingsModel| rendered(b))
}

/// The model of bindings as text.
pub open spec fn pairs_model(s: Seq<(String, String)>) -> Seq<(Seq<u8>, Seq<u8>)> {
    s.map_values(|e: (String, String)| (text(e.0@), text(e.1@)))
}

/// The model of answers as text.
pub open spec fn answers_model(s: Seq<Vec<(String, String)>>) -> Seq<Seq<(Seq<u8>, Seq<u8>)>> {
    s.map_values(|v: Vec<(String, String)>| pairs_model(v@))
}

/// Bindings as text.
pub fn render(b: &Bindings) -> (r: Vec<(String, String)>)
    ensures
        pairs_model(r@) == rendered(b@),
{
    let entries = b.iter();
    let mut out: Vec<(String, String)> = Vec::new();
    let mut i: usize = 0;
    while i < entries.len()
        invariant
            i <= entries@.len(),
            crate::datalog::bindings::entry_models(entries@) == b@,
            pairs_model(out@) == rendered(b@).subrange(0, i as int),
        decreases entries@.len() - i,
    {
        let ghost before = out@;
        let k = entries[i].0.clone();
        let v = entries[i].1.as_str();
        proof {
            assert(b@[i as int] == (text(entries@[i as int].0@), entries@[i as int].1@));
        }
        let ghost km = text(k@);
        let ghost vm = text(v@);
        out.push((k, v));
        i += 1;
        proof {
            assert(pairs_model(out@) =~= pairs_model(before).push((km, vm)));
            assert(pairs_model(out@) =~= rendered(b@).subrange(0, i as int));
        }
    }
    assert(rendered(b@).subrange(0, entries@.len() as int) =~= rendered(b@));
    out
}

/// The answers as text.
pub fn render_all(answers: &Vec<Bindings>) -> (r: Vec<Vec<(String, String)>>)
    ensures
        answers_model(r@) == rendered_all(bindings_models(answers@)),
{
    let ghost goal = rendered_all(bindings_models(answers@));
    let mut out: Vec<Vec<(String, String)>> = Vec::new();
    let mut i: usize = 0;
    while i < answers.len()
        invariant
            i <= answers@.len(),
            goal == rendered_all(bindings_models(answers@)),
            answers_model(out@) == goal.subrange(0, i as int),
        decreases answers@.len() - i,
    {
        let ghost before = out@;
        let r = render(&answers[i]);
        let ghost rm = pairs_model(r@);
        proof {
            assert(bindings_models(answers@)[i as int] == answers@[i as int]@);
        }
        out.push(r);
        i += 1;
        proof {
            assert(answers_model(out@) =~= answers_model(before).push(rm));
            assert(answers_model(out@) =~= goal.subrange(0, i as int));
        }
    }
    assert(goal.subrange(0, answers@.len() as int) =~= goal);
    out
}

/// The evaluator that tells what it did.
pub struct EvaluatorExplain<'a> {
    engine: &'a GraphEngine,
    rules: Vec<Rule>,
    explain_mode: bool,
}

impl<'a> EvaluatorExplain<'a> {
    /// The graph that goals are answered from.
    pub closed spec fn graph(&self) -> GraphModel {
        self.engine@
    }

    /// The rules, in the order in which they were loaded.
    pub closed spec fn rules(&self) -> Seq<RuleModel> {
        rule_models(self.rules@)
    }

    /// Whether steps are kept.
    pub closed spec fn explains(&self) -> bool {
        self.explain_mode
    }

    /// The engine of the evaluator is well formed.
    pub closed spec fn wf(&self) -> bool {
        self.engine.wf()
    }

    /// An evaluator over a graph, without rules.
    pub fn new(engine: &'a GraphEngine, explain_mode: bool) -> (r: Self)
        requires
            engine.wf(),
        ensures
            r.wf(),
            r.graph() == engine@,
            r.rules() == Seq::<RuleModel>::empty(),
            r.explains() == explain_mode,
    {
        let r = EvaluatorExplain { engine, rules: Vec::new(), explain_mode };
        assert(r.rules() =~= Seq::<RuleModel>::empty());
        r
    }

    /// Adds a rule behind those that were loaded before.
    pub fn add_rule(&mut self, rule: Rule)
        ensures
            final(self).rules() == old(self).rules().push(rule@),
            final(self).graph() == old(self).graph(),
            final(self).explains() == old(self).explains(),
            final(self).wf() == old(self).wf(),
    {
        self.rules.push(rule);
        assert(self.rules() =~= old(self).rules().push(rule@));
    }

    /// Adds rules, in order, behind those that were loaded before.
    pub fn load_rules(&mut self, rules: Vec<Rule>)
        ensures
            final(self).rules() == old(self).rules() + rule_models(rules@),
            final(self).graph() == old(self).graph(),
            final(self).explains() == old(self).explains(),
            final(self).wf() == old(self).wf(),
    {
        let mut rules = rules;
        let ghost added = rule_models(rules@);
        self.rules.append(&mut rules);
        assert(self.rules() =~= old(self).rules() + added);
    }

    /// The answers to a goal, as text, with what the evaluation recorded.
    /// The answers are those of the plain evaluator. What was recorded is
    /// what the evaluation leaves in a trace that had recorded nothing:
    /// the counts of what the built-in predicates asked of the graph, and
    /// a step for every goal that was evaluated, in the order in which
    /// the evaluations ended. Steps are handed out only if they were
    /// asked for. Nothing is said of the times.
    pub fn query(&mut self, goal: &Atom) -> (r: QueryResult)
        requires
            old(self).wf(),
        ensures
            answers_model(r.bindings@) == rendered_all(
                eval_atom(old(self).graph(), old(self).rules(), goal@, MAX_RULE_DEPTH as nat),
            ),
            holds_trace(
                r,
                trace_of(old(self).graph(), old(self).rules(), goal@, old(self).explains()),
                old(self).explains(),
            ),
            final(self).rules() == old(self).rules(),
            final(self).graph() == old(self).graph(),
            final(self).explains() == old(self).explains(),
            final(self).wf(),
    {
        let begun = now_micros();
        let mut trace = Trace::new(self.explain_mode);
        let answers = eval_atom_at(self.engine, &self.rules, goal, MAX_RULE_DEPTH, &mut trace);
        trace.stats.total_results = answers.len();
        let ended = now_micros();
        let total: u64 = if ended >= begun {
            ended - begun
        } else {
            0
        };
        let bindings = render_all(&answers);
        assert(bindings@.len() == answers_model(bindings@).len());
        let profile = QueryProfile {
            total_duration_us: total,
            predicate_times: trace.predicate_times,
            rule_eval_time_us: 0,
            projection_time_us: 0,
        };
        let steps: Vec<ExplainStep> = if self.explain_mode {
            trace.explain_steps
        } else {
            Vec::new()
        };
        assert(!self.explain_mode ==> step_models(steps@) =~= Seq::<StepModel>::empty());
        QueryResult { bindings, stats: trace.stats, profile, explain_steps: steps }
    }
}

} // verus!
