//! What a traced evaluation records: counts, times and steps.
//!
//! The model of a trace holds everything but the times, which depend on
//! the clock: `after` says what a trace holds once an evaluation has
//! recorded its steps and its counts in it.

use vstd::prelude::*;
use vstd::string::*;

use crate::datalog::types::{term_models, Term, TermModel};
use crate::error::{join2, push_text};
use crate::graph::model::string_texts;
use crate::text::{lemma_text_concat, opt_text, str_eq, text};

verus! {

/// The counts of one query.
#[derive(Debug)]
pub struct QueryStats {
    pub nodes_visited: usize,
    pub edges_traversed: usize,
    pub find_by_type_calls: usize,
    pub get_node_calls: usize,
    pub outgoing_edge_calls: usize,
    pub incoming_edge_calls: usize,
    pub bfs_calls: usize,
    /// The number of answers to the goal.
    pub total_results: usize,
    pub rule_evaluations: usize,
    /// The number of answers of each goal that was evaluated, in the
    /// order in which the evaluations ended.
    pub intermediate_counts: Vec<usize>,
}

impl QueryStats {
    /// Counts of nothing.
    pub fn new() -> (r: Self)
        ensures
            r.nodes_visited == 0,
            r.edges_traversed == 0,
            r.find_by_type_calls == 0,
            r.get_node_calls == 0,
            r.outgoing_edge_calls == 0,
            r.incoming_edge_calls == 0,
            r.bfs_calls == 0,
            r.total_results == 0,
            r.rule_evaluations == 0,
            r.intermediate_counts@.len() == 0,
    {
        QueryStats {
            nodes_visited: 0,
            edges_traversed: 0,
            find_by_type_calls: 0,
            get_node_calls: 0,
            outgoing_edge_calls: 0,
            incoming_edge_calls: 0,
            bfs_calls: 0,
            total_results: 0,
            rule_evaluations: 0,
            intermediate_counts: Vec::new(),
        }
    }
}

impl Default for QueryStats {
    fn default() -> (r: Self)
        ensures
            r.total_results == 0,
            r.intermediate_counts@.len() == 0,
    {
        QueryStats::new()
    }
}

impl Clone for QueryStats {
    fn clone(&self) -> (r: Self)
        ensures
            r.nodes_visited == self.nodes_visited,
            r.edges_traversed == self.edges_traversed,
            r.find_by_type_calls == self.find_by_type_calls,
            r.get_node_calls == self.get_node_calls,
            r.outgoing_edge_calls == self.outgoing_edge_calls,
            r.incoming_edge_calls == self.incoming_edge_calls,
            r.bfs_calls == self.bfs_calls,
            r.total_results == self.total_results,
            r.rule_evaluations == self.rule_evaluations,
            r.intermediate_counts@ == self.intermediate_counts@,
    {
        let mut counts: Vec<usize> = Vec::new();
        let mut i: usize = 0;
        while i < self.intermediate_counts.len()
            invariant
                i <= self.intermediate_counts@.len(),
                counts@ == self.intermediate_counts@.subrange(0, i as int),
            decreases self.intermediate_counts@.len() - i,
        {
            counts.push(self.intermediate_counts[i]);
            i += 1;
            assert(counts@ =~= self.intermediate_counts@.subrange(0, i as int));
        }
        assert(self.intermediate_counts@.subrange(0, self.intermediate_counts@.len() as int)
            =~= self.intermediate_counts@);
        QueryStats {
            nodes_visited: self.nodes_visited,
            edges_traversed: self.edges_traversed,
            find_by_type_calls: self.find_by_type_calls,
            get_node_calls: self.get_node_calls,
            outgoing_edge_calls: self.outgoing_edge_calls,
            incoming_edge_calls: self.incoming_edge_calls,
            bfs_calls: self.bfs_calls,
            total_results: self.total_results,
            rule_evaluations: self.rule_evaluations,
            intermediate_counts: counts,
        }
    }
}

/// One step of an evaluation.
#[derive(Debug)]
pub struct ExplainStep {
    /// The number of the step, from 1.
    pub step: usize,
    pub operation: String,
    pub predicate: String,
    /// The arguments, each as `Debug` prints a term.
    pub args: Vec<String>,
    pub result_count: usize,
    pub duration_us: u64,
    pub details: Option<String>,
}

/// The times of one query, in microseconds.
#[derive(Debug)]
pub struct QueryProfile {
    pub total_duration_us: u64,
    /// The time spent on each predicate, in the order in which the
    /// predicates were first evaluated.
    pub predicate_times: Vec<(String, u64)>,
    pub rule_eval_time_us: u64,
    pub projection_time_us: u64,
}

impl Default for QueryProfile {
    fn default() -> (r: Self)
        ensures
            r.total_duration_us == 0,
            r.predicate_times@.len() == 0,
            r.rule_eval_time_us == 0,
            r.projection_time_us == 0,
    {
        QueryProfile {
            total_duration_us: 0,
            predicate_times: Vec::new(),
            rule_eval_time_us: 0,
            projection_time_us: 0,
        }
    }
}

/// The sum, or the largest number where the sum does not fit.
pub fn add_up(a: usize, b: usize) -> (r: usize)
    ensures
        r == if a + b <= usize::MAX {
            (a + b) as usize
        } else {
            usize::MAX
        },
{
    if a > usize::MAX - b {
        usize::MAX
    } else {
        a + b
    }
}

/// The sum, or the largest number where the sum does not fit.
pub fn add_up_u64(a: u64, b: u64) -> (r: u64)
    ensures
        r == if a + b <= u64::MAX {
            (a + b) as u64
        } else {
            u64::MAX
        },
{
    if a > u64::MAX - b {
        u64::MAX
    } else {
        a + b
    }
}

/// `SystemTime::now`, as microseconds since the Unix epoch. Nothing is
/// claimed of the clock.
#[verifier::external_body]
pub(crate) fn now_micros() -> u64 {
    match std::time::SystemTime::now().duration_since(std::time::UNIX_EPOCH) {
        Ok(d) => d.as_micros() as u64,
        Err(_) => 0,
    }
}

/// The text that `Debug` prints for a string: the string between double
/// quotes, with the characters escaped that `str`'s `Debug` escapes.
pub uninterp spec fn debug_of(s: Seq<u8>) -> Seq<u8>;

/// `format!("{:?}", s)`: the string as `Debug` prints it. The text
/// depends on the string alone.
#[verifier::external_body]
pub(crate) fn debug_text(s: &str) -> (r: String)
    ensures
        text(r@) == debug_of(text(s@)),
{
    format!("{:?}", s)
}

/// A term as `Debug` prints it: `Var("X")`, `Const("c")` or `Wildcard`.
pub open spec fn term_text(t: TermModel) -> Seq<u8> {
    match t {
        TermModel::Var(n) => text("Var("@) + debug_of(n) + text(")"@),
        TermModel::Const(c) => text("Const("@) + debug_of(c) + text(")"@),
        TermModel::Wildcard => text("Wildcard"@),
    }
}

/// A name with what it holds in brackets behind it.
pub fn shown_as(name: &str, held: &str) -> (r: String)
    ensures
        text(r@) == text(name@) + text("("@) + text(held@) + text(")"@),
{
    let mut out = join2(name, "(");
    push_text(&mut out, held);
    push_text(&mut out, ")");
    out
}

/// A term as `Debug` prints it.
pub fn describe_term(t: &Term) -> (r: String)
    ensures
        text(r@) == term_text(t@),
{
    proof {
        reveal_strlit("Var(");
        reveal_strlit("Var");
        reveal_strlit("Const(");
        reveal_strlit("Const");
        reveal_strlit("(");
        lemma_text_concat("Var"@, "("@);
        lemma_text_concat("Const"@, "("@);
        assert("Var("@ =~= "Var"@ + "("@);
        assert("Const("@ =~= "Const"@ + "("@);
    }
    match t {
        Term::Var(n) => {
            let d = debug_text(n.as_str());
            shown_as("Var", d.as_str())
        },
        Term::Const(c) => {
            let d = debug_text(c.as_str());
            shown_as("Const", d.as_str())
        },
        Term::Wildcard => "Wildcard".to_owned(),
    }
}

/// The terms of a list as `Debug` prints them.
pub open spec fn term_texts(args: Seq<TermModel>) -> Seq<Seq<u8>> {
    args.map_values(|t: TermModel| term_text(t))
}

/// A number as a count: the largest count where it does not fit.
pub open spec fn capped(n: int) -> usize {
    if n <= usize::MAX {
        n as usize
    } else {
        usize::MAX
    }
}

/// How often the graph was asked, and how much it answered.
pub ghost struct Counts {
    pub nodes_visited: nat,
    pub edges_traversed: nat,
    pub find_by_type_calls: nat,
    pub get_node_calls: nat,
    pub outgoing_edge_calls: nat,
    pub incoming_edge_calls: nat,
    pub bfs_calls: nat,
    pub rule_evaluations: nat,
}

impl Counts {
    /// Counts of nothing.
    pub open spec fn zero() -> Counts {
        Counts {
            nodes_visited: 0,
            edges_traversed: 0,
            find_by_type_calls: 0,
            get_node_calls: 0,
            outgoing_edge_calls: 0,
            incoming_edge_calls: 0,
            bfs_calls: 0,
            rule_evaluations: 0,
        }
    }

    /// The sums of two counts.
    pub open spec fn plus(self, other: Counts) -> Counts {
        Counts {
            nodes_visited: self.nodes_visited + other.nodes_visited,
            edges_traversed: self.edges_traversed + other.edges_traversed,
            find_by_type_calls: self.find_by_type_calls + other.find_by_type_calls,
            get_node_calls: self.get_node_calls + other.get_node_calls,
            outgoing_edge_calls: self.outgoing_edge_calls + other.outgoing_edge_calls,
            incoming_edge_calls: self.incoming_edge_calls + other.incoming_edge_calls,
            bfs_calls: self.bfs_calls + other.bfs_calls,
            rule_evaluations: self.rule_evaluations + other.rule_evaluations,
        }
    }

    /// The counts as a trace keeps them: each the largest count where it
    /// does not fit.
    pub open spec fn kept(self) -> Counts {
        Counts {
            nodes_visited: capped(self.nodes_visited as int) as nat,
            edges_traversed: capped(self.edges_traversed as int) as nat,
            find_by_type_calls: capped(self.find_by_type_calls as int) as nat,
            get_node_calls: capped(self.get_node_calls as int) as nat,
            outgoing_edge_calls: capped(self.outgoing_edge_calls as int) as nat,
            incoming_edge_calls: capped(self.incoming_edge_calls as int) as nat,
            bfs_calls: capped(self.bfs_calls as int) as nat,
            rule_evaluations: capped(self.rule_evaluations as int) as nat,
        }
    }
}

/// One evaluation that ended: what was evaluated and how many answers it
/// had.
pub ghost struct Step {
    pub operation: Seq<u8>,
    pub predicate: Seq<u8>,
    pub args: Seq<TermModel>,
    pub result_count: nat,
    pub details: Option<Seq<u8>>,
}

/// What an evaluation records: its steps, in the order in which they
/// ended, and its counts.
pub ghost struct Record {
    pub steps: Seq<Step>,
    pub counts: Counts,
}

/// The record of an evaluation that did nothing.
pub open spec fn nothing() -> Record {
    Record { steps: Seq::empty(), counts: Counts::zero() }
}

/// The record of an evaluation that only asked the graph.
pub open spec fn charge(counts: Counts) -> Record {
    Record { steps: Seq::empty(), counts }
}

/// The record of one step.
pub open spec fn one_step(step: Step) -> Record {
    Record { steps: seq![step], counts: Counts::zero() }
}

/// The record of one evaluation followed by another.
pub open spec fn followed_by(a: Record, b: Record) -> Record {
    Record { steps: a.steps + b.steps, counts: a.counts.plus(b.counts) }
}

/// A step as a trace keeps it, without its time.
pub ghost struct StepModel {
    pub step: usize,
    pub operation: Seq<u8>,
    pub predicate: Seq<u8>,
    pub args: Seq<Seq<u8>>,
    pub result_count: usize,
    pub details: Option<Seq<u8>>,
}

impl View for ExplainStep {
    type V = StepModel;

    open spec fn view(&self) -> StepModel {
        StepModel {
            step: self.step,
            operation: text(self.operation@),
            predicate: text(self.predicate@),
            args: string_texts(self.args@),
            result_count: self.result_count,
            details: opt_text(self.details),
        }
    }
}

/// The models of a list of steps.
pub open spec fn step_models(steps: Seq<ExplainStep>) -> Seq<StepModel> {
    steps.map_values(|s: ExplainStep| s@)
}

/// The predicates of a list of times.
pub open spec fn timed(times: Seq<(String, u64)>) -> Seq<Seq<u8>> {
    times.map_values(|e: (String, u64)| text(e.0@))
}

impl QueryStats {
    /// The counts, but for the number of answers.
    pub open spec fn counts(&self) -> Counts {
        Counts {
            nodes_visited: self.nodes_visited as nat,
            edges_traversed: self.edges_traversed as nat,
            find_by_type_calls: self.find_by_type_calls as nat,
            get_node_calls: self.get_node_calls as nat,
            outgoing_edge_calls: self.outgoing_edge_calls as nat,
            incoming_edge_calls: self.incoming_edge_calls as nat,
            bfs_calls: self.bfs_calls as nat,
            rule_evaluations: self.rule_evaluations as nat,
        }
    }
}

/// What a trace holds, but for the times.
pub ghost struct TraceModel {
    pub explain_mode: bool,
    pub counts: Counts,
    pub total_results: usize,
    pub intermediate_counts: Seq<usize>,
    /// The steps that were kept.
    pub steps: Seq<StepModel>,
    /// The number of the last step that was kept.
    pub step_counter: usize,
    /// The predicates that were timed, in the order in which they were
    /// first evaluated.
    pub predicates: Seq<Seq<u8>>,
}

/// A step with its number.
pub open spec fn numbered(s: Step, number: usize) -> StepModel {
    StepModel {
        step: number,
        operation: s.operation,
        predicate: s.predicate,
        args: term_texts(s.args),
        result_count: capped(s.result_count as int),
        details: s.details,
    }
}

/// Steps as a trace keeps them, numbered on from `counter`.
pub open spec fn kept_steps(steps: Seq<Step>, counter: usize) -> Seq<StepModel> {
    Seq::new(steps.len(), |i: int| numbered(steps[i], capped(counter + i + 1)))
}

/// The numbers of answers of steps.
pub open spec fn result_counts(steps: Seq<Step>) -> Seq<usize> {
    steps.map_values(|s: Step| capped(s.result_count as int))
}

/// The predicates that are timed after the first `k` of the steps: each
/// predicate once, in the order in which it first came.
pub open spec fn timed_after(names: Seq<Seq<u8>>, steps: Seq<Step>, k: int) -> Seq<Seq<u8>>
    decreases k,
{
    if k <= 0 {
        names
    } else {
        let before = timed_after(names, steps, k - 1);
        if before.contains(steps[k - 1].predicate) {
            before
        } else {
            before.push(steps[k - 1].predicate)
        }
    }
}

/// What a trace holds after an evaluation recorded in it: the counts
/// are added; of each step the number of answers is kept, and the
/// predicate is timed; the steps themselves are kept, and numbered, only
/// if the trace keeps steps.
pub open spec fn after(t: TraceModel, r: Record) -> TraceModel {
    TraceModel {
        explain_mode: t.explain_mode,
        counts: t.counts.plus(r.counts).kept(),
        total_results: t.total_results,
        intermediate_counts: t.intermediate_counts + result_counts(r.steps),
        steps: if t.explain_mode {
            t.steps + kept_steps(r.steps, t.step_counter)
        } else {
            t.steps
        },
        step_counter: if t.explain_mode {
            capped(t.step_counter + r.steps.len())
        } else {
            t.step_counter
        },
        predicates: timed_after(t.predicates, r.steps, r.steps.len() as int),
    }
}

/// A trace that has recorded nothing.
pub open spec fn fresh(explain_mode: bool) -> TraceModel {
    TraceModel {
        explain_mode,
        counts: Counts::zero(),
        total_results: 0,
        intermediate_counts: Seq::empty(),
        steps: Seq::empty(),
        step_counter: 0,
        predicates: Seq::empty(),
    }
}

/// The counts of a trace are counts that a trace can keep.
pub open spec fn in_range(t: TraceModel) -> bool {
    t.counts.kept() == t.counts
}

/// Timing goes on from where it was.
pub proof fn lemma_timed_on(names: Seq<Seq<u8>>, a: Seq<Step>, b: Seq<Step>, k: int)
    requires
        0 <= k <= b.len(),
    ensures
        timed_after(timed_after(names, a, a.len() as int), b, k) == timed_after(
            names,
            a + b,
            a.len() + k,
        ),
    decreases k,
{
    if k == 0 {
        lemma_timed_same(names, a, a + b, a.len() as int);
    } else {
        lemma_timed_on(names, a, b, k - 1);
        assert((a + b)[a.len() + k - 1] == b[k - 1]);
    }
}

/// Timing looks only at the steps that it is asked for.
pub proof fn lemma_timed_same(names: Seq<Seq<u8>>, a: Seq<Step>, b: Seq<Step>, k: int)
    requires
        0 <= k <= a.len(),
        k <= b.len(),
        forall|i: int| 0 <= i < k ==> a[i] == b[i],
    ensures
        timed_after(names, a, k) == timed_after(names, b, k),
    decreases k,
{
    if k > 0 {
        lemma_timed_same(names, a, b, k - 1);
    }
}

/// An evaluation that only asked the graph changes the counts.
pub proof fn lemma_charged(t: TraceModel, counts: Counts)
    ensures
        after(t, charge(counts)) == (TraceModel { counts: t.counts.plus(counts).kept(), ..t }),
{
    let r = charge(counts);
    assert(t.intermediate_counts + result_counts(r.steps) =~= t.intermediate_counts);
    assert(t.steps + kept_steps(r.steps, t.step_counter) =~= t.steps);
}

/// An evaluation that did nothing leaves the trace as it is.
pub proof fn lemma_nothing(t: TraceModel)
    requires
        in_range(t),
    ensures
        after(t, nothing()) == t,
{
    lemma_charged(t, Counts::zero());
}

/// Recording one evaluation and then another is recording the one
/// followed by the other.
pub proof fn lemma_followed_by(t: TraceModel, a: Record, b: Record)
    ensures
        after(after(t, a), b) == after(t, followed_by(a, b)),
{
    let m = after(t, a);
    let ab = followed_by(a, b);
    assert(m.intermediate_counts + result_counts(b.steps) =~= t.intermediate_counts
        + result_counts(ab.steps));
    lemma_timed_on(t.predicates, a.steps, b.steps, b.steps.len() as int);
    if t.explain_mode {
        assert(m.steps + kept_steps(b.steps, m.step_counter) =~= t.steps + kept_steps(
            ab.steps,
            t.step_counter,
        ));
    }
}

/// What an evaluation records while it runs.
pub struct Trace {
    /// Whether steps are kept.
    pub explain_mode: bool,
    pub stats: QueryStats,
    pub explain_steps: Vec<ExplainStep>,
    pub step_counter: usize,
    pub predicate_times: Vec<(String, u64)>,
}

impl View for Trace {
    type V = TraceModel;

    open spec fn view(&self) -> TraceModel {
        TraceModel {
            explain_mode: self.explain_mode,
            counts: self.stats.counts(),
            total_results: self.stats.total_results,
            intermediate_counts: self.stats.intermediate_counts@,
            steps: step_models(self.explain_steps@),
            step_counter: self.step_counter,
            predicates: timed(self.predicate_times@),
        }
    }
}

/// The name is not among the first `k` predicates that are timed.
pub open spec fn untimed(times: Seq<(String, u64)>, name: Seq<u8>, k: int) -> bool {
    forall|j: int| 0 <= j < k ==> text((#[trigger] times[j]).0@) != name
}

impl Trace {
    /// A trace that has recorded nothing.
    pub fn new(explain_mode: bool) -> (r: Self)
        ensures
            r@ == fresh(explain_mode),
    {
        let r = Trace {
            explain_mode,
            stats: QueryStats::new(),
            explain_steps: Vec::new(),
            step_counter: 0,
            predicate_times: Vec::new(),
        };
        assert(r@.steps =~= Seq::<StepModel>::empty());
        assert(r@.predicates =~= Seq::<Seq<u8>>::empty());
        assert(r@.intermediate_counts =~= Seq::<usize>::empty());
        r
    }

    /// The terms of a list as `Debug` prints them.
    fn describe_terms(args: &[Term]) -> (r: Vec<String>)
        ensures
            string_texts(r@) == term_texts(term_models(args@)),
    {
        let ghost goal = term_texts(term_models(args@));
        let mut texts: Vec<String> = Vec::new();
        let mut i: usize = 0;
        assert(string_texts(texts@) =~= goal.subrange(0, 0));
        while i < args.len()
            invariant
                i <= args@.len(),
                goal == term_texts(term_models(args@)),
                string_texts(texts@) == goal.subrange(0, i as int),
            decreases args@.len() - i,
        {
            let ghost before = texts@;
            let d = describe_term(&args[i]);
            let ghost dm = text(d@);
            proof {
                assert(term_models(args@)[i as int] == args@[i as int]@);
            }
            texts.push(d);
            i += 1;
            proof {
                assert(string_texts(texts@) =~= string_texts(before).push(dm));
                assert(string_texts(texts@) =~= goal.subrange(0, i as int));
            }
        }
        assert(goal.subrange(0, args@.len() as int) =~= goal);
        texts
    }

    /// Adds a time to the time of a predicate; a predicate that was not
    /// timed yet comes behind those that were.
    fn add_time(&mut self, predicate: &str, duration_us: u64)
        ensures
            timed(final(self).predicate_times@) == if timed(old(self).predicate_times@).contains(
                text(predicate@),
            ) {
                timed(old(self).predicate_times@)
            } else {
                timed(old(self).predicate_times@).push(text(predicate@))
            },
            final(self).explain_mode == old(self).explain_mode,
            final(self).stats == old(self).stats,
            final(self).explain_steps == old(self).explain_steps,
            final(self).step_counter == old(self).step_counter,
    {
        let ghost names = timed(self.predicate_times@);
        let n: usize = self.predicate_times.len();
        let mut k: usize = 0;
        while k < n
            invariant
                k <= n,
                n == self.predicate_times@.len(),
                self.predicate_times == old(self).predicate_times,
                self.explain_mode == old(self).explain_mode,
                self.stats == old(self).stats,
                self.explain_steps == old(self).explain_steps,
                self.step_counter == old(self).step_counter,
                names == timed(self.predicate_times@),
                untimed(self.predicate_times@, text(predicate@), k as int),
            decreases n - k,
        {
            if str_eq(self.predicate_times[k].0.as_str(), predicate) {
                let t: u64 = self.predicate_times[k].1;
                let ghost held = self.predicate_times@;
                self.predicate_times[k].1 = add_up_u64(t, duration_us);
                proof {
                    assert(names[k as int] == text(predicate@));
                    assert(timed(self.predicate_times@) =~= names) by {
                        assert forall|j: int| 0 <= j < n implies timed(self.predicate_times@)[j]
                            == names[j] by {
                            assert(names[j] == text(held[j].0@));
                        }
                    }
                }
                return ;
            }
            k += 1;
        }
        proof {
            assert(!names.contains(text(predicate@))) by {
                assert forall|j: int| 0 <= j < names.len() implies names[j] != text(
                    predicate@,
                ) by {
                    assert(names[j] == text(self.predicate_times@[j].0@));
                }
            }
        }
        self.predicate_times.push((predicate.to_owned(), duration_us));
        assert(timed(self.predicate_times@) =~= names.push(text(predicate@)));
    }

    /// Records the end of one evaluation: a step if steps are kept, the
    /// time under the predicate, and the number of answers.
    pub fn record_step(
        &mut self,
        operation: &str,
        predicate: &str,
        args: &[Term],
        result_count: usize,
        duration_us: u64,
        details: Option<String>,
    )
        ensures
            final(self)@ == after(
                old(self)@,
                one_step(
                    Step {
                        operation: text(operation@),
                        predicate: text(predicate@),
                        args: term_models(args@),
                        result_count: result_count as nat,
                        details: opt_text(details),
                    },
                ),
            ),
    {
        let ghost step = Step {
            operation: text(operation@),
            predicate: text(predicate@),
            args: term_models(args@),
            result_count: result_count as nat,
            details: opt_text(details),
        };
        let ghost before = self@;
        if self.explain_mode {
            self.step_counter = add_up(self.step_counter, 1);
            let texts = Trace::describe_terms(args);
            let kept = ExplainStep {
                step: self.step_counter,
                operation: operation.to_owned(),
                predicate: predicate.to_owned(),
                args: texts,
                result_count,
                duration_us,
                details,
            };
            assert(kept@ == numbered(step, capped(before.step_counter + 1)));
            let ghost held = self.explain_steps@;
            self.explain_steps.push(kept);
            assert(step_models(self.explain_steps@) =~= step_models(held).push(kept@));
            assert(step_models(self.explain_steps@) =~= before.steps + kept_steps(
                seq![step],
                before.step_counter,
            ));
        }
        self.add_time(predicate, duration_us);
        let ghost counted = self.stats.intermediate_counts@;
        self.stats.intermediate_counts.push(result_count);
        proof {
            assert(self.stats.intermediate_counts@ =~= counted + result_counts(seq![step]));
            assert(timed_after(before.predicates, seq![step], 1) == if before.predicates.contains(
                step.predicate,
            ) {
                before.predicates
            } else {
                before.predicates.push(step.predicate)
            }) by {
                assert(timed_after(before.predicates, seq![step], 0) == before.predicates);
            }
        }
    }
}

} // verus!
