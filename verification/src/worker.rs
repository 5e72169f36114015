//! Commands for an engine that one thread owns. Other threads hand the
//! owner a command and wait for the reply; the owner runs one command at
//! a time, so every command sees what the commands before it did.
//!
//! This module holds what the owner decides: which engine call a command
//! stands for, and what is replied. Channels and threads are the caller's.

use vstd::prelude::*;
use vstd::string::*;

use crate::datalog::eval::MAX_RULE_DEPTH;
use crate::datalog::eval_explain::{
    answers_model, holds_trace, rendered_all, trace_of, EvaluatorExplain, QueryResult,
};
use crate::datalog::grammar::Parsed;
use crate::datalog::grammar;
use crate::datalog::parser::parse_program;
use crate::datalog::semantics::eval_atom;
use crate::datalog::types::{copy_rules, Atom, AtomModel, Rule, RuleModel, Term};
use crate::error::GraphError;
use crate::graph::engine::{
    empty_graph, upsert_all, with_edge_deleted, with_edges, with_node_deleted, GraphEngine,
    Snapshot,
};
use crate::graph::model::{forward_step, string_texts, GraphModel};
use crate::graph::tally::{clipped, counts_model};
use crate::graph::traversal::spec_bfs;
use crate::storage::{edge_models, node_models, AttrQuery, EdgeRecord, NodeRecord};
use crate::storage::writer::{edges_encodable, encode_edges, encode_nodes, nodes_encodable};
use crate::text::{opt_text, str_eq, text};
use crate::wire::{as_strs, describe_failure, opt_texts, parse_failure, violation_goal};

verus! {

/// What the owner of an engine can be asked to do.
#[derive(Debug)]
#[allow(inconsistent_fields)]
pub enum Command {
    AddNodes { nodes: Vec<NodeRecord> },
    AddEdges { edges: Vec<EdgeRecord>, skip_validation: bool },
    DeleteNode { id: u128 },
    DeleteEdge { src: u128, dst: u128, edge_type: String },
    GetNode { id: u128 },
    NodeExists { id: u128 },
    GetNodeIdentifier { id: u128 },
    FindByAttr { query: AttrQuery },
    FindByType { node_type: String },
    Neighbors { id: u128, edge_types: Vec<String> },
    Bfs { start_ids: Vec<u128>, max_depth: usize, edge_types: Vec<String> },
    GetOutgoingEdges { node_id: u128, edge_types: Option<Vec<String>> },
    GetIncomingEdges { node_id: u128, edge_types: Option<Vec<String>> },
    GetAllEdges,
    IsEndpoint { id: u128 },
    GetNodeStringsWithMetadata { id: u128 },
    NodeCount,
    EdgeCount,
    CountNodesByType { types: Option<Vec<String>> },
    CountEdgesByType { edge_types: Option<Vec<String>> },
    /// A program whose goal is the head of its first rule named `query`,
    /// or else the head of its first rule.
    DatalogQuery { rule_source: String, explain: bool },
    /// A program whose goal is `violation(X)`.
    CheckGuarantee { rule_source: String, explain: bool },
    Flush,
    Compact,
    /// Flush, then stop.
    Shutdown,
}

/// What the owner replies.
#[derive(Debug)]
pub enum Reply {
    /// The write was done.
    Done,
    Node(Option<NodeRecord>),
    Flag(bool),
    Identifier(Option<String>),
    Ids(Vec<u128>),
    Edges(Vec<EdgeRecord>),
    Strings(Option<(Option<String>, Option<String>, Option<String>)>),
    Count(usize),
    Counts(Vec<(String, usize)>),
    Answers(Result<QueryResult, String>),
    /// The outcome of a flush, with the images to write.
    Flushed(Result<Option<Snapshot>, GraphError>),
    /// The outcome of the last flush; no command is taken after it.
    Stopped(Result<Option<Snapshot>, GraphError>),
}

/// The first rule at or behind `from` whose head is named `name`.
pub open spec fn first_named(rules: Seq<RuleModel>, name: Seq<u8>, from: int) -> Option<int>
    decreases rules.len() - from,
{
    if from < 0 || from >= rules.len() {
        None
    } else if rules[from].head.predicate == name {
        Some(from)
    } else {
        first_named(rules, name, from + 1)
    }
}

/// The goal of a program: the head of its first rule named `query`, or
/// else the head of its first rule. A program without rules has none.
pub open spec fn goal_of(rules: Seq<RuleModel>) -> Option<AtomModel> {
    match first_named(rules, text("query"@), 0) {
        Some(i) => Some(rules[i].head),
        None => if rules.len() > 0 {
            Some(rules[0].head)
        } else {
            None
        },
    }
}

/// The goal of a program.
fn find_goal(rules: &[Rule]) -> (r: Option<Atom>)
    ensures
        r.is_some() == goal_of(crate::datalog::types::rule_models(rules@)).is_some(),
        r matches Some(a) ==> Some(a@) == goal_of(crate::datalog::types::rule_models(rules@)),
{
    let ghost models = crate::datalog::types::rule_models(rules@);
    let mut i: usize = 0;
    while i < rules.len()
        invariant
            i <= rules@.len(),
            models == crate::datalog::types::rule_models(rules@),
            first_named(models, text("query"@), 0) == first_named(models, text("query"@), i as int),
        decreases rules@.len() - i,
    {
        assert(models[i as int] == rules@[i as int]@);
        if str_eq(rules[i].head().predicate(), "query") {
            return Some(rules[i].head().clone());
        }
        i += 1;
    }
    if rules.len() > 0 {
        assert(models[0] == rules@[0]@);
        Some(rules[0].head().clone())
    } else {
        None
    }
}

/// What a program's goal is answered, with what the evaluation recorded,
/// or why it is not.
pub open spec fn answered(
    g: GraphModel,
    program: Parsed<Seq<RuleModel>>,
    goal: spec_fn(Seq<RuleModel>) -> Option<AtomModel>,
    explain: bool,
    r: Result<QueryResult, String>,
) -> bool {
    match program {
        Parsed::Done { value, pos } => match goal(value) {
            Some(atom) => r matches Ok(q) && answers_model(q.bindings@) == rendered_all(
                eval_atom(g, value, atom, MAX_RULE_DEPTH as nat),
            ) && holds_trace(q, trace_of(g, value, atom, explain), explain),
            None => r matches Err(e) && text(e@) == text("No rules found in program"@),
        },
        Parsed::Failed { pos, message } => r matches Err(e) && text(e@) == parse_failure(
            text("Datalog parse error: "@),
            pos,
            message,
        ),
    }
}

/// The goal `violation(X)`, whatever the program.
pub open spec fn always_violation() -> spec_fn(Seq<RuleModel>) -> Option<AtomModel> {
    |rules: Seq<RuleModel>| Some(violation_goal())
}

/// The goal of the program itself.
pub open spec fn own_goal() -> spec_fn(Seq<RuleModel>) -> Option<AtomModel> {
    |rules: Seq<RuleModel>| goal_of(rules)
}

/// Loads the rules of a program and answers its goal: the head of its
/// first rule named `query`, or else the head of its first rule. Fails,
/// with the text of the parse error, when the source is no program, and
/// with `No rules found in program` when the program has no rule.
pub fn execute_datalog_query(engine: &GraphEngine, rule_source: &str, explain: bool) -> (r: Result<
    QueryResult,
    String,
>)
    requires
        engine.wf(),
    ensures
        answered(
            engine@,
            grammar::parse_rules(text(rule_source@), 0, Seq::empty()),
            own_goal(),
            explain,
            r,
        ),
{
    let program = match parse_program(rule_source) {
        Ok(p) => p,
        Err(e) => {
            return Err(describe_failure("Datalog parse error: ", &e));
        },
    };
    let goal = match find_goal(program.rules()) {
        Some(a) => a,
        None => {
            return Err("No rules found in program".to_owned());
        },
    };
    let mut evaluator = EvaluatorExplain::new(engine, explain);
    evaluator.load_rules(copy_rules(program.rules()));
    assert(evaluator.rules() =~= program@);
    Ok(evaluator.query(&goal))
}

/// Loads the rules of a program and answers the goal `violation(X)`: each
/// answer is a violation. Fails, with the text of the parse error, exactly
/// when the source is no program.
pub fn execute_check_guarantee(engine: &GraphEngine, rule_source: &str, explain: bool) -> (r:
    Result<QueryResult, String>)
    requires
        engine.wf(),
    ensures
        answered(
            engine@,
            grammar::parse_rules(text(rule_source@), 0, Seq::empty()),
            always_violation(),
            explain,
            r,
        ),
{
    let program = match parse_program(rule_source) {
        Ok(p) => p,
        Err(e) => {
            return Err(describe_failure("Datalog parse error: ", &e));
        },
    };
    let mut args: Vec<Term> = Vec::new();
    args.push(Term::var("X"));
    let goal = Atom::new("violation", args);
    assert(goal@.args =~= violation_goal().args);
    let mut evaluator = EvaluatorExplain::new(engine, explain);
    evaluator.load_rules(copy_rules(program.rules()));
    assert(evaluator.rules() =~= program@);
    Ok(evaluator.query(&goal))
}

/// Whether a command leaves the graph as it is.
pub open spec fn asks(command: Command) -> bool {
    !(command is AddNodes || command is AddEdges || command is DeleteNode
        || command is DeleteEdge || command is Flush || command is Compact
        || command is Shutdown)
}

/// What a command that leaves the graph as it is gets for a reply: what
/// the engine answers. Any other command has no such reply.
#[verifier::opaque]
pub open spec fn answer(engine: GraphEngine, command: Command, r: Option<Reply>) -> bool {
    match command {
        Command::GetNode { id } => r matches Some(Reply::Node(n)) && (match n {
            Some(n) => Some(n@),
            None => None,
        }) == engine@.get_node(id),
        Command::NodeExists { id } => r matches Some(Reply::Flag(b)) && b == engine@.get_node(
            id,
        ).is_some(),
        Command::GetNodeIdentifier { id } => r matches Some(Reply::Identifier(s)) && opt_text(s)
            == (match engine@.get_node(id) {
            Some(n) => Some(crate::graph::model::identifier_of(n)),
            None => None,
        }),
        Command::FindByAttr { query } => r matches Some(Reply::Ids(ids)) && ids@ == engine@.find(
            query@,
        ),
        Command::FindByType { node_type } => r matches Some(Reply::Ids(ids)) && ids@
            == engine@.find(
            crate::storage::QueryModel {
                node_type: Some(text(node_type@)),
                ..crate::storage::empty_query()
            },
        ),
        Command::Neighbors { id, edge_types } => r matches Some(Reply::Ids(ids)) && ids@
            == engine@.neighbors(id, string_texts(edge_types@)),
        Command::Bfs { start_ids, max_depth, edge_types } => r matches Some(Reply::Ids(ids))
            && ids@ == spec_bfs(
            forward_step(engine@, string_texts(edge_types@)),
            start_ids@,
            max_depth as nat,
        ),
        Command::GetOutgoingEdges { node_id, edge_types } => r matches Some(Reply::Edges(edges))
            && edge_models(edges@) == engine@.outgoing_edges(node_id, opt_texts(edge_types)),
        Command::GetIncomingEdges { node_id, edge_types } => r matches Some(Reply::Edges(edges))
            && edge_models(edges@) == engine@.incoming_edges(node_id, opt_texts(edge_types)),
        Command::GetAllEdges => r matches Some(Reply::Edges(edges)) && edge_models(edges@)
            == engine@.distinct_edges(),
        Command::IsEndpoint { id } => r matches Some(Reply::Flag(b)) && b == engine@.is_endpoint(
            id,
        ),
        Command::GetNodeStringsWithMetadata { id } => r matches Some(Reply::Strings(Some(t))) && (
            opt_text(t.0),
            opt_text(t.1),
            opt_text(t.2),
        ) == engine@.node_strings(id),
        Command::NodeCount => r matches Some(Reply::Count(n)) && n == (if engine@.seg_node_rows().len()
            + engine@.delta_nodes.len() <= usize::MAX {
            (engine@.seg_node_rows().len() + engine@.delta_nodes.len()) as usize
        } else {
            usize::MAX
        }),
        Command::EdgeCount => r matches Some(Reply::Count(n)) && n == engine@.all_edges().len(),
        Command::CountNodesByType { types } => r matches Some(Reply::Counts(counts))
            && counts_model(counts@) == clipped(engine@.node_counts(opt_texts(types))),
        Command::CountEdgesByType { edge_types } => r matches Some(Reply::Counts(counts))
            && counts_model(counts@) == clipped(engine@.edge_counts(opt_texts(edge_types))),
        Command::DatalogQuery { rule_source, explain } => r matches Some(Reply::Answers(a))
            && answered(
            engine@,
            grammar::parse_rules(text(rule_source@), 0, Seq::empty()),
            own_goal(),
            explain,
            a,
        ),
        Command::CheckGuarantee { rule_source, explain } => r matches Some(Reply::Answers(a))
            && answered(
            engine@,
            grammar::parse_rules(text(rule_source@), 0, Seq::empty()),
            always_violation(),
            explain,
            a,
        ),
        _ => r.is_none(),
    }
}

/// The reply to a command that leaves the graph as it is; `None` for any
/// other command.
pub fn answer_command(engine: &GraphEngine, command: &Command) -> (r: Option<Reply>)
    requires
        engine.wf(),
    ensures
        answer(*engine, *command, r),
        r.is_some() == asks(*command),
{
    reveal(answer);
    match command {
        Command::GetNode { id } => Some(Reply::Node(engine.get_node(*id))),
        Command::NodeExists { id } => Some(Reply::Flag(engine.node_exists(*id))),
        Command::GetNodeIdentifier { id } => Some(
            Reply::Identifier(engine.get_node_identifier(*id)),
        ),
        Command::FindByAttr { query } => Some(Reply::Ids(engine.find_by_attr(query))),
        Command::FindByType { node_type } => Some(
            Reply::Ids(engine.find_by_type(node_type.as_str())),
        ),
        Command::Neighbors { id, edge_types } => {
            let types = as_strs(edge_types);
            Some(Reply::Ids(engine.neighbors(*id, types.as_slice())))
        },
        Command::Bfs { start_ids, max_depth, edge_types } => {
            let types = as_strs(edge_types);
            Some(Reply::Ids(engine.bfs(start_ids.as_slice(), *max_depth, types.as_slice())))
        },
        Command::GetOutgoingEdges { node_id, edge_types } => {
            let edges = match edge_types {
                Some(v) => {
                    let types = as_strs(v);
                    engine.get_outgoing_edges(*node_id, Some(types.as_slice()))
                },
                None => engine.get_outgoing_edges(*node_id, None),
            };
            Some(Reply::Edges(edges))
        },
        Command::GetIncomingEdges { node_id, edge_types } => {
            let edges = match edge_types {
                Some(v) => {
                    let types = as_strs(v);
                    engine.get_incoming_edges(*node_id, Some(types.as_slice()))
                },
                None => engine.get_incoming_edges(*node_id, None),
            };
            Some(Reply::Edges(edges))
        },
        Command::GetAllEdges => Some(Reply::Edges(engine.get_all_edges())),
        Command::IsEndpoint { id } => Some(Reply::Flag(engine.is_endpoint(*id))),
        Command::GetNodeStringsWithMetadata { id } => Some(
            Reply::Strings(engine.get_node_strings_with_metadata(*id)),
        ),
        Command::NodeCount => Some(Reply::Count(engine.node_count())),
        Command::EdgeCount => Some(Reply::Count(engine.edge_count())),
        Command::CountNodesByType { types } => {
            let counts = match types {
                Some(v) => engine.count_nodes_by_type(Some(v.as_slice())),
                None => engine.count_nodes_by_type(None),
            };
            Some(Reply::Counts(counts))
        },
        Command::CountEdgesByType { edge_types } => {
            let counts = match edge_types {
                Some(v) => engine.count_edges_by_type(Some(v.as_slice())),
                None => engine.count_edges_by_type(None),
            };
            Some(Reply::Counts(counts))
        },
        Command::DatalogQuery { rule_source, explain } => Some(
            Reply::Answers(execute_datalog_query(engine, rule_source.as_str(), *explain)),
        ),
        Command::CheckGuarantee { rule_source, explain } => Some(
            Reply::Answers(execute_check_guarantee(engine, rule_source.as_str(), *explain)),
        ),
        _ => None,
    }
}

/// What holds of the outcome of a flush.
pub open spec fn flush_outcome(
    before: GraphEngine,
    after: GraphEngine,
    r: Result<Option<Snapshot>, GraphError>,
) -> bool {
    if before.log().len() == 0 {
        r matches Ok(None) && after@ == before@
    } else if nodes_encodable(before@.flush_nodes()) && edges_encodable(before@.flush_edges()) {
        r matches Ok(Some(s)) && s.nodes@ == encode_nodes(before@.flush_nodes()) && s.edges@
            == encode_edges(before@.flush_edges()) && after@ == (GraphModel {
            seg_nodes: Some(s.nodes@),
            seg_edges: Some(s.edges@),
            ..empty_graph()
        })
    } else {
        r matches Err(e) && e is InvalidFormat && after@ == before@
    }
}

/// What holds after a command that changes the graph was run.
#[verifier::opaque]
pub open spec fn ran(before: GraphEngine, command: Command, after: GraphEngine, reply: Reply) -> bool {
    match command {
        Command::AddNodes { nodes } => reply is Done && after@ == (GraphModel {
            delta_nodes: upsert_all(before@.delta_nodes, node_models(nodes@), nodes@.len() as int),
            ..before@
        }),
        Command::AddEdges { edges, skip_validation } => reply is Done && after@ == with_edges(
            before@,
            edge_models(edges@),
            skip_validation,
            edges@.len() as int,
        ),
        Command::DeleteNode { id } => reply is Done && after@ == with_node_deleted(before@, id),
        Command::DeleteEdge { src, dst, edge_type } => reply is Done && after@ == (GraphModel {
            delta_edges: with_edge_deleted(before@.delta_edges, src, dst, text(edge_type@)),
            ..before@
        }),
        Command::Flush => reply matches Reply::Flushed(r) && flush_outcome(before, after, r),
        Command::Compact => reply matches Reply::Flushed(r) && flush_outcome(before, after, r),
        Command::Shutdown => reply matches Reply::Stopped(r) && flush_outcome(before, after, r),
        _ => after@ == before@,
    }
}

/// Runs a command that changes the graph.
fn change(engine: &mut GraphEngine, command: Command) -> (r: Reply)
    requires
        old(engine).wf(),
        !asks(command),
    ensures
        final(engine).wf(),
        ran(*old(engine), command, *final(engine), r),
{
    reveal(ran);
    match command {
        Command::AddNodes { nodes } => {
            engine.add_nodes(nodes);
            Reply::Done
        },
        Command::AddEdges { edges, skip_validation } => {
            engine.add_edges(edges, skip_validation);
            Reply::Done
        },
        Command::DeleteNode { id } => {
            engine.delete_node(id);
            Reply::Done
        },
        Command::DeleteEdge { src, dst, edge_type } => {
            engine.delete_edge(src, dst, edge_type.as_str());
            Reply::Done
        },
        Command::Flush => Reply::Flushed(engine.flush()),
        Command::Compact => Reply::Flushed(engine.compact()),
        Command::Shutdown => Reply::Stopped(engine.flush()),
        _ => Reply::Done,
    }
}

/// Whether a command leaves the graph as it is.
fn is_ask(command: &Command) -> (r: bool)
    ensures
        r == asks(*command),
{
    match command {
        Command::AddNodes { .. } => false,
        Command::AddEdges { .. } => false,
        Command::DeleteNode { .. } => false,
        Command::DeleteEdge { .. } => false,
        Command::Flush => false,
        Command::Compact => false,
        Command::Shutdown => false,
        _ => true,
    }
}

/// Runs one command on the engine and gives the reply. A command that
/// asks is answered as `answer` says, and the engine stays as it is. A
/// write is done and acknowledged. A flush hands back the images to
/// write; so does the flush before the owner stops.
pub fn run_command(engine: &mut GraphEngine, command: Command) -> (r: Reply)
    requires
        old(engine).wf(),
    ensures
        final(engine).wf(),
        asks(command) ==> answer(*old(engine), command, Some(r)) && *final(engine) == *old(engine),
        !asks(command) ==> ran(*old(engine), command, *final(engine), r),
        (r is Stopped) == (command is Shutdown),
{
    if is_ask(&command) {
        proof {
            reveal(answer);
        }
        match answer_command(engine, &command) {
            Some(reply) => reply,
            None => Reply::Done,
        }
    } else {
        let r = change(engine, command);
        proof {
            reveal(ran);
        }
        r
    }
}

} // verus!
