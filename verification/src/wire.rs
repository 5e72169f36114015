//! The request and response types of the server protocol, and how a
//! request is answered from an engine.
//!
//! Ids travel as text: a run of decimal digits that fits in 128 bits is
//! the id itself; any other text stands for the id that it hashes to.

use vstd::prelude::*;
use vstd::string::*;

use crate::datalog::bindings::{bindings_models, Bindings};
use crate::datalog::eval::{eval_atom_at, MAX_RULE_DEPTH};
use crate::datalog::eval_explain::{answers_model, render_all, rendered_all};
use crate::datalog::grammar::{whole, Parsed};
use crate::datalog::grammar;
use crate::datalog::parser::{parse_atom, parse_program, ParseError};
use crate::datalog::semantics::eval_atom;
use crate::datalog::trace::Trace;
use crate::datalog::types::{
    copy_rules, rule_models, Atom, AtomModel, Rule, RuleModel, Term, TermModel,
};
use crate::error::{join2, push_text, GraphError};
use crate::graph::engine::{
    empty_graph, upsert_all, with_edge_deleted, with_edges, with_node_deleted, GraphEngine,
    Snapshot,
};
use crate::graph::id_gen::{spec_string_id, string_id_to_u128};
use crate::graph::model::{backward_step, forward_step, string_texts, type_texts, GraphModel};
use crate::graph::tally::{clipped, counts_model};
use crate::graph::reach::reach_within;
use crate::graph::traversal::{is_dfs, spec_bfs};
use crate::storage::{
    copy_opt, edge_models, empty_query, node_models, AttrQuery, EdgeModel, EdgeRecord, NodeModel,
    NodeRecord, QueryModel,
};
use crate::storage::writer::{edges_encodable, encode_edges, encode_nodes, nodes_encodable};
use crate::text::{
    decimal, id_to_decimal, lemma_parse_decimal, opt_text, parse_id, spec_parse_id, text,
};

verus! {

/// A node as it travels.
#[derive(Debug)]
pub struct WireNode {
    pub id: String,
    pub node_type: Option<String>,
    pub name: Option<String>,
    pub file: Option<String>,
    pub exported: bool,
    pub metadata: Option<String>,
}

/// A node as it travels, text as UTF-8 bytes.
pub ghost struct WireNodeModel {
    pub id: Seq<u8>,
    pub node_type: Option<Seq<u8>>,
    pub name: Option<Seq<u8>>,
    pub file: Option<Seq<u8>>,
    pub exported: bool,
    pub metadata: Option<Seq<u8>>,
}

impl View for WireNode {
    type V = WireNodeModel;

    open spec fn view(&self) -> WireNodeModel {
        WireNodeModel {
            id: text(self.id@),
            node_type: opt_text(self.node_type),
            name: opt_text(self.name),
            file: opt_text(self.file),
            exported: self.exported,
            metadata: opt_text(self.metadata),
        }
    }
}

/// An edge as it travels.
#[derive(Debug)]
pub struct WireEdge {
    pub src: String,
    pub dst: String,
    pub edge_type: Option<String>,
    pub metadata: Option<String>,
}

/// An edge as it travels, text as UTF-8 bytes.
pub ghost struct WireEdgeModel {
    pub src: Seq<u8>,
    pub dst: Seq<u8>,
    pub edge_type: Option<Seq<u8>>,
    pub metadata: Option<Seq<u8>>,
}

impl View for WireEdge {
    type V = WireEdgeModel;

    open spec fn view(&self) -> WireEdgeModel {
        WireEdgeModel {
            src: text(self.src@),
            dst: text(self.dst@),
            edge_type: opt_text(self.edge_type),
            metadata: opt_text(self.metadata),
        }
    }
}

/// A node query as it travels.
#[derive(Debug)]
pub struct WireAttrQuery {
    pub node_type: Option<String>,
    pub name: Option<String>,
    pub file: Option<String>,
    pub exported: Option<bool>,
}

/// One answer of a guarantee or of a query: each variable with the text
/// of its value.
#[derive(Debug)]
pub struct WireViolation {
    pub bindings: Vec<(String, String)>,
}

/// The id that a text stands for.
pub open spec fn wire_id(s: Seq<u8>) -> u128 {
    match spec_parse_id(s) {
        Some(id) => id,
        None => spec_string_id(s),
    }
}

/// The id that a text stands for: the number that it spells, or else the
/// id that it hashes to.
pub fn string_to_id(s: &str) -> (r: u128)
    ensures
        r == wire_id(text(s@)),
{
    match parse_id(s) {
        Some(id) => id,
        None => string_id_to_u128(s),
    }
}

/// The text of an id: its decimal digits.
pub fn id_to_string(id: u128) -> (r: String)
    ensures
        text(r@) == decimal(id as nat),
{
    id_to_decimal(id)
}

/// The text of an id stands for the id.
pub proof fn lemma_id_text_round_trip(id: u128)
    ensures
        wire_id(decimal(id as nat)) == id,
{
    lemma_parse_decimal(id);
}

/// The record of a node that came in: of version `main`, not tombstoned,
/// standing in for nothing.
pub open spec fn record_of_node(n: WireNodeModel) -> NodeModel {
    NodeModel {
        id: wire_id(n.id),
        node_type: n.node_type,
        file_id: 0,
        name_offset: 0,
        version: text("main"@),
        exported: n.exported,
        replaces: None,
        deleted: false,
        name: n.name,
        file: n.file,
        metadata: n.metadata,
    }
}

/// A node as it goes out.
pub open spec fn node_to_wire(n: NodeModel) -> WireNodeModel {
    WireNodeModel {
        id: decimal(n.id as nat),
        node_type: n.node_type,
        name: n.name,
        file: n.file,
        exported: n.exported,
        metadata: n.metadata,
    }
}

/// The record of an edge that came in: of version `main`, not tombstoned.
pub open spec fn record_of_edge(e: WireEdgeModel) -> EdgeModel {
    EdgeModel {
        src: wire_id(e.src),
        dst: wire_id(e.dst),
        edge_type: e.edge_type,
        version: text("main"@),
        metadata: e.metadata,
        deleted: false,
    }
}

/// An edge as it goes out.
pub open spec fn edge_to_wire(e: EdgeModel) -> WireEdgeModel {
    WireEdgeModel {
        src: decimal(e.src as nat),
        dst: decimal(e.dst as nat),
        edge_type: e.edge_type,
        metadata: e.metadata,
    }
}

/// The record of a node that came in: of version `main`, not deleted.
pub fn wire_node_to_record(node: WireNode) -> (r: NodeRecord)
    ensures
        r@ == record_of_node(node@),
{
    NodeRecord {
        id: string_to_id(node.id.as_str()),
        node_type: node.node_type,
        file_id: 0,
        name_offset: 0,
        version: "main".to_owned(),
        exported: node.exported,
        replaces: None,
        deleted: false,
        name: node.name,
        file: node.file,
        metadata: node.metadata,
    }
}

/// A node as it goes out.
pub fn record_to_wire_node(record: &NodeRecord) -> (r: WireNode)
    ensures
        r@ == node_to_wire(record@),
{
    WireNode {
        id: id_to_string(record.id),
        node_type: copy_opt(&record.node_type),
        name: copy_opt(&record.name),
        file: copy_opt(&record.file),
        exported: record.exported,
        metadata: copy_opt(&record.metadata),
    }
}

/// The record of an edge that came in: of version `main`, not deleted.
pub fn wire_edge_to_record(edge: WireEdge) -> (r: EdgeRecord)
    ensures
        r@ == record_of_edge(edge@),
{
    EdgeRecord {
        src: string_to_id(edge.src.as_str()),
        dst: string_to_id(edge.dst.as_str()),
        edge_type: edge.edge_type,
        version: "main".to_owned(),
        metadata: edge.metadata,
        deleted: false,
    }
}

/// An edge as it goes out.
pub fn record_to_wire_edge(record: &EdgeRecord) -> (r: WireEdge)
    ensures
        r@ == edge_to_wire(record@),
{
    WireEdge {
        src: id_to_string(record.src),
        dst: id_to_string(record.dst),
        edge_type: copy_opt(&record.edge_type),
        metadata: copy_opt(&record.metadata),
    }
}

/// The most bytes that the payload of a frame may have: 100 MiB.
pub const MAX_FRAME_BYTES: usize = 104857600;

/// The length that the four bytes before a payload announce, big-endian.
pub open spec fn announced_len(prefix: Seq<u8>) -> int {
    prefix[0] as int * 16777216 + prefix[1] as int * 65536 + prefix[2] as int * 256 + prefix[3] as int
}

/// The length of the payload that follows a length prefix; `None` where
/// it is more than a frame may have.
pub fn frame_len(prefix: &[u8; 4]) -> (r: Option<usize>)
    ensures
        r == if announced_len(prefix@) <= MAX_FRAME_BYTES {
            Some(announced_len(prefix@) as usize)
        } else {
            None::<usize>
        },
{
    let n: u64 = (prefix[0] as u64) * 16777216 + (prefix[1] as u64) * 65536 + (prefix[2] as u64)
        * 256 + (prefix[3] as u64);
    if n > MAX_FRAME_BYTES as u64 {
        None
    } else {
        Some(n as usize)
    }
}

/// The four bytes that announce a length, big-endian.
fn length_prefix(n: usize) -> (r: Vec<u8>)
    requires
        n <= u32::MAX,
    ensures
        r@.len() == 4,
        announced_len(r@) == n,
{
    let b3: usize = n % 256;
    let q1: usize = n / 256;
    let b2: usize = q1 % 256;
    let q2: usize = q1 / 256;
    let b1: usize = q2 % 256;
    let b0: usize = q2 / 256;
    assert(n == q1 * 256 + b3);
    assert(q1 == q2 * 256 + b2);
    assert(q2 == b0 * 256 + b1);
    assert(b0 < 256);
    let mut out: Vec<u8> = Vec::new();
    out.push(b0 as u8);
    out.push(b1 as u8);
    out.push(b2 as u8);
    out.push(b3 as u8);
    out
}

/// A payload as it travels: its length in four bytes, big-endian, and the
/// payload. `None` where the payload is longer than four bytes can say.
pub fn frame(data: &[u8]) -> (r: Option<Vec<u8>>)
    ensures
        r.is_some() == (data@.len() <= u32::MAX),
        r matches Some(f) ==> f@.len() == 4 + data@.len() && announced_len(f@.subrange(0, 4))
            == data@.len() && f@.subrange(4, f@.len() as int) == data@,
{
    let n: usize = data.len();
    if n > u32::MAX as usize {
        return None;
    }
    let mut out: Vec<u8> = length_prefix(n);
    let ghost head = out@;
    let mut i: usize = 0;
    while i < n
        invariant
            i <= n,
            n == data@.len(),
            head.len() == 4,
            out@ == head + data@.subrange(0, i as int),
        decreases n - i,
    {
        out.push(data[i]);
        i += 1;
        assert(out@ =~= head + data@.subrange(0, i as int));
    }
    proof {
        assert(data@.subrange(0, n as int) =~= data@);
        assert(out@.subrange(0, 4) =~= head);
        assert(out@.subrange(4, out@.len() as int) =~= data@);
    }
    Some(out)
}

/// The goal of a guarantee: `violation(X)`.
pub open spec fn violation_goal() -> AtomModel {
    AtomModel { predicate: text("violation"@), args: seq![TermModel::Var(text("X"@))] }
}

/// The text of a parse error behind a prefix.
pub open spec fn parse_failure(prefix: Seq<u8>, position: int, message: Seq<u8>) -> Seq<u8> {
    prefix + text("Parse error at "@) + decimal(position as nat) + text(": "@) + message
}

/// The models of a list of answers.
pub open spec fn violations_model(s: Seq<WireViolation>) -> Seq<Seq<(Seq<u8>, Seq<u8>)>> {
    s.map_values(|v: WireViolation| crate::datalog::eval_explain::pairs_model(v.bindings@))
}

/// The answers as they go out.
fn to_violations(answers: &Vec<Bindings>) -> (r: Vec<WireViolation>)
    ensures
        violations_model(r@) == rendered_all(bindings_models(answers@)),
{
    let mut rendered = render_all(answers);
    let ghost goal = answers_model(rendered@);
    let mut out: Vec<WireViolation> = Vec::new();
    let n: usize = rendered.len();
    // taken from the end and put back in order
    let mut reversed: Vec<WireViolation> = Vec::new();
    while rendered.len() > 0
        invariant
            rendered@.len() <= n,
            answers_model(rendered@) == goal.subrange(0, rendered@.len() as int),
            reversed@.len() == n - rendered@.len(),
            n == goal.len(),
            forall|k: int|
                0 <= k < reversed@.len() ==> crate::datalog::eval_explain::pairs_model(
                    (#[trigger] reversed@[k]).bindings@,
                ) == goal[n - 1 - k],
        decreases rendered@.len(),
    {
        let ghost before = rendered@;
        let last = rendered.pop().unwrap();
        proof {
            assert(answers_model(before)[before.len() - 1]
                == crate::datalog::eval_explain::pairs_model(last@));
            assert(answers_model(rendered@) =~= goal.subrange(0, rendered@.len() as int));
        }
        reversed.push(WireViolation { bindings: last });
    }
    while reversed.len() > 0
        invariant
            reversed@.len() <= n,
            n == goal.len(),
            out@.len() == n - reversed@.len(),
            forall|k: int|
                0 <= k < reversed@.len() ==> crate::datalog::eval_explain::pairs_model(
                    (#[trigger] reversed@[k]).bindings@,
                ) == goal[n - 1 - k],
            violations_model(out@) == goal.subrange(0, out@.len() as int),
        decreases reversed@.len(),
    {
        let ghost before = out@;
        let ghost left = reversed@.len();
        let v = reversed.pop().unwrap();
        let ghost vm = crate::datalog::eval_explain::pairs_model(v.bindings@);
        out.push(v);
        proof {
            assert(vm == goal[n - left]);
            assert(violations_model(out@) =~= violations_model(before).push(vm));
            assert(violations_model(out@) =~= goal.subrange(0, out@.len() as int));
        }
    }
    assert(goal.subrange(0, n as int) =~= goal);
    out
}

/// The error text of a parse error behind a prefix.
pub(crate) fn describe_failure(prefix: &str, e: &ParseError) -> (r: String)
    ensures
        text(r@) == parse_failure(text(prefix@), e.position as int, text(e.message@)),
{
    let t = e.to_string();
    join2(prefix, t.as_str())
}

/// Checks a guarantee: loads the rules of `rule_source` and answers the
/// goal `violation(X)`. Each answer is a violation. Fails, with the text
/// of the parse error, exactly when the source is no program.
pub fn execute_check_guarantee(engine: &GraphEngine, rule_source: &str) -> (r: Result<
    Vec<WireViolation>,
    String,
>)
    requires
        engine.wf(),
    ensures
        match grammar::parse_rules(text(rule_source@), 0, Seq::empty()) {
            Parsed::Done { value, pos } => r matches Ok(v) && violations_model(v@) == rendered_all(
                eval_atom(engine@, value, violation_goal(), MAX_RULE_DEPTH as nat),
            ),
            Parsed::Failed { pos, message } => r matches Err(e) && text(e@) == parse_failure(
                text("Datalog parse error: "@),
                pos,
                message,
            ),
        },
{
    let program = match parse_program(rule_source) {
        Ok(p) => p,
        Err(e) => {
            return Err(describe_failure("Datalog parse error: ", &e));
        },
    };
    let rules = copy_rules(program.rules());
    let mut args: Vec<Term> = Vec::new();
    args.push(Term::var("X"));
    let goal = Atom::new("violation", args);
    assert(goal@.args =~= violation_goal().args);
    let mut trace = Trace::new(false);
    let answers = eval_atom_at(engine, &rules, &goal, MAX_RULE_DEPTH, &mut trace);
    Ok(to_violations(&answers))
}

/// The number of rules in a source text. Fails, with the text of the
/// parse error, exactly when the source is no program.
pub fn execute_datalog_load_rules(source: &str) -> (r: Result<u32, String>)
    ensures
        match grammar::parse_rules(text(source@), 0, Seq::empty()) {
            Parsed::Done { value, pos } => r == Ok::<u32, String>(
                if value.len() <= u32::MAX {
                    value.len() as u32
                } else {
                    u32::MAX
                },
            ),
            Parsed::Failed { pos, message } => r matches Err(e) && text(e@) == parse_failure(
                text("Datalog parse error: "@),
                pos,
                message,
            ),
        },
{
    let program = match parse_program(source) {
        Ok(p) => p,
        Err(e) => {
            return Err(describe_failure("Datalog parse error: ", &e));
        },
    };
    let n: usize = program.rules().len();
    assert(n == program@.len());
    if n > u32::MAX as usize {
        Ok(u32::MAX)
    } else {
        Ok(n as u32)
    }
}

/// Answers a goal that is given as text, without rules. Fails, with the
/// text of the parse error, exactly when the text is no atom.
pub fn execute_datalog_query(engine: &GraphEngine, query_source: &str) -> (r: Result<
    Vec<WireViolation>,
    String,
>)
    requires
        engine.wf(),
    ensures
        match whole(text(query_source@), grammar::parse_atom(text(query_source@), 0)) {
            Parsed::Done { value, pos } => r matches Ok(v) && violations_model(v@) == rendered_all(
                eval_atom(engine@, Seq::empty(), value, MAX_RULE_DEPTH as nat),
            ),
            Parsed::Failed { pos, message } => r matches Err(e) && text(e@) == parse_failure(
                text("Datalog query parse error: "@),
                pos,
                message,
            ),
        },
{
    let goal = match parse_atom(query_source) {
        Ok(a) => a,
        Err(e) => {
            return Err(describe_failure("Datalog query parse error: ", &e));
        },
    };
    let rules: Vec<Rule> = Vec::new();
    assert(rule_models(rules@) =~= Seq::<RuleModel>::empty());
    let mut trace = Trace::new(false);
    let answers = eval_atom_at(engine, &rules, &goal, MAX_RULE_DEPTH, &mut trace);
    Ok(to_violations(&answers))
}


/// A request.
#[derive(Debug)]
#[allow(inconsistent_fields)]
pub enum Request {
    AddNodes { nodes: Vec<WireNode> },
    AddEdges { edges: Vec<WireEdge>, skip_validation: bool },
    DeleteNode { id: String },
    DeleteEdge { src: String, dst: String, edge_type: String },
    GetNode { id: String },
    NodeExists { id: String },
    FindByType { node_type: String },
    FindByAttr { query: WireAttrQuery },
    Neighbors { id: String, edge_types: Vec<String> },
    Bfs { start_ids: Vec<String>, max_depth: u32, edge_types: Vec<String> },
    Reachability { start_ids: Vec<String>, max_depth: u32, edge_types: Vec<String>, backward: bool },
    Dfs { start_ids: Vec<String>, max_depth: u32, edge_types: Vec<String> },
    GetOutgoingEdges { id: String, edge_types: Option<Vec<String>> },
    GetIncomingEdges { id: String, edge_types: Option<Vec<String>> },
    NodeCount,
    EdgeCount,
    CountNodesByType { types: Option<Vec<String>> },
    CountEdgesByType { edge_types: Option<Vec<String>> },
    Flush,
    Compact,
    Clear,
    Ping,
    Shutdown,
    GetAllEdges,
    QueryNodes { query: WireAttrQuery },
    CheckGuarantee { rule_source: String },
    DatalogLoadRules { source: String },
    DatalogClearRules,
    DatalogQuery { query: String },
    IsEndpoint { id: String },
    GetNodeIdentifier { id: String },
    UpdateNodeVersion { id: String, version: String },
}

/// A response. On the wire the fields tell the kinds apart.
#[derive(Debug)]
pub enum Response {
    Ack { ok: bool },
    Error { error: String },
    Node { node: Option<WireNode> },
    Nodes { nodes: Vec<WireNode> },
    Edges { edges: Vec<WireEdge> },
    Ids { ids: Vec<String> },
    Bool { value: bool },
    Count { count: u32 },
    Counts { counts: Vec<(String, usize)> },
    Pong { pong: bool, version: String },
    Violations { violations: Vec<WireViolation> },
    Identifier { identifier: Option<String> },
    DatalogResults { results: Vec<WireViolation> },
}

/// What the server says of itself in answer to a ping.
pub open spec fn server_version() -> Seq<u8> {
    text("0.1.0"@)
}

/// The models of a list of nodes that came in.
pub open spec fn wire_nodes(s: Seq<WireNode>) -> Seq<WireNodeModel> {
    s.map_values(|n: WireNode| n@)
}

/// The models of a list of edges that came in.
pub open spec fn wire_edges(s: Seq<WireEdge>) -> Seq<WireEdgeModel> {
    s.map_values(|e: WireEdge| e@)
}

/// The records of nodes that came in.
pub open spec fn records_of_nodes(s: Seq<WireNodeModel>) -> Seq<NodeModel> {
    s.map_values(|n: WireNodeModel| record_of_node(n))
}

/// The records of edges that came in.
pub open spec fn records_of_edges(s: Seq<WireEdgeModel>) -> Seq<EdgeModel> {
    s.map_values(|e: WireEdgeModel| record_of_edge(e))
}

/// Nodes as they go out.
pub open spec fn nodes_to_wire(s: Seq<NodeModel>) -> Seq<WireNodeModel> {
    s.map_values(|n: NodeModel| node_to_wire(n))
}

/// Edges as they go out.
pub open spec fn edges_to_wire(s: Seq<EdgeModel>) -> Seq<WireEdgeModel> {
    s.map_values(|e: EdgeModel| edge_to_wire(e))
}

/// Ids as they go out.
pub open spec fn ids_to_wire(s: Seq<u128>) -> Seq<Seq<u8>> {
    s.map_values(|id: u128| decimal(id as nat))
}

/// The ids that texts stand for.
pub open spec fn ids_of_wire(s: Seq<Seq<u8>>) -> Seq<u128> {
    s.map_values(|t: Seq<u8>| wire_id(t))
}

/// The query that a query on the wire stands for.
pub open spec fn query_of_wire(q: WireAttrQuery) -> QueryModel {
    QueryModel {
        version: None,
        node_type: opt_text(q.node_type),
        file_id: None,
        file: opt_text(q.file),
        exported: q.exported,
        name: opt_text(q.name),
    }
}

/// The nodes that reads see, of the ids: ids that reads do not see are
/// passed over.
pub open spec fn seen_nodes(g: GraphModel, ids: Seq<u128>) -> Seq<NodeModel> {
    ids.filter_map(|id: u128| g.get_node(id))
}

/// A number as a count on the wire: the largest number that fits, where
/// it does not.
pub open spec fn clip32(n: int) -> u32 {
    if n <= u32::MAX {
        n as u32
    } else {
        u32::MAX
    }
}

/// The models of an optional list of strings.
pub open spec fn opt_texts(o: Option<Vec<String>>) -> Option<Seq<Seq<u8>>> {
    match o {
        Some(v) => Some(string_texts(v@)),
        None => None,
    }
}

/// What the server calls a node: its name, or else `TYPE:` and the id as
/// it came in.
pub open spec fn wire_identifier(n: NodeModel, id: Seq<u8>) -> Seq<u8> {
    match n.name {
        Some(name) => name,
        None => crate::graph::model::counted_type(n.node_type) + text(":"@) + id,
    }
}

/// The ids of texts.
fn strings_to_ids(v: &Vec<String>) -> (r: Vec<u128>)
    ensures
        r@ == ids_of_wire(string_texts(v@)),
{
    let ghost goal = ids_of_wire(string_texts(v@));
    let mut out: Vec<u128> = Vec::new();
    let mut i: usize = 0;
    while i < v.len()
        invariant
            i <= v@.len(),
            goal == ids_of_wire(string_texts(v@)),
            out@ == goal.subrange(0, i as int),
        decreases v@.len() - i,
    {
        assert(string_texts(v@)[i as int] == text(v@[i as int]@));
        out.push(string_to_id(v[i].as_str()));
        i += 1;
        assert(out@ =~= goal.subrange(0, i as int));
    }
    assert(goal.subrange(0, v@.len() as int) =~= goal);
    out
}

/// The texts of ids.
fn ids_to_strings(ids: &Vec<u128>) -> (r: Vec<String>)
    ensures
        string_texts(r@) == ids_to_wire(ids@),
{
    let ghost goal = ids_to_wire(ids@);
    let mut out: Vec<String> = Vec::new();
    let mut i: usize = 0;
    while i < ids.len()
        invariant
            i <= ids@.len(),
            goal == ids_to_wire(ids@),
            string_texts(out@) == goal.subrange(0, i as int),
        decreases ids@.len() - i,
    {
        let ghost before = out@;
        let t = id_to_string(ids[i]);
        let ghost tm = text(t@);
        out.push(t);
        i += 1;
        proof {
            assert(string_texts(out@) =~= string_texts(before).push(tm));
            assert(string_texts(out@) =~= goal.subrange(0, i as int));
        }
    }
    assert(goal.subrange(0, ids@.len() as int) =~= goal);
    out
}

/// The strings of a list as string slices.
pub(crate) fn as_strs(v: &Vec<String>) -> (r: Vec<&str>)
    ensures
        type_texts(r@) == string_texts(v@),
{
    let ghost goal = string_texts(v@);
    let mut out: Vec<&str> = Vec::new();
    let mut i: usize = 0;
    while i < v.len()
        invariant
            i <= v@.len(),
            goal == string_texts(v@),
            type_texts(out@) == goal.subrange(0, i as int),
        decreases v@.len() - i,
    {
        let ghost before = out@;
        let t: &str = v[i].as_str();
        out.push(t);
        i += 1;
        proof {
            assert(type_texts(out@) =~= type_texts(before).push(text(t@)));
            assert(goal[i - 1] == text(v@[i - 1]@));
            assert(type_texts(out@) =~= goal.subrange(0, i as int));
        }
    }
    assert(goal.subrange(0, v@.len() as int) =~= goal);
    out
}

/// Edges as they go out.
fn records_to_wire_edges(edges: &Vec<EdgeRecord>) -> (r: Vec<WireEdge>)
    ensures
        wire_edges(r@) == edges_to_wire(edge_models(edges@)),
{
    let ghost goal = edges_to_wire(edge_models(edges@));
    let mut out: Vec<WireEdge> = Vec::new();
    let mut i: usize = 0;
    while i < edges.len()
        invariant
            i <= edges@.len(),
            goal == edges_to_wire(edge_models(edges@)),
            wire_edges(out@) == goal.subrange(0, i as int),
        decreases edges@.len() - i,
    {
        let ghost before = out@;
        let w = record_to_wire_edge(&edges[i]);
        let ghost wm = w@;
        out.push(w);
        i += 1;
        proof {
            assert(edge_models(edges@)[i - 1] == edges@[i - 1]@);
            assert(wire_edges(out@) =~= wire_edges(before).push(wm));
            assert(wire_edges(out@) =~= goal.subrange(0, i as int));
        }
    }
    assert(goal.subrange(0, edges@.len() as int) =~= goal);
    out
}

/// The records of nodes that came in.
fn wire_nodes_to_records(nodes: Vec<WireNode>) -> (r: Vec<NodeRecord>)
    ensures
        node_models(r@) == records_of_nodes(wire_nodes(nodes@)),
{
    let ghost goal = records_of_nodes(wire_nodes(nodes@));
    let ghost n = nodes@.len();
    let mut nodes = nodes;
    let mut reversed: Vec<NodeRecord> = Vec::new();
    while nodes.len() > 0
        invariant
            nodes@.len() <= n,
            n == goal.len(),
            reversed@.len() == n - nodes@.len(),
            records_of_nodes(wire_nodes(nodes@)) == goal.subrange(0, nodes@.len() as int),
            forall|k: int| 0 <= k < reversed@.len() ==> (#[trigger] reversed@[k])@ == goal[n - 1 - k],
        decreases nodes@.len(),
    {
        let ghost before = nodes@;
        let w = nodes.pop().unwrap();
        proof {
            assert(records_of_nodes(wire_nodes(before))[before.len() - 1] == record_of_node(w@));
            assert(records_of_nodes(wire_nodes(nodes@)) =~= goal.subrange(0, nodes@.len() as int));
        }
        reversed.push(wire_node_to_record(w));
    }
    let mut out: Vec<NodeRecord> = Vec::new();
    while reversed.len() > 0
        invariant
            reversed@.len() <= n,
            n == goal.len(),
            out@.len() == n - reversed@.len(),
            forall|k: int| 0 <= k < reversed@.len() ==> (#[trigger] reversed@[k])@ == goal[n - 1 - k],
            node_models(out@) == goal.subrange(0, out@.len() as int),
        decreases reversed@.len(),
    {
        let ghost before = out@;
        let ghost left = reversed@.len();
        let r = reversed.pop().unwrap();
        let ghost rm = r@;
        out.push(r);
        proof {
            assert(rm == goal[n - left]);
            assert(node_models(out@) =~= node_models(before).push(rm));
            assert(node_models(out@) =~= goal.subrange(0, out@.len() as int));
        }
    }
    assert(goal.subrange(0, n as int) =~= goal);
    out
}

/// The records of edges that came in.
fn wire_edges_to_records(edges: Vec<WireEdge>) -> (r: Vec<EdgeRecord>)
    ensures
        edge_models(r@) == records_of_edges(wire_edges(edges@)),
{
    let ghost goal = records_of_edges(wire_edges(edges@));
    let ghost n = edges@.len();
    let mut edges = edges;
    let mut reversed: Vec<EdgeRecord> = Vec::new();
    while edges.len() > 0
        invariant
            edges@.len() <= n,
            n == goal.len(),
            reversed@.len() == n - edges@.len(),
            records_of_edges(wire_edges(edges@)) == goal.subrange(0, edges@.len() as int),
            forall|k: int| 0 <= k < reversed@.len() ==> (#[trigger] reversed@[k])@ == goal[n - 1 - k],
        decreases edges@.len(),
    {
        let ghost before = edges@;
        let w = edges.pop().unwrap();
        proof {
            assert(records_of_edges(wire_edges(before))[before.len() - 1] == record_of_edge(w@));
            assert(records_of_edges(wire_edges(edges@)) =~= goal.subrange(0, edges@.len() as int));
        }
        reversed.push(wire_edge_to_record(w));
    }
    let mut out: Vec<EdgeRecord> = Vec::new();
    while reversed.len() > 0
        invariant
            reversed@.len() <= n,
            n == goal.len(),
            out@.len() == n - reversed@.len(),
            forall|k: int| 0 <= k < reversed@.len() ==> (#[trigger] reversed@[k])@ == goal[n - 1 - k],
            edge_models(out@) == goal.subrange(0, out@.len() as int),
        decreases reversed@.len(),
    {
        let ghost before = out@;
        let ghost left = reversed@.len();
        let r = reversed.pop().unwrap();
        let ghost rm = r@;
        out.push(r);
        proof {
            assert(rm == goal[n - left]);
            assert(edge_models(out@) =~= edge_models(before).push(rm));
            assert(edge_models(out@) =~= goal.subrange(0, out@.len() as int));
        }
    }
    assert(goal.subrange(0, n as int) =~= goal);
    out
}

/// The query that a query on the wire stands for.
fn wire_query(q: WireAttrQuery) -> (r: AttrQuery)
    ensures
        r@ == query_of_wire(q),
{
    AttrQuery {
        version: None,
        node_type: q.node_type,
        file_id: None,
        file: q.file,
        exported: q.exported,
        name: q.name,
    }
}

/// A number as a count on the wire.
fn count32(n: usize) -> (r: u32)
    ensures
        r == clip32(n as int),
{
    if n > u32::MAX as usize {
        u32::MAX
    } else {
        n as u32
    }
}

/// The nodes that reads see, of the ids, as they go out.
fn nodes_of_ids(engine: &GraphEngine, ids: &Vec<u128>) -> (r: Vec<WireNode>)
    requires
        engine.wf(),
    ensures
        wire_nodes(r@) == nodes_to_wire(seen_nodes(engine@, ids@)),
{
    let ghost g = engine@;
    let mut out: Vec<WireNode> = Vec::new();
    let ghost mut seen: Seq<NodeModel> = Seq::empty();
    let mut i: usize = 0;
    proof {
        assert(ids@.subrange(0, 0) =~= Seq::<u128>::empty());
        assert(wire_nodes(out@) =~= nodes_to_wire(seen));
    }
    while i < ids.len()
        invariant
            i <= ids@.len(),
            engine.wf(),
            g == engine@,
            seen == seen_nodes(g, ids@.subrange(0, i as int)),
            wire_nodes(out@) == nodes_to_wire(seen),
        decreases ids@.len() - i,
    {
        proof {
            let t = ids@.subrange(0, i + 1);
            assert(t.drop_last() =~= ids@.subrange(0, i as int));
            assert(t.last() == ids@[i as int]);
        }
        match engine.get_node(ids[i]) {
            Some(n) => {
                let ghost before = out@;
                let w = record_to_wire_node(&n);
                let ghost wm = w@;
                out.push(w);
                proof {
                    let t = ids@.subrange(0, i + 1);
                    assert(seen_nodes(g, t) =~= seen.push(n@));
                    assert(wire_nodes(out@) =~= wire_nodes(before).push(wm));
                    seen = seen.push(n@);
                    assert(wire_nodes(out@) =~= nodes_to_wire(seen));
                }
            },
            None => {},
        }
        i += 1;
    }
    assert(ids@.subrange(0, ids@.len() as int) =~= ids@);
    out
}

/// The text of an error of the engine.
fn failure(e: &GraphError) -> (r: Response)
    ensures
        r matches Response::Error { error } && text(error@) == crate::error::spec_message(*e),
{
    Response::Error { error: e.message() }
}

/// What answering a request gives: the response, and the images to write
/// where the request led to a flush.
#[derive(Debug)]
pub struct Handled {
    pub response: Response,
    pub snapshot: Option<Snapshot>,
}

/// A response behind which nothing is to be written.
fn just(response: Response) -> (r: Handled)
    ensures
        r.response == response,
        r.snapshot.is_none(),
{
    Handled { response, snapshot: None }
}

/// Whether a request reads only: it is answered from the graph as it is.
pub open spec fn reads(request: Request) -> bool {
    !(request is AddNodes || request is AddEdges || request is DeleteNode || request is DeleteEdge
        || request is FindByAttr || request is QueryNodes || request is Flush || request is Compact
        || request is Shutdown || request is Clear || request is CheckGuarantee
        || request is DatalogLoadRules || request is DatalogQuery)
}

/// What a request that reads is answered: what the engine answers, as it
/// goes out. A request that does not read only has no such answer.
#[verifier::opaque]
pub open spec fn read_answer(engine: GraphEngine, request: Request, r: Option<Response>) -> bool {
    match request {
        Request::GetNode { id } => r matches Some(Response::Node { node }) && (match node {
            Some(n) => Some(n@),
            None => None,
        }) == (match engine@.get_node(wire_id(text(id@))) {
            Some(n) => Some(node_to_wire(n)),
            None => None,
        }),
        Request::NodeExists { id } => r matches Some(Response::Bool { value }) && value
            == engine@.get_node(wire_id(text(id@))).is_some(),
        Request::FindByType { node_type } => r matches Some(Response::Ids { ids })
            && string_texts(ids@) == ids_to_wire(
            engine@.find(QueryModel { node_type: Some(text(node_type@)), ..empty_query() }),
        ),
        Request::Neighbors { id, edge_types } => r matches Some(Response::Ids { ids })
            && string_texts(ids@) == ids_to_wire(
            engine@.neighbors(wire_id(text(id@)), string_texts(edge_types@)),
        ),
        Request::Bfs { start_ids, max_depth, edge_types } => r matches Some(
            Response::Ids { ids },
        ) && string_texts(ids@) == ids_to_wire(
            spec_bfs(
                forward_step(engine@, string_texts(edge_types@)),
                ids_of_wire(string_texts(start_ids@)),
                max_depth as nat,
            ),
        ),
        Request::Reachability { start_ids, max_depth, edge_types, backward } => r matches Some(
            Response::Ids { ids },
        ) && string_texts(ids@) == ids_to_wire(
            spec_bfs(
                if backward {
                    backward_step(engine@, string_texts(edge_types@))
                } else {
                    forward_step(engine@, string_texts(edge_types@))
                },
                ids_of_wire(string_texts(start_ids@)),
                max_depth as nat,
            ),
        ),
        Request::Dfs { start_ids, max_depth, edge_types } => r matches Some(
            Response::Ids { ids },
        ) && exists|found: Seq<u128>|
            #![trigger ids_to_wire(found)]
            found.no_duplicates() && found.to_set() == reach_within(
                forward_step(engine@, string_texts(edge_types@)),
                ids_of_wire(string_texts(start_ids@)).to_set(),
                max_depth as nat,
            ) && is_dfs(
                forward_step(engine@, string_texts(edge_types@)),
                reach_within(
                    forward_step(engine@, string_texts(edge_types@)),
                    ids_of_wire(string_texts(start_ids@)).to_set(),
                    max_depth as nat,
                ),
                ids_of_wire(string_texts(start_ids@)),
                found,
            ) && string_texts(ids@) == ids_to_wire(found),
        Request::GetOutgoingEdges { id, edge_types } => r matches Some(
            Response::Edges { edges },
        ) && wire_edges(edges@) == edges_to_wire(
            engine@.outgoing_edges(wire_id(text(id@)), opt_texts(edge_types)),
        ),
        Request::GetIncomingEdges { id, edge_types } => r matches Some(
            Response::Edges { edges },
        ) && wire_edges(edges@) == edges_to_wire(
            engine@.incoming_edges(wire_id(text(id@)), opt_texts(edge_types)),
        ),
        Request::NodeCount => r matches Some(Response::Count { count }) && count == clip32(
            (engine@.seg_node_rows().len() + engine@.delta_nodes.len()) as int,
        ),
        Request::EdgeCount => r matches Some(Response::Count { count }) && count == clip32(
            engine@.all_edges().len() as int,
        ),
        Request::CountNodesByType { types } => r matches Some(Response::Counts { counts })
            && counts_model(counts@) == clipped(engine@.node_counts(opt_texts(types))),
        Request::CountEdgesByType { edge_types } => r matches Some(
            Response::Counts { counts },
        ) && counts_model(counts@) == clipped(engine@.edge_counts(opt_texts(edge_types))),
        Request::Ping => r matches Some(Response::Pong { pong, version }) && pong && text(
            version@,
        ) == server_version(),
        Request::GetAllEdges => r matches Some(Response::Edges { edges }) && wire_edges(edges@)
            == edges_to_wire(engine@.distinct_edges()),
        Request::DatalogClearRules => r matches Some(Response::Ack { ok }) && ok,
        Request::IsEndpoint { id } => r matches Some(Response::Bool { value }) && value
            == engine@.is_endpoint(wire_id(text(id@))),
        Request::GetNodeIdentifier { id } => r matches Some(Response::Identifier { identifier })
            && opt_text(identifier) == (match engine@.get_node(wire_id(text(id@))) {
            Some(n) => Some(wire_identifier(n, text(id@))),
            None => None,
        }),
        Request::UpdateNodeVersion { id, version } => r matches Some(Response::Ack { ok }) && ok,
        _ => r.is_none(),
    }
}

/// The answer to a request that reads; `None` for a request that does not
/// read only.
pub fn answer_read(engine: &GraphEngine, request: &Request) -> (r: Option<Response>)
    requires
        engine.wf(),
    ensures
        read_answer(*engine, *request, r),
        r.is_some() == reads(*request),
{
    reveal(read_answer);
    match request {
        Request::GetNode { id } => {
            let node = match engine.get_node(string_to_id(id.as_str())) {
                Some(n) => Some(record_to_wire_node(&n)),
                None => None,
            };
            Some(Response::Node { node })
        },
        Request::NodeExists { id } => Some(
            Response::Bool { value: engine.node_exists(string_to_id(id.as_str())) },
        ),
        Request::FindByType { node_type } => {
            let ids = engine.find_by_type(node_type.as_str());
            Some(Response::Ids { ids: ids_to_strings(&ids) })
        },
        Request::Neighbors { id, edge_types } => {
            let types = as_strs(edge_types);
            let ids = engine.neighbors(string_to_id(id.as_str()), types.as_slice());
            Some(Response::Ids { ids: ids_to_strings(&ids) })
        },
        Request::Bfs { start_ids, max_depth, edge_types } => {
            let start = strings_to_ids(start_ids);
            let types = as_strs(edge_types);
            let ids = engine.bfs(start.as_slice(), *max_depth as usize, types.as_slice());
            Some(Response::Ids { ids: ids_to_strings(&ids) })
        },
        Request::Reachability { start_ids, max_depth, edge_types, backward } => {
            let start = strings_to_ids(start_ids);
            let types = as_strs(edge_types);
            let ids = engine.reachability(
                start.as_slice(),
                *max_depth as usize,
                types.as_slice(),
                *backward,
            );
            Some(Response::Ids { ids: ids_to_strings(&ids) })
        },
        Request::Dfs { start_ids, max_depth, edge_types } => {
            let start = strings_to_ids(start_ids);
            let types = as_strs(edge_types);
            let ids = engine.dfs(start.as_slice(), *max_depth as usize, types.as_slice());
            let texts = ids_to_strings(&ids);
            assert(string_texts(texts@) == ids_to_wire(ids@));
            Some(Response::Ids { ids: texts })
        },
        Request::GetOutgoingEdges { id, edge_types } => {
            let edges = match edge_types {
                Some(v) => {
                    let types = as_strs(v);
                    engine.get_outgoing_edges(string_to_id(id.as_str()), Some(types.as_slice()))
                },
                None => engine.get_outgoing_edges(string_to_id(id.as_str()), None),
            };
            Some(Response::Edges { edges: records_to_wire_edges(&edges) })
        },
        Request::GetIncomingEdges { id, edge_types } => {
            let edges = match edge_types {
                Some(v) => {
                    let types = as_strs(v);
                    engine.get_incoming_edges(string_to_id(id.as_str()), Some(types.as_slice()))
                },
                None => engine.get_incoming_edges(string_to_id(id.as_str()), None),
            };
            Some(Response::Edges { edges: records_to_wire_edges(&edges) })
        },
        Request::NodeCount => Some(Response::Count { count: count32(engine.node_count()) }),
        Request::EdgeCount => Some(Response::Count { count: count32(engine.edge_count()) }),
        Request::CountNodesByType { types } => {
            let counts = match types {
                Some(v) => engine.count_nodes_by_type(Some(v.as_slice())),
                None => engine.count_nodes_by_type(None),
            };
            Some(Response::Counts { counts })
        },
        Request::CountEdgesByType { edge_types } => {
            let counts = match edge_types {
                Some(v) => engine.count_edges_by_type(Some(v.as_slice())),
                None => engine.count_edges_by_type(None),
            };
            Some(Response::Counts { counts })
        },
        Request::Ping => Some(Response::Pong { pong: true, version: "0.1.0".to_owned() }),
        Request::GetAllEdges => {
            let edges = engine.get_all_edges();
            Some(Response::Edges { edges: records_to_wire_edges(&edges) })
        },
        Request::DatalogClearRules => Some(Response::Ack { ok: true }),
        Request::IsEndpoint { id } => Some(
            Response::Bool { value: engine.is_endpoint(string_to_id(id.as_str())) },
        ),
        Request::GetNodeIdentifier { id } => {
            let identifier = match engine.get_node(string_to_id(id.as_str())) {
                Some(n) => match n.name {
                    Some(name) => Some(name),
                    None => {
                        let t: &str = match &n.node_type {
                            Some(t) => t.as_str(),
                            None => "UNKNOWN",
                        };
                        let mut out = join2(t, ":");
                        push_text(&mut out, id.as_str());
                        Some(out)
                    },
                },
                None => None,
            };
            Some(Response::Identifier { identifier })
        },
        Request::UpdateNodeVersion { id, version } => Some(Response::Ack { ok: true }),
        _ => None,
    }
}

/// What holds after a request that does not read only was answered.
#[verifier::opaque]
pub open spec fn handled(before: GraphEngine, request: Request, after: GraphEngine, out: Handled) -> bool {
    match request {
        Request::AddNodes { nodes } => out.response matches Response::Ack { ok } && ok
            && out.snapshot.is_none() && after@ == (GraphModel {
            delta_nodes: upsert_all(
                before@.delta_nodes,
                records_of_nodes(wire_nodes(nodes@)),
                nodes@.len() as int,
            ),
            ..before@
        }),
        Request::AddEdges { edges, skip_validation } => out.response matches Response::Ack { ok }
            && ok && out.snapshot.is_none() && after@ == with_edges(
            before@,
            records_of_edges(wire_edges(edges@)),
            skip_validation,
            edges@.len() as int,
        ),
        Request::DeleteNode { id } => out.response matches Response::Ack { ok } && ok
            && out.snapshot.is_none() && after@ == with_node_deleted(before@, wire_id(text(id@))),
        Request::DeleteEdge { src, dst, edge_type } => out.response matches Response::Ack { ok }
            && ok && out.snapshot.is_none() && after@ == (GraphModel {
            delta_edges: with_edge_deleted(
                before@.delta_edges,
                wire_id(text(src@)),
                wire_id(text(dst@)),
                text(edge_type@),
            ),
            ..before@
        }),
        Request::FindByAttr { query } => out.response matches Response::Ids { ids }
            && string_texts(ids@) == ids_to_wire(before@.find(query_of_wire(query)))
            && out.snapshot.is_none() && after@ == before@,
        Request::QueryNodes { query } => out.response matches Response::Nodes { nodes }
            && wire_nodes(nodes@) == nodes_to_wire(
            seen_nodes(before@, before@.find(query_of_wire(query))),
        ) && out.snapshot.is_none() && after@ == before@,
        Request::Flush => flushed_now(before, after, out),
        Request::Compact => flushed_now(before, after, out),
        Request::Shutdown => flushed_now(before, after, out),
        Request::Clear => out.response matches Response::Ack { ok } && ok && out.snapshot.is_none()
            && after@ == empty_graph(),
        Request::CheckGuarantee { rule_source } => out.snapshot.is_none() && after@ == before@
            && (match grammar::parse_rules(text(rule_source@), 0, Seq::empty()) {
            Parsed::Done { value, pos } => out.response matches Response::Violations { violations }
                && violations_model(violations@) == rendered_all(
                eval_atom(before@, value, violation_goal(), MAX_RULE_DEPTH as nat),
            ),
            Parsed::Failed { pos, message } => out.response matches Response::Error { error }
                && text(error@) == parse_failure(text("Datalog parse error: "@), pos, message),
        }),
        Request::DatalogLoadRules { source } => out.snapshot.is_none() && after@ == before@ && (
        match grammar::parse_rules(text(source@), 0, Seq::empty()) {
            Parsed::Done { value, pos } => out.response matches Response::Count { count } && count
                == clip32(value.len() as int),
            Parsed::Failed { pos, message } => out.response matches Response::Error { error }
                && text(error@) == parse_failure(text("Datalog parse error: "@), pos, message),
        }),
        Request::DatalogQuery { query } => out.snapshot.is_none() && after@ == before@ && (
        match whole(text(query@), grammar::parse_atom(text(query@), 0)) {
            Parsed::Done { value, pos } => out.response matches Response::DatalogResults { results }
                && violations_model(results@) == rendered_all(
                eval_atom(before@, Seq::empty(), value, MAX_RULE_DEPTH as nat),
            ),
            Parsed::Failed { pos, message } => out.response matches Response::Error { error }
                && text(error@) == parse_failure(
                text("Datalog query parse error: "@),
                pos,
                message,
            ),
        }),
        _ => out.snapshot.is_none() && after@ == before@,
    }
}

fn do_add_nodes(engine: &mut GraphEngine, nodes: Vec<WireNode>) -> (r: Handled)
    requires
        old(engine).wf(),
    ensures
        final(engine).wf(),
        handled(*old(engine), Request::AddNodes { nodes }, *final(engine), r),
{
    reveal(handled);
    let records = wire_nodes_to_records(nodes);
    proof {
        assert(node_models(records@).len() == records@.len());
        assert(records_of_nodes(wire_nodes(nodes@)).len() == nodes@.len());
    }
    engine.add_nodes(records);
    just(Response::Ack { ok: true })
}

fn do_add_edges(engine: &mut GraphEngine, edges: Vec<WireEdge>, skip_validation: bool) -> (r:
    Handled)
    requires
        old(engine).wf(),
    ensures
        final(engine).wf(),
        handled(*old(engine), Request::AddEdges { edges, skip_validation }, *final(engine), r),
{
    reveal(handled);
    let records = wire_edges_to_records(edges);
    proof {
        assert(edge_models(records@).len() == records@.len());
        assert(records_of_edges(wire_edges(edges@)).len() == edges@.len());
    }
    engine.add_edges(records, skip_validation);
    just(Response::Ack { ok: true })
}

fn do_delete_node(engine: &mut GraphEngine, id: String) -> (r: Handled)
    requires
        old(engine).wf(),
    ensures
        final(engine).wf(),
        handled(*old(engine), Request::DeleteNode { id }, *final(engine), r),
{
    reveal(handled);
    engine.delete_node(string_to_id(id.as_str()));
    just(Response::Ack { ok: true })
}

fn do_delete_edge(engine: &mut GraphEngine, src: String, dst: String, edge_type: String) -> (r:
    Handled)
    requires
        old(engine).wf(),
    ensures
        final(engine).wf(),
        handled(*old(engine), Request::DeleteEdge { src, dst, edge_type }, *final(engine), r),
{
    reveal(handled);
    engine.delete_edge(string_to_id(src.as_str()), string_to_id(dst.as_str()), edge_type.as_str());
    just(Response::Ack { ok: true })
}

fn do_find_by_attr(engine: &GraphEngine, query: WireAttrQuery) -> (r: Handled)
    requires
        engine.wf(),
    ensures
        handled(*engine, Request::FindByAttr { query }, *engine, r),
{
    reveal(handled);
    let q = wire_query(query);
    let ids = engine.find_by_attr(&q);
    just(Response::Ids { ids: ids_to_strings(&ids) })
}

fn do_query_nodes(engine: &GraphEngine, query: WireAttrQuery) -> (r: Handled)
    requires
        engine.wf(),
    ensures
        handled(*engine, Request::QueryNodes { query }, *engine, r),
{
    reveal(handled);
    let q = wire_query(query);
    let ids = engine.find_by_attr(&q);
    just(Response::Nodes { nodes: nodes_of_ids(engine, &ids) })
}

fn do_clear(engine: &mut GraphEngine) -> (r: Handled)
    ensures
        final(engine).wf(),
        handled(*old(engine), Request::Clear, *final(engine), r),
{
    reveal(handled);
    engine.clear();
    just(Response::Ack { ok: true })
}

fn do_check_guarantee(engine: &GraphEngine, rule_source: String) -> (r: Handled)
    requires
        engine.wf(),
    ensures
        handled(*engine, Request::CheckGuarantee { rule_source }, *engine, r),
{
    reveal(handled);
    match execute_check_guarantee(engine, rule_source.as_str()) {
        Ok(violations) => just(Response::Violations { violations }),
        Err(error) => just(Response::Error { error }),
    }
}

fn do_load_rules(engine: &GraphEngine, source: String) -> (r: Handled)
    ensures
        handled(*engine, Request::DatalogLoadRules { source }, *engine, r),
{
    reveal(handled);
    match execute_datalog_load_rules(source.as_str()) {
        Ok(count) => just(Response::Count { count }),
        Err(error) => just(Response::Error { error }),
    }
}

fn do_query(engine: &GraphEngine, query: String) -> (r: Handled)
    requires
        engine.wf(),
    ensures
        handled(*engine, Request::DatalogQuery { query }, *engine, r),
{
    reveal(handled);
    match execute_datalog_query(engine, query.as_str()) {
        Ok(results) => just(Response::DatalogResults { results }),
        Err(error) => just(Response::Error { error }),
    }
}

fn do_flush(engine: &mut GraphEngine, compact: bool) -> (r: Handled)
    requires
        old(engine).wf(),
    ensures
        final(engine).wf(),
        handled(
            *old(engine),
            if compact {
                Request::Compact
            } else {
                Request::Flush
            },
            *final(engine),
            r,
        ),
{
    reveal(handled);
    flush_now(engine)
}

/// Flushes before the server stops.
fn do_shutdown(engine: &mut GraphEngine) -> (r: Handled)
    requires
        old(engine).wf(),
    ensures
        final(engine).wf(),
        handled(*old(engine), Request::Shutdown, *final(engine), r),
{
    reveal(handled);
    flush_now(engine)
}

/// Answers a request that does not read only.
fn answer_write(engine: &mut GraphEngine, request: Request) -> (r: Handled)
    requires
        old(engine).wf(),
        !reads(request),
    ensures
        final(engine).wf(),
        handled(*old(engine), request, *final(engine), r),
{
    match request {
        Request::AddNodes { nodes } => do_add_nodes(engine, nodes),
        Request::AddEdges { edges, skip_validation } => do_add_edges(engine, edges, skip_validation),
        Request::DeleteNode { id } => do_delete_node(engine, id),
        Request::DeleteEdge { src, dst, edge_type } => do_delete_edge(engine, src, dst, edge_type),
        Request::FindByAttr { query } => do_find_by_attr(engine, query),
        Request::QueryNodes { query } => do_query_nodes(engine, query),
        Request::Flush => do_flush(engine, false),
        Request::Compact => do_flush(engine, true),
        Request::Shutdown => do_shutdown(engine),
        Request::Clear => do_clear(engine),
        Request::CheckGuarantee { rule_source } => do_check_guarantee(engine, rule_source),
        Request::DatalogLoadRules { source } => do_load_rules(engine, source),
        Request::DatalogQuery { query } => do_query(engine, query),
        _ => just(Response::Ack { ok: true }),
    }
}

/// What holds after a flush was asked for.
pub open spec fn flushed_now(before: GraphEngine, after: GraphEngine, out: Handled) -> bool {
    if before.log().len() == 0 {
        out.response matches Response::Ack { ok } && ok && out.snapshot.is_none() && after@
            == before@
    } else if nodes_encodable(before@.flush_nodes()) && edges_encodable(before@.flush_edges()) {
        out.response matches Response::Ack { ok } && ok && (out.snapshot matches Some(s) && s.nodes@
            == encode_nodes(before@.flush_nodes()) && s.edges@ == encode_edges(
            before@.flush_edges(),
        ) && after@ == (GraphModel {
            seg_nodes: Some(s.nodes@),
            seg_edges: Some(s.edges@),
            ..empty_graph()
        }))
    } else {
        out.response is Error && out.snapshot.is_none() && after@ == before@
    }
}

/// Flushes the engine.
fn flush_now(engine: &mut GraphEngine) -> (r: Handled)
    requires
        old(engine).wf(),
    ensures
        final(engine).wf(),
        flushed_now(*old(engine), *final(engine), r),
{
    match engine.flush() {
        Ok(snapshot) => Handled { response: Response::Ack { ok: true }, snapshot },
        Err(e) => just(failure(&e)),
    }
}

/// Whether a request reads only.
fn is_read(request: &Request) -> (r: bool)
    ensures
        r == reads(*request),
{
    match request {
        Request::AddNodes { .. } => false,
        Request::AddEdges { .. } => false,
        Request::DeleteNode { .. } => false,
        Request::DeleteEdge { .. } => false,
        Request::FindByAttr { .. } => false,
        Request::QueryNodes { .. } => false,
        Request::Flush => false,
        Request::Compact => false,
        Request::Shutdown => false,
        Request::Clear => false,
        Request::CheckGuarantee { .. } => false,
        Request::DatalogLoadRules { .. } => false,
        Request::DatalogQuery { .. } => false,
        _ => true,
    }
}

/// Answers a request. A request that reads only is answered as
/// `read_answer` says, and leaves the graph as it is; any other request is
/// answered as `handled` says. Where the request led to a flush, the
/// images to write come with the response. A shutdown is answered with a
/// flush: the server writes the images and stops.
pub fn handle_request(engine: &mut GraphEngine, request: Request) -> (r: Handled)
    requires
        old(engine).wf(),
    ensures
        final(engine).wf(),
        reads(request) ==> read_answer(*old(engine), request, Some(r.response))
            && r.snapshot.is_none() && *final(engine) == *old(engine),
        !reads(request) ==> handled(*old(engine), request, *final(engine), r),
{
    if is_read(&request) {
        match answer_read(engine, &request) {
            Some(response) => just(response),
            None => just(Response::Ack { ok: true }),
        }
    } else {
        answer_write(engine, request)
    }
}

} // verus!
