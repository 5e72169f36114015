//! The graph engine: two immutable segments, the delta that shadows them,
//! and the adjacency lists over both.
//!
//! The engine does no input or output. It takes the images of its segments
//! as bytes when it is opened, and hands the new images back from a flush;
//! reading and writing the files is the caller's part. Writes are not
//! synchronised: whoever shares an engine between threads serialises them.

use std::collections::{HashMap, HashSet};

use vstd::prelude::*;
use vstd::slice::slice_to_vec;
use vstd::string::*;

use crate::error::{push_text, GraphError};
use crate::graph::db_path::{normalize_db_path, spec_normalize};
use crate::graph::model::{
    admitted_by, as_filter, backward_step, counted_edge_type_of, counted_type, counted_type_of,
    dst_of, edge_rows, edges_at, edges_promoted, edges_version_deleted, endpoint, endpoint_node,
    filter_admits, forward_step, gather, id_of, identifier_of, index_list, key_between, key_with,
    lemma_filter_empty, lemma_filter_step, lemma_gather_index_list, lemma_index_list_bound,
    lemma_index_list_same, lemma_map_filter_push, lemma_position_of, lemma_tally_bound,
    lemma_tally_push, listed, live_edge, live_match, live_node, live_of_version, local_version,
    node_matches, node_rows, nodes_promoted, nodes_version_deleted, picked, position_of,
    replaced_by_local, src_of, tally_of, text_admits, type_admits, type_texts, typed_or_none,
    unless_empty, wanted, without_empty_type, GraphModel,
};
use crate::graph::tally::{
    bump_tally, clipped, counts_model, finish, opt_pattern_texts, patterns_ok, tally_model,
};
use crate::graph::reach::reach_within;
use crate::graph::traversal::{bfs_over, dfs_over, is_dfs, spec_bfs};
use crate::storage::{
    edge_models, node_models, AttrQuery, EdgeModel, EdgeRecord, NodeModel, NodeRecord,
};
use crate::storage::delta::{Delta, DeltaLog, DeltaModel};
use crate::storage::round_trip::{lemma_edges_image, lemma_nodes_image};
use crate::storage::segment::{
    edge_deleted, edge_dst, edge_src, first_index_of, node_id, opt_str_text, stored_node_count,
    EdgesSegment, NodesSegment,
};
use crate::storage::writer::{
    edges_encodable, encode_edges, encode_nodes, nodes_encodable, unix_now, GraphMetadata,
    SegmentWriter,
};
use crate::text::{id_to_decimal, matches_pattern, opt_text, str_eq, text};

verus! {

broadcast use vstd::std_specs::hash::group_hash_axioms;

/// The list that an adjacency map holds for an id: empty for an id that is
/// no key.
pub open spec fn list_of(m: Map<u128, Vec<usize>>, id: u128) -> Seq<usize> {
    if m.contains_key(id) {
        m[id]@
    } else {
        Seq::empty()
    }
}

/// The delta's nodes after one more node: a node of a new id is added at
/// the end, a node of a known id takes the place of the one before it.
pub open spec fn upsert(nodes: Seq<NodeModel>, n: NodeModel) -> Seq<NodeModel> {
    match position_of(nodes, n.id, nodes.len() as int) {
        Some(i) => nodes.update(i, n),
        None => nodes.push(n),
    }
}

/// The delta's nodes after the first `k` of `added` came in, in order.
pub open spec fn upsert_all(nodes: Seq<NodeModel>, added: Seq<NodeModel>, k: int) -> Seq<NodeModel>
    decreases k,
{
    if k <= 0 {
        nodes
    } else {
        upsert(upsert_all(nodes, added, k - 1), added[k - 1])
    }
}

/// The graph takes the edge: its ends exist unless validation is skipped,
/// and there is an index left for it.
pub open spec fn edge_accepted(g: GraphModel, e: EdgeModel, skip_validation: bool) -> bool {
    &&& skip_validation || (g.get_node(e.src).is_some() && g.get_node(e.dst).is_some())
    &&& g.all_edges().len() < usize::MAX
}

/// The graph after the first `k` of `added` were offered, in order: each
/// one that is accepted is appended to the delta's edges.
pub open spec fn with_edges(g: GraphModel, added: Seq<EdgeModel>, skip: bool, k: int) -> GraphModel
    decreases k,
{
    if k <= 0 {
        g
    } else {
        let before = with_edges(g, added, skip, k - 1);
        if edge_accepted(before, added[k - 1], skip) {
            GraphModel { delta_edges: before.delta_edges.push(added[k - 1]), ..before }
        } else {
            before
        }
    }
}

/// The graph after `delete_node`: a node of the delta gets its tombstone;
/// any other id is remembered as deleted from the segment.
pub open spec fn with_node_deleted(g: GraphModel, id: u128) -> GraphModel {
    match position_of(g.delta_nodes, id, g.delta_nodes.len() as int) {
        Some(i) => GraphModel {
            delta_nodes: g.delta_nodes.update(
                i,
                NodeModel { deleted: true, ..g.delta_nodes[i] },
            ),
            ..g
        },
        None => GraphModel { deleted_segment_ids: g.deleted_segment_ids.insert(id), ..g },
    }
}

/// What the log records of edges that were taken, in order.
pub open spec fn edges_logged(edges: Seq<EdgeModel>) -> Seq<DeltaModel> {
    edges.map_values(|e: EdgeModel| DeltaModel::AddEdge(e))
}

/// The edge is one that `delete_edge` means: same source, target and type.
pub open spec fn edge_meant(e: EdgeModel, src: u128, dst: u128, edge_type: Seq<u8>) -> bool {
    e.src == src && e.dst == dst && e.edge_type == Some(edge_type)
}

/// The delta's edges after `delete_edge`: every edge that is meant gets
/// its tombstone.
pub open spec fn with_edge_deleted(
    edges: Seq<EdgeModel>,
    src: u128,
    dst: u128,
    edge_type: Seq<u8>,
) -> Seq<EdgeModel> {
    edges.map_values(
        |e: EdgeModel|
            if edge_meant(e, src, dst, edge_type) {
                EdgeModel { deleted: true, ..e }
            } else {
                e
            },
    )
}

/// The graph after a new version was given to the delta's node of `id`;
/// unchanged where the delta has no such node.
pub open spec fn with_version(g: GraphModel, id: u128, version: Seq<u8>) -> GraphModel {
    match position_of(g.delta_nodes, id, g.delta_nodes.len() as int) {
        Some(i) => GraphModel {
            delta_nodes: g.delta_nodes.update(i, NodeModel { version, ..g.delta_nodes[i] }),
            ..g
        },
        None => g,
    }
}

/// The graph that holds nothing.
pub open spec fn empty_graph() -> GraphModel {
    GraphModel {
        seg_nodes: None,
        seg_edges: None,
        delta_nodes: Seq::empty(),
        delta_edges: Seq::empty(),
        deleted_segment_ids: Set::empty(),
    }
}

/// The string of an optional string.
fn as_str_opt(o: &Option<String>) -> (r: Option<&str>)
    ensures
        opt_str_text(r) == opt_text(*o),
{
    match o {
        Some(s) => Some(s.as_str()),
        None => None,
    }
}

/// Whether a query field admits a text.
fn text_ok(q: &Option<String>, v: Option<&str>) -> (r: bool)
    ensures
        r == text_admits(opt_text(*q), opt_str_text(v)),
{
    match q {
        None => true,
        Some(x) => match v {
            Some(v) => str_eq(x.as_str(), v),
            None => false,
        },
    }
}

/// Whether a type pattern admits a node type.
fn type_ok(q: &Option<String>, t: Option<&str>) -> (r: bool)
    ensures
        r == type_admits(opt_text(*q), opt_str_text(t)),
{
    match q {
        None => true,
        Some(p) => match t {
            Some(t) => matches_pattern(p.as_str(), t),
            None => false,
        },
    }
}

/// The models of an optional list of type names.
pub open spec fn opt_type_texts(types: Option<&[&str]>) -> Option<Seq<Seq<u8>>> {
    match types {
        Some(ts) => Some(type_texts(ts@)),
        None => None,
    }
}

/// Whether an edge-type filter admits a type.
fn types_admit(types: Option<&[&str]>, t: Option<&str>) -> (r: bool)
    ensures
        r == filter_admits(opt_type_texts(types), opt_str_text(t)),
{
    match types {
        None => true,
        Some(ts) => match t {
            None => false,
            Some(ty) => {
                let ghost tt = type_texts(ts@);
                let mut i: usize = 0;
                while i < ts.len()
                    invariant
                        i <= ts@.len(),
                        tt == type_texts(ts@),
                        types == Some(ts),
                        t == Some(ty),
                        forall|j: int| 0 <= j < i ==> tt[j] != text(ty@),
                    decreases ts@.len() - i,
                {
                    assert(tt[i as int] == text(ts@[i as int]@));
                    if str_eq(ts[i], ty) {
                        assert(tt[i as int] == text(ty@));
                        assert(tt.contains(text(ty@)));
                        return true;
                    }
                    i += 1;
                }
                false
            },
        },
    }
}

/// A list of type names as a filter: the empty list is no filter.
fn list_filter<'a>(types: &'a [&'a str]) -> (r: Option<&'a [&'a str]>)
    ensures
        opt_type_texts(r) == as_filter(type_texts(types@)),
{
    if types.len() == 0 {
        None
    } else {
        Some(types)
    }
}

/// Whether a node record matches a query.
fn record_matches(q: &AttrQuery, n: &NodeRecord) -> (r: bool)
    ensures
        r == node_matches(q@, n@),
{
    let version_ok = match &q.version {
        Some(v) => str_eq(v.as_str(), n.version.as_str()),
        None => true,
    };
    let file_id_ok = match q.file_id {
        Some(f) => n.file_id == f,
        None => true,
    };
    let exported_ok = match q.exported {
        Some(e) => n.exported == e,
        None => true,
    };
    version_ok && type_ok(&q.node_type, as_str_opt(&n.node_type)) && file_id_ok && text_ok(
        &q.file,
        as_str_opt(&n.file),
    ) && exported_ok && text_ok(&q.name, as_str_opt(&n.name))
}

/// Whether node `idx` of a segment matches a query.
fn row_matches(q: &AttrQuery, segment: &NodesSegment, idx: usize) -> (r: bool)
    requires
        idx < segment.count(),
    ensures
        r == node_matches(q@, node_rows(Some(segment.bytes()))[idx as int]),
{
    if !type_ok(&q.node_type, segment.get_node_type(idx)) {
        return false;
    }
    let file_id_ok = match q.file_id {
        Some(f) => segment.get_file_id(idx).unwrap() == f,
        None => true,
    };
    if !file_id_ok {
        return false;
    }
    if !text_ok(&q.file, segment.get_file_path(idx)) {
        return false;
    }
    if !text_ok(&q.name, segment.get_name(idx)) {
        return false;
    }
    let version_ok = match &q.version {
        Some(v) => match segment.get_version(idx) {
            Some(sv) => str_eq(v.as_str(), sv),
            None => str_eq(v.as_str(), "main"),
        },
        None => true,
    };
    if !version_ok {
        return false;
    }
    match q.exported {
        Some(e) => segment.get_exported(idx).unwrap() == e,
        None => true,
    }
}

/// The string, unless it is there and empty.
fn nonempty(o: Option<String>) -> (r: Option<String>)
    ensures
        opt_text(r) == unless_empty(opt_text(o)),
{
    match o {
        Some(s) => if s.as_str().as_bytes().len() == 0 {
            None
        } else {
            Some(s)
        },
        None => None,
    }
}

/// Whether the node is an endpoint.
fn record_is_endpoint(n: &NodeRecord) -> (r: bool)
    ensures
        r == endpoint_node(n@),
{
    let t: &str = match &n.node_type {
        Some(t) => t.as_str(),
        None => "UNKNOWN",
    };
    if str_eq(t, "db:query") || str_eq(t, "http:request") || str_eq(t, "http:endpoint") || str_eq(
        t,
        "EXTERNAL",
    ) || str_eq(t, "fs:operation") || str_eq(t, "SIDE_EFFECT") {
        return true;
    }
    str_eq(t, "FUNCTION") && n.exported
}

/// The readable identifier of a node.
fn record_identifier(n: &NodeRecord) -> (r: String)
    ensures
        text(r@) == identifier_of(n@),
{
    let t: &str = match &n.node_type {
        Some(t) => t.as_str(),
        None => "UNKNOWN",
    };
    let name: &str = match &n.name {
        Some(s) => s.as_str(),
        None => "",
    };
    let file: &str = match &n.file {
        Some(s) => s.as_str(),
        None => "",
    };
    proof {
        reveal_strlit("");
        assert(text(""@) =~= Seq::<u8>::empty());
    }
    let has_name = name.as_bytes().len() > 0;
    let has_file = file.as_bytes().len() > 0;
    let mut out = String::new();
    assert(text(out@) =~= Seq::<u8>::empty());
    push_text(&mut out, t);
    push_text(&mut out, ":");
    assert(text(out@) =~= counted_type(n@.node_type) + text(":"@));
    if has_name && has_file {
        push_text(&mut out, name);
        push_text(&mut out, "@");
        push_text(&mut out, file);
    } else if has_file {
        push_text(&mut out, file);
    } else if has_name {
        push_text(&mut out, name);
    } else {
        let d = id_to_decimal(n.id);
        push_text(&mut out, d.as_str());
    }
    out
}

/// Adds an index to the list of a key.
fn push_index(map: &mut HashMap<u128, Vec<usize>>, key: u128, idx: usize)
    ensures
        forall|id: u128| #[trigger]
            list_of(final(map)@, id) == if id == key {
                list_of(old(map)@, id).push(idx)
            } else {
                list_of(old(map)@, id)
            },
{
    let mut list: Vec<usize> = match map.remove(&key) {
        Some(l) => l,
        None => Vec::new(),
    };
    list.push(idx);
    map.insert(key, list);
}

/// The adjacency maps of a segment's edges: every edge that is not
/// tombstoned is listed under its source and under its target.
fn build_adjacency(segment: &Option<EdgesSegment>) -> (r: (
    HashMap<u128, Vec<usize>>,
    HashMap<u128, Vec<usize>>,
))
    ensures
        ({
            let rows = edge_rows(image_of_edges(*segment));
            &&& rows.len() <= usize::MAX
            &&& forall|id: u128| #[trigger]
                list_of(r.0@, id) == index_list(
                    rows,
                    rows.len() as int,
                    true,
                    id,
                    rows.len() as int,
                )
            &&& forall|id: u128| #[trigger]
                list_of(r.1@, id) == index_list(
                    rows,
                    rows.len() as int,
                    false,
                    id,
                    rows.len() as int,
                )
        }),
{
    let mut adjacency: HashMap<u128, Vec<usize>> = HashMap::new();
    let mut reverse: HashMap<u128, Vec<usize>> = HashMap::new();
    let ghost rows = edge_rows(image_of_edges(*segment));
    match segment {
        Some(seg) => {
            let n: usize = seg.edge_count();
            let mut idx: usize = 0;
            while idx < n
                invariant
                    idx <= n,
                    n == seg.count(),
                    rows == edge_rows(Some(seg.bytes())),
                    rows.len() == n,
                    forall|id: u128| #[trigger]
                        list_of(adjacency@, id) == index_list(rows, n as int, true, id, idx as int),
                    forall|id: u128| #[trigger]
                        list_of(reverse@, id) == index_list(rows, n as int, false, id, idx as int),
                decreases n - idx,
            {
                if !seg.is_deleted(idx) {
                    let src = seg.get_src(idx).unwrap();
                    let dst = seg.get_dst(idx).unwrap();
                    push_index(&mut adjacency, src, idx);
                    push_index(&mut reverse, dst, idx);
                }
                proof {
                    assert(rows[idx as int].src == edge_src(seg.bytes(), idx as int));
                    assert(rows[idx as int].dst == edge_dst(seg.bytes(), idx as int));
                    assert(rows[idx as int].deleted == edge_deleted(seg.bytes(), idx as int));
                }
                idx += 1;
            }
        },
        None => {},
    }
    (adjacency, reverse)
}

/// The image of a nodes segment, if there is one.
pub open spec fn image_of_nodes(s: Option<NodesSegment>) -> Option<Seq<u8>> {
    match s {
        Some(s) => Some(s.bytes()),
        None => None,
    }
}

/// The image of an edges segment, if there is one.
pub open spec fn image_of_edges(s: Option<EdgesSegment>) -> Option<Seq<u8>> {
    match s {
        Some(s) => Some(s.bytes()),
        None => None,
    }
}

/// The first node of an id in a nodes image is the first row of that id.
pub proof fn lemma_first_index_is_position(b: Seq<u8>, id: u128, n: int)
    requires
        0 <= n <= stored_node_count(b),
    ensures
        first_index_of(b, id, n) == position_of(node_rows(Some(b)), id, n),
    decreases n,
{
    if n > 0 {
        lemma_first_index_is_position(b, id, n - 1);
        assert(node_rows(Some(b))[n - 1].id == node_id(b, n - 1));
    }
}

/// What a flush notes in the metadata: the numbers of nodes and edges
/// that were written. Version and time of creation stay as they were.
pub open spec fn counts_kept(before: GraphMetadata, after: GraphMetadata, g: GraphModel) -> bool {
    &&& after.node_count == g.flush_nodes().len()
    &&& after.edge_count == g.flush_edges().len()
    &&& after.version == before.version
    &&& after.created_at == before.created_at
}

/// What a flush hands back: the images of the two segments, to be written
/// as `nodes.bin` and `edges.bin` in the directory of the database.
#[derive(Debug)]
pub struct Snapshot {
    pub nodes: Vec<u8>,
    pub edges: Vec<u8>,
}

/// An operation count at which a flush is due. It is the largest number:
/// the count alone never asks for a flush.
pub const AUTO_FLUSH_THRESHOLD: usize = usize::MAX;

/// The share of memory in use, in percent, from which a flush is due.
pub const MEMORY_THRESHOLD_PERCENT: u64 = 80;

/// The least number of seconds between two looks at the memory.
pub const MEMORY_CHECK_INTERVAL_SECS: u64 = 5;

/// What the auto-flush policy asks of the caller.
#[derive(Debug, Clone, Copy, PartialEq, Eq, Structural)]
pub enum AutoFlush {
    /// Flush now: the operation count has reached its threshold.
    Flush,
    /// Look at the memory, and flush if `memory_asks_flush` says so.
    ProbeMemory,
    /// Nothing is due.
    Nothing,
}

/// Whether memory use asks for a flush: at least 80 percent of a known
/// total is in use.
pub fn memory_asks_flush(used: u64, total: u64) -> (r: bool)
    ensures
        r == (total > 0 && used * 100 >= MEMORY_THRESHOLD_PERCENT * total),
{
    total > 0 && (used as u128) * 100 >= 80u128 * (total as u128)
}

/// The graph engine.
pub struct GraphEngine {
    path: String,
    nodes_segment: Option<NodesSegment>,
    edges_segment: Option<EdgesSegment>,
    delta_log: DeltaLog,
    /// The delta's nodes in the order in which their ids first came.
    delta_nodes: Vec<NodeRecord>,
    /// Where in `delta_nodes` the node of each id stands.
    delta_index: HashMap<u128, usize>,
    delta_edges: Vec<EdgeRecord>,
    adjacency: HashMap<u128, Vec<usize>>,
    reverse_adjacency: HashMap<u128, Vec<usize>>,
    metadata: GraphMetadata,
    /// The number of nodes and edges added since the last flush.
    pub ops_since_flush: usize,
    last_memory_check: Option<u64>,
    deleted_segment_ids: HashSet<u128>,
}

impl View for GraphEngine {
    type V = GraphModel;

    closed spec fn view(&self) -> GraphModel {
        GraphModel {
            seg_nodes: image_of_nodes(self.nodes_segment),
            seg_edges: image_of_edges(self.edges_segment),
            delta_nodes: node_models(self.delta_nodes@),
            delta_edges: edge_models(self.delta_edges@),
            deleted_segment_ids: self.deleted_segment_ids@,
        }
    }
}

impl GraphEngine {
    /// The invariant of an engine: the delta holds one node an id, there
    /// is an index for every edge, and the adjacency lists are those of
    /// the edges that the engine holds.
    pub closed spec fn wf(&self) -> bool {
        let g = self@;
        &&& forall|id: u128| #[trigger]
            self.delta_index@.contains_key(id) ==> self.delta_index@[id] < self.delta_nodes@.len()
                && self.delta_nodes@[self.delta_index@[id] as int].id == id
        &&& forall|i: int|
            0 <= i < self.delta_nodes@.len() ==> self.delta_index@.contains_key(
                (#[trigger] self.delta_nodes@[i]).id,
            ) && self.delta_index@[self.delta_nodes@[i].id] == i
        &&& g.all_edges().len() <= usize::MAX
        &&& forall|id: u128| #[trigger]
            list_of(self.adjacency@, id) == g.adjacency_list(true, id)
        &&& forall|id: u128| #[trigger]
            list_of(self.reverse_adjacency@, id) == g.adjacency_list(false, id)
    }

    /// The adjacency list that the engine keeps for an id: forward by
    /// source, reverse by target.
    pub closed spec fn adjacency_of(&self, forward: bool, id: u128) -> Seq<usize> {
        if forward {
            list_of(self.adjacency@, id)
        } else {
            list_of(self.reverse_adjacency@, id)
        }
    }

    /// The adjacency lists that a well-formed engine keeps are those of the
    /// edges that it holds: the list of an id holds, in rising order, the
    /// index of every segment edge at that id that is not tombstoned in the
    /// image, and of every delta edge at that id.
    pub proof fn lemma_adjacency_consistent(&self, forward: bool, id: u128)
        requires
            self.wf(),
        ensures
            self.adjacency_of(forward, id) == self@.adjacency_list(forward, id),
    {
        if forward {
            assert(list_of(self.adjacency@, id) == self@.adjacency_list(true, id));
        } else {
            assert(list_of(self.reverse_adjacency@, id) == self@.adjacency_list(false, id));
        }
    }

    /// The mutations since the last flush, oldest first.
    pub closed spec fn log(&self) -> Seq<DeltaModel> {
        self.delta_log@.map_values(|d: Delta| d@)
    }

    /// The number of nodes and edges added since the last flush.
    pub closed spec fn ops(&self) -> usize {
        self.ops_since_flush
    }

    /// The directory of the database.
    pub closed spec fn spec_path(&self) -> Seq<u8> {
        text(self.path@)
    }

    /// What `metadata.json` is to record.
    pub closed spec fn spec_metadata(&self) -> GraphMetadata {
        self.metadata
    }

    /// In a well-formed engine the delta holds one node an id.
    pub proof fn lemma_distinct(&self)
        requires
            self.wf(),
        ensures
            crate::graph::model::distinct_ids(self@.delta_nodes),
    {
        let nodes = self@.delta_nodes;
        assert forall|i: int, j: int|
            0 <= i < nodes.len() && 0 <= j < nodes.len() && nodes[i].id == nodes[j].id implies i
            == j by {
            assert(self.delta_nodes@[i].id == nodes[i].id);
            assert(self.delta_nodes@[j].id == nodes[j].id);
        }
    }

    /// An engine stays well formed when its delta changes in this way
    /// only: each node keeps its id, and each edge keeps its ends.
    proof fn lemma_same_ends(&self, before: Self)
        requires
            before.wf(),
            self.nodes_segment == before.nodes_segment,
            self.edges_segment == before.edges_segment,
            self.delta_index == before.delta_index,
            self.adjacency == before.adjacency,
            self.reverse_adjacency == before.reverse_adjacency,
            self.delta_nodes@.len() == before.delta_nodes@.len(),
            forall|j: int|
                0 <= j < self.delta_nodes@.len() ==> (#[trigger] self.delta_nodes@[j]).id
                    == before.delta_nodes@[j].id,
            self.delta_edges@.len() == before.delta_edges@.len(),
            forall|j: int|
                0 <= j < self.delta_edges@.len() ==> (#[trigger] self.delta_edges@[j]).src
                    == before.delta_edges@[j].src && self.delta_edges@[j].dst
                    == before.delta_edges@[j].dst,
        ensures
            self.wf(),
    {
        let g = before@;
        let a = g.all_edges();
        let b = self@.all_edges();
        let seg = g.seg_edge_rows().len() as int;
        assert forall|k: int| 0 <= k < a.len() implies endpoint(#[trigger] b[k], true) == endpoint(
            a[k],
            true,
        ) && endpoint(b[k], false) == endpoint(a[k], false) && (k < seg ==> b[k].deleted
            == a[k].deleted) by {
            if k >= seg {
                assert(b[k] == self.delta_edges@[k - seg]@);
                assert(a[k] == before.delta_edges@[k - seg]@);
            }
        }
        assert forall|id: u128| #[trigger]
            list_of(self.adjacency@, id) == self@.adjacency_list(true, id) by {
            lemma_index_list_same(b, a, seg, true, id, a.len() as int);
            assert(list_of(before.adjacency@, id) == g.adjacency_list(true, id));
        }
        assert forall|id: u128| #[trigger]
            list_of(self.reverse_adjacency@, id) == self@.adjacency_list(false, id) by {
            lemma_index_list_same(b, a, seg, false, id, a.len() as int);
            assert(list_of(before.reverse_adjacency@, id) == g.adjacency_list(false, id));
        }
        assert forall|id: u128| #[trigger]
            self.delta_index@.contains_key(id) implies self.delta_index@[id]
            < self.delta_nodes@.len() && self.delta_nodes@[self.delta_index@[id] as int].id == id by {
            let k = before.delta_index@[id] as int;
            assert(self.delta_nodes@[k].id == before.delta_nodes@[k].id);
        }
        assert forall|j: int| 0 <= j < self.delta_nodes@.len() implies self.delta_index@.contains_key(
            (#[trigger] self.delta_nodes@[j]).id,
        ) && self.delta_index@[self.delta_nodes@[j].id] == j by {
            assert(before.delta_index@.contains_key(before.delta_nodes@[j].id));
        }
    }

    /// An engine over nothing, for the database that belongs to `path`.
    /// Nothing is created on disk.
    pub fn create(path: &str) -> (r: Result<Self, GraphError>)
        ensures
            r matches Ok(e) && e.wf() && e@ == empty_graph() && e.log().len() == 0
                && e.ops() == 0 && e.spec_path() == spec_normalize(text(path@)),
    {
        let e = GraphEngine {
            path: normalize_db_path(path),
            nodes_segment: None,
            edges_segment: None,
            delta_log: DeltaLog::new(),
            delta_nodes: Vec::new(),
            delta_index: HashMap::new(),
            delta_edges: Vec::new(),
            adjacency: HashMap::new(),
            reverse_adjacency: HashMap::new(),
            metadata: GraphMetadata::default(),
            ops_since_flush: 0,
            last_memory_check: None,
            deleted_segment_ids: HashSet::new(),
        };
        proof {
            assert(e@.delta_nodes =~= Seq::<NodeModel>::empty());
            assert(e@.delta_edges =~= Seq::<EdgeModel>::empty());
            assert(e@.all_edges() =~= Seq::<EdgeModel>::empty());
            assert(e.log() =~= Seq::<DeltaModel>::empty());
        }
        Ok(e)
    }

    /// An engine over the segments whose images are given, for the
    /// database that belongs to `path`. An image that is missing stands
    /// for a segment that does not exist yet. Fails with `InvalidFormat`
    /// exactly when an image that is given is no image of its kind.
    pub fn open(path: &str, nodes: Option<Vec<u8>>, edges: Option<Vec<u8>>) -> (r: Result<
        Self,
        GraphError,
    >)
        ensures
            r.is_ok() == ((nodes matches Some(b) ==> crate::storage::segment::nodes_image_ok(b@))
                && (edges matches Some(b) ==> crate::storage::segment::edges_image_ok(b@))),
            r matches Ok(e) ==> e.wf() && e.log().len() == 0 && e.ops() == 0
                && e.spec_path() == spec_normalize(text(path@)) && e@ == (GraphModel {
                seg_nodes: match nodes {
                    Some(b) => Some(b@),
                    None => None,
                },
                seg_edges: match edges {
                    Some(b) => Some(b@),
                    None => None,
                },
                ..empty_graph()
            }),
            r matches Err(e) ==> e is InvalidFormat,
    {
        let nodes_segment = match nodes {
            Some(b) => match NodesSegment::open(b) {
                Ok(s) => Some(s),
                Err(e) => {
                    return Err(e);
                },
            },
            None => None,
        };
        let edges_segment = match edges {
            Some(b) => match EdgesSegment::open(b) {
                Ok(s) => Some(s),
                Err(e) => {
                    return Err(e);
                },
            },
            None => None,
        };
        let (adjacency, reverse_adjacency) = build_adjacency(&edges_segment);
        let e = GraphEngine {
            path: normalize_db_path(path),
            nodes_segment,
            edges_segment,
            delta_log: DeltaLog::new(),
            delta_nodes: Vec::new(),
            delta_index: HashMap::new(),
            delta_edges: Vec::new(),
            adjacency,
            reverse_adjacency,
            metadata: GraphMetadata::default(),
            ops_since_flush: 0,
            last_memory_check: None,
            deleted_segment_ids: HashSet::new(),
        };
        proof {
            assert(e@.delta_nodes =~= Seq::<NodeModel>::empty());
            assert(e@.delta_edges =~= Seq::<EdgeModel>::empty());
            assert(e@.all_edges() =~= e@.seg_edge_rows());
            assert(e.log() =~= Seq::<DeltaModel>::empty());
        }
        Ok(e)
    }

    /// The directory of the database.
    pub fn path(&self) -> (r: &str)
        ensures
            text(r@) == self.spec_path(),
    {
        self.path.as_str()
    }

    /// What `metadata.json` is to record.
    pub fn metadata(&self) -> (r: &GraphMetadata)
        ensures
            *r == self.spec_metadata(),
    {
        &self.metadata
    }

    /// The number of nodes in the segment, tombstoned ones included.
    fn seg_node_count(&self) -> (r: usize)
        ensures
            r == self@.seg_node_rows().len(),
    {
        match &self.nodes_segment {
            Some(s) => s.node_count(),
            None => 0,
        }
    }

    /// The number of edges in the segment, tombstoned ones included.
    fn seg_edge_count(&self) -> (r: usize)
        ensures
            r == self@.seg_edge_rows().len(),
    {
        match &self.edges_segment {
            Some(s) => s.edge_count(),
            None => 0,
        }
    }

    /// Where the delta holds the node of `id`.
    fn delta_position(&self, id: u128) -> (r: Option<usize>)
        requires
            self.wf(),
        ensures
            r matches Some(i) ==> position_of(
                self@.delta_nodes,
                id,
                self@.delta_nodes.len() as int,
            ) == Some(i as int) && i < self.delta_nodes@.len() && self.delta_nodes@[i as int].id
                == id,
            r.is_none() ==> position_of(self@.delta_nodes, id, self@.delta_nodes.len() as int)
                .is_none(),
    {
        proof {
            lemma_position_of(self@.delta_nodes, id, self@.delta_nodes.len() as int);
            self.lemma_distinct();
        }
        match self.delta_index.get(&id) {
            Some(i) => {
                proof {
                    assert(self.delta_nodes@[*i as int].id == id);
                    assert(self@.delta_nodes[*i as int].id == id);
                }
                Some(*i)
            },
            None => {
                proof {
                    assert forall|j: int| 0 <= j < self@.delta_nodes.len() implies self@.delta_nodes[j].id
                        != id by {
                        assert(self.delta_index@.contains_key(self.delta_nodes@[j].id));
                    }
                }
                None
            },
        }
    }

    /// The number of nodes held: those of the segment and those of the
    /// delta, tombstoned and shadowed ones included; the largest number
    /// that fits where the sum does not.
    pub fn node_count(&self) -> (r: usize)
        ensures
            r == if self@.seg_node_rows().len() + self@.delta_nodes.len() <= usize::MAX {
                (self@.seg_node_rows().len() + self@.delta_nodes.len()) as usize
            } else {
                usize::MAX
            },
    {
        let a = self.seg_node_count();
        let b = self.delta_nodes.len();
        if a > usize::MAX - b {
            usize::MAX
        } else {
            a + b
        }
    }

    /// The number of edges held: those of the segment and those of the
    /// delta, tombstoned ones included.
    pub fn edge_count(&self) -> (r: usize)
        requires
            self.wf(),
        ensures
            r == self@.all_edges().len(),
    {
        self.seg_edge_count() + self.delta_edges.len()
    }

    /// Puts one node into the delta.
    fn apply_add_node(&mut self, node: NodeRecord)
        requires
            old(self).wf(),
        ensures
            final(self).wf(),
            final(self)@ == (GraphModel {
                delta_nodes: upsert(old(self)@.delta_nodes, node@),
                ..old(self)@
            }),
            final(self).log() == old(self).log(),
            final(self).ops() == old(self).ops(),
            final(self).spec_path() == old(self).spec_path(),
    {
        let ghost g = self@;
        match self.delta_position(node.id) {
            Some(i) => {
                self.delta_nodes[i] = node;
                proof {
                    assert(self@.delta_nodes =~= g.delta_nodes.update(i as int, node@));
                    assert(self@.all_edges() == g.all_edges());
                    assert(g.delta_nodes[i as int].id == node.id);
                    assert(old(self).delta_nodes@[i as int].id == node.id);
                    assert forall|j: int| 0 <= j < self.delta_nodes@.len() implies (
                    #[trigger] self.delta_nodes@[j]).id == old(self).delta_nodes@[j].id by {}
                    assert forall|id: u128| #[trigger]
                        self.delta_index@.contains_key(id) implies self.delta_index@[id]
                        < self.delta_nodes@.len() && self.delta_nodes@[self.delta_index@[id] as int].id
                        == id by {
                        let k = old(self).delta_index@[id] as int;
                        assert(self.delta_nodes@[k].id == old(self).delta_nodes@[k].id);
                    }
                    assert forall|j: int| 0 <= j < self.delta_nodes@.len() implies self.delta_index@.contains_key(
                        (#[trigger] self.delta_nodes@[j]).id,
                    ) && self.delta_index@[self.delta_nodes@[j].id] == j by {
                        assert(old(self).delta_index@.contains_key(old(self).delta_nodes@[j].id));
                    }
                }
            },
            None => {
                let i: usize = self.delta_nodes.len();
                self.delta_index.insert(node.id, i);
                self.delta_nodes.push(node);
                proof {
                    assert(self@.delta_nodes =~= g.delta_nodes.push(node@));
                    assert(self@.all_edges() == g.all_edges());
                    lemma_position_of(g.delta_nodes, node.id, g.delta_nodes.len() as int);
                    assert forall|id: u128| #[trigger]
                        self.delta_index@.contains_key(id) implies self.delta_index@[id]
                        < self.delta_nodes@.len() && self.delta_nodes@[self.delta_index@[id] as int].id
                        == id by {
                        if id != node.id {
                            let k = old(self).delta_index@[id] as int;
                            assert(self.delta_nodes@[k] == old(self).delta_nodes@[k]);
                        }
                    }
                    assert forall|j: int| 0 <= j < self.delta_nodes@.len() implies self.delta_index@.contains_key(
                        (#[trigger] self.delta_nodes@[j]).id,
                    ) && self.delta_index@[self.delta_nodes@[j].id] == j by {
                        if j < i {
                            assert(old(self).delta_nodes@[j] == self.delta_nodes@[j]);
                            assert(g.delta_nodes[j].id == self.delta_nodes@[j].id);
                        }
                    }
                }
            },
        }
    }

    /// Adds nodes to the delta, in order. A node whose id the delta
    /// already holds takes the place of the one before it. Each node is
    /// logged and counted as one operation.
    pub fn add_nodes(&mut self, nodes: Vec<NodeRecord>)
        requires
            old(self).wf(),
        ensures
            final(self).wf(),
            final(self)@ == (GraphModel {
                delta_nodes: upsert_all(
                    old(self)@.delta_nodes,
                    node_models(nodes@),
                    nodes@.len() as int,
                ),
                ..old(self)@
            }),
            final(self).log() == old(self).log() + node_models(nodes@).map_values(
                |n: NodeModel| DeltaModel::AddNode(n),
            ),
            final(self).ops() == if old(self).ops() + nodes@.len() <= usize::MAX {
                (old(self).ops() + nodes@.len()) as usize
            } else {
                usize::MAX
            },
            final(self).spec_path() == old(self).spec_path(),
    {
        let ghost ms = node_models(nodes@);
        let n: usize = nodes.len();
        let mut i: usize = 0;
        proof {
            assert(self.log() =~= old(self).log() + ms.subrange(0, 0).map_values(
                |n: NodeModel| DeltaModel::AddNode(n),
            ));
        }
        while i < n
            invariant
                i <= n,
                n == nodes@.len(),
                ms == node_models(nodes@),
                self.wf(),
                self@ == (GraphModel {
                    delta_nodes: upsert_all(old(self)@.delta_nodes, ms, i as int),
                    ..old(self)@
                }),
                self.log() == old(self).log() + ms.subrange(0, i as int).map_values(
                    |n: NodeModel| DeltaModel::AddNode(n),
                ),
                self.ops() == old(self).ops(),
                self.spec_path() == old(self).spec_path(),
            decreases n - i,
        {
            let node = nodes[i].clone();
            let ghost before = self.log();
            self.delta_log.push(Delta::AddNode(node.clone()));
            self.apply_add_node(node);
            proof {
                assert(ms[i as int] == nodes@[i as int]@);
                assert(self.log() =~= before.push(DeltaModel::AddNode(ms[i as int])));
                assert(ms.subrange(0, i + 1) =~= ms.subrange(0, i as int).push(ms[i as int]));
                assert(self.log() =~= old(self).log() + ms.subrange(0, i + 1).map_values(
                    |n: NodeModel| DeltaModel::AddNode(n),
                ));
            }
            i += 1;
        }
        assert(ms.subrange(0, n as int) =~= ms);
        self.ops_since_flush = if self.ops_since_flush > usize::MAX - n {
            usize::MAX
        } else {
            self.ops_since_flush + n
        };
    }

    /// Deletes a node: a node of the delta gets its tombstone; any other
    /// id is remembered as deleted from the segment until the next flush.
    pub fn delete_node(&mut self, id: u128)
        requires
            old(self).wf(),
        ensures
            final(self).wf(),
            final(self)@ == with_node_deleted(old(self)@, id),
            final(self).log() == old(self).log().push(DeltaModel::DeleteNode { id }),
            final(self).ops() == old(self).ops(),
            final(self).spec_path() == old(self).spec_path(),
    {
        let ghost g = self@;
        let ghost before = self.log();
        self.delta_log.push(Delta::DeleteNode { id });
        assert(self.log() =~= before.push(DeltaModel::DeleteNode { id }));
        match self.delta_position(id) {
            Some(i) => {
                self.delta_nodes[i].deleted = true;
                proof {
                    assert(self@.delta_nodes =~= g.delta_nodes.update(
                        i as int,
                        NodeModel { deleted: true, ..g.delta_nodes[i as int] },
                    ));
                    assert(self@.all_edges() == g.all_edges());
                }
            },
            None => {
                self.deleted_segment_ids.insert(id);
                proof {
                    assert(self@.all_edges() == g.all_edges());
                }
            },
        }
    }

    /// Gives the delta's node of `id` a new version; a node that only the
    /// segment holds stays as it is.
    pub fn update_node_version(&mut self, id: u128, version: &str)
        requires
            old(self).wf(),
        ensures
            final(self).wf(),
            final(self)@ == with_version(old(self)@, id, text(version@)),
            final(self).log() == old(self).log().push(
                DeltaModel::UpdateNodeVersion { id, version: text(version@) },
            ),
            final(self).ops() == old(self).ops(),
            final(self).spec_path() == old(self).spec_path(),
    {
        let ghost g = self@;
        let ghost before = self.log();
        self.delta_log.push(Delta::UpdateNodeVersion { id, version: version.to_owned() });
        assert(self.log() =~= before.push(
            DeltaModel::UpdateNodeVersion { id, version: text(version@) },
        ));
        match self.delta_position(id) {
            Some(i) => {
                self.delta_nodes[i].version = version.to_owned();
                proof {
                    assert(self@.delta_nodes =~= g.delta_nodes.update(
                        i as int,
                        NodeModel { version: text(version@), ..g.delta_nodes[i as int] },
                    ));
                    assert(self@.all_edges() == g.all_edges());
                }
            },
            None => {},
        }
    }

    /// Whether reads see a node of this id.
    pub fn node_exists(&self, id: u128) -> (r: bool)
        requires
            self.wf(),
        ensures
            r == self@.get_node(id).is_some(),
    {
        match self.delta_position(id) {
            Some(i) => {
                assert(self@.delta_nodes[i as int] == self.delta_nodes@[i as int]@);
                !self.delta_nodes[i].deleted
            },
            None => {
                if self.deleted_segment_ids.contains(&id) {
                    return false;
                }
                match &self.nodes_segment {
                    Some(segment) => {
                        let n = segment.node_count();
                        proof {
                            lemma_first_index_is_position(segment.bytes(), id, n as int);
                            lemma_position_of(
                                node_rows(Some(segment.bytes())),
                                id,
                                n as int,
                            );
                        }
                        match segment.find_index(id) {
                            Some(idx) => !segment.is_deleted(idx),
                            None => false,
                        }
                    },
                    None => false,
                }
            },
        }
    }

    /// The node of this id that reads see: the delta's, unless it is
    /// tombstoned; else, unless the id was deleted since the last flush,
    /// the segment's first node of this id, unless it is tombstoned.
    pub fn get_node(&self, id: u128) -> (r: Option<NodeRecord>)
        requires
            self.wf(),
        ensures
            r.is_some() == self@.get_node(id).is_some(),
            r matches Some(n) ==> Some(n@) == self@.get_node(id),
    {
        match self.delta_position(id) {
            Some(i) => {
                if self.delta_nodes[i].deleted {
                    None
                } else {
                    Some(self.delta_nodes[i].clone())
                }
            },
            None => {
                if self.deleted_segment_ids.contains(&id) {
                    return None;
                }
                match &self.nodes_segment {
                    Some(segment) => {
                        let n = segment.node_count();
                        proof {
                            lemma_first_index_is_position(segment.bytes(), id, n as int);
                            lemma_position_of(
                                node_rows(Some(segment.bytes())),
                                id,
                                n as int,
                            );
                        }
                        match segment.find_index(id) {
                            Some(idx) => {
                                if segment.is_deleted(idx) {
                                    None
                                } else {
                                    Some(segment.node_at(idx))
                                }
                            },
                            None => None,
                        }
                    },
                    None => None,
                }
            },
        }
    }

    /// Puts one edge into the delta and into the adjacency lists.
    fn apply_add_edge(&mut self, edge: EdgeRecord)
        requires
            old(self).wf(),
            old(self)@.all_edges().len() < usize::MAX,
        ensures
            final(self).wf(),
            final(self)@ == (GraphModel {
                delta_edges: old(self)@.delta_edges.push(edge@),
                ..old(self)@
            }),
            final(self).log() == old(self).log(),
            final(self).ops() == old(self).ops(),
            final(self).spec_path() == old(self).spec_path(),
    {
        let ghost g = self@;
        let seg: usize = self.seg_edge_count();
        let global_idx: usize = seg + self.delta_edges.len();
        let src = edge.src;
        let dst = edge.dst;
        let ghost e = edge@;
        self.delta_edges.push(edge);
        push_index(&mut self.adjacency, src, global_idx);
        push_index(&mut self.reverse_adjacency, dst, global_idx);
        proof {
            assert(self@.delta_edges =~= g.delta_edges.push(e));
            let a = g.all_edges();
            let b = self@.all_edges();
            assert(b =~= a.push(e));
            assert forall|id: u128| #[trigger]
                list_of(self.adjacency@, id) == self@.adjacency_list(true, id) by {
                lemma_index_list_same(b, a, seg as int, true, id, a.len() as int);
                assert(list_of(old(self).adjacency@, id) == g.adjacency_list(true, id));
            }
            assert forall|id: u128| #[trigger]
                list_of(self.reverse_adjacency@, id) == self@.adjacency_list(false, id) by {
                lemma_index_list_same(b, a, seg as int, false, id, a.len() as int);
                assert(list_of(old(self).reverse_adjacency@, id) == g.adjacency_list(false, id));
            }
        }
    }

    /// Adds edges to the delta, in order. Unless validation is skipped, an
    /// edge one of whose ends reads do not see is dropped. Each edge that
    /// is taken is logged and counted as one operation.
    pub fn add_edges(&mut self, edges: Vec<EdgeRecord>, skip_validation: bool)
        requires
            old(self).wf(),
        ensures
            final(self).wf(),
            final(self)@ == with_edges(
                old(self)@,
                edge_models(edges@),
                skip_validation,
                edges@.len() as int,
            ),
            final(self).ops() == {
                let added = final(self)@.delta_edges.len() - old(self)@.delta_edges.len();
                if old(self).ops() + added <= usize::MAX {
                    (old(self).ops() + added) as usize
                } else {
                    usize::MAX
                }
            },
            old(self)@.delta_edges.len() <= final(self)@.delta_edges.len(),
            final(self).log() == old(self).log() + edges_logged(
                final(self)@.delta_edges.subrange(
                    old(self)@.delta_edges.len() as int,
                    final(self)@.delta_edges.len() as int,
                ),
            ),
            final(self).spec_path() == old(self).spec_path(),
    {
        let ghost ms = edge_models(edges@);
        let ghost m0 = self@.delta_edges.len() as int;
        let n: usize = edges.len();
        let mut added: usize = 0;
        let mut i: usize = 0;
        proof {
            assert(edges_logged(self@.delta_edges.subrange(m0, m0)) =~= Seq::<DeltaModel>::empty());
            assert(self.log() =~= old(self).log() + Seq::<DeltaModel>::empty());
        }
        while i < n
            invariant
                i <= n,
                n == edges@.len(),
                ms == edge_models(edges@),
                m0 == old(self)@.delta_edges.len(),
                self.wf(),
                self@ == with_edges(old(self)@, ms, skip_validation, i as int),
                added == self@.delta_edges.len() - m0,
                added <= i,
                self.log() == old(self).log() + edges_logged(
                    self@.delta_edges.subrange(m0, self@.delta_edges.len() as int),
                ),
                self.ops() == old(self).ops(),
                self.spec_path() == old(self).spec_path(),
            decreases n - i,
        {
            let edge = &edges[i];
            assert(ms[i as int] == edge@);
            let ends_ok = skip_validation || (self.node_exists(edge.src) && self.node_exists(
                edge.dst,
            ));
            let room = self.edge_count() < usize::MAX;
            if ends_ok && room {
                let ghost before = self.log();
                let ghost held = self@.delta_edges;
                self.delta_log.push(Delta::AddEdge(edge.clone()));
                assert(self.log() =~= before.push(DeltaModel::AddEdge(edge@)));
                self.apply_add_edge(edge.clone());
                added += 1;
                proof {
                    let taken = held.subrange(m0, held.len() as int);
                    assert(self@.delta_edges.subrange(m0, held.len() as int + 1) =~= taken.push(
                        edge@,
                    ));
                    assert(edges_logged(taken.push(edge@)) =~= edges_logged(taken).push(
                        DeltaModel::AddEdge(edge@),
                    ));
                    assert(self.log() =~= old(self).log() + edges_logged(taken.push(edge@)));
                }
            }
            i += 1;
        }
        self.ops_since_flush = if self.ops_since_flush > usize::MAX - added {
            usize::MAX
        } else {
            self.ops_since_flush + added
        };
    }

    /// Deletes edges: every edge of the delta with this source, target and
    /// type gets its tombstone. Edges of the segment stay as they are.
    pub fn delete_edge(&mut self, src: u128, dst: u128, edge_type: &str)
        requires
            old(self).wf(),
        ensures
            final(self).wf(),
            final(self)@ == (GraphModel {
                delta_edges: with_edge_deleted(old(self)@.delta_edges, src, dst, text(edge_type@)),
                ..old(self)@
            }),
            final(self).log() == old(self).log().push(
                DeltaModel::DeleteEdge { src, dst, edge_type: text(edge_type@) },
            ),
            final(self).ops() == old(self).ops(),
            final(self).spec_path() == old(self).spec_path(),
    {
        let ghost g = self@;
        let ghost before = self.log();
        let ghost t = text(edge_type@);
        self.delta_log.push(Delta::DeleteEdge { src, dst, edge_type: edge_type.to_owned() });
        assert(self.log() =~= before.push(DeltaModel::DeleteEdge { src, dst, edge_type: t }));
        let n: usize = self.delta_edges.len();
        let mut i: usize = 0;
        while i < n
            invariant
                i <= n,
                n == self.delta_edges@.len(),
                n == g.delta_edges.len(),
                t == text(edge_type@),
                self.nodes_segment == old(self).nodes_segment,
                self.edges_segment == old(self).edges_segment,
                self.delta_nodes == old(self).delta_nodes,
                self.delta_index == old(self).delta_index,
                self.adjacency == old(self).adjacency,
                self.reverse_adjacency == old(self).reverse_adjacency,
                self.deleted_segment_ids == old(self).deleted_segment_ids,
                self.ops_since_flush == old(self).ops_since_flush,
                self.path == old(self).path,
                self.log() == before.push(DeltaModel::DeleteEdge { src, dst, edge_type: t }),
                forall|j: int|
                    0 <= j < i ==> (#[trigger] self.delta_edges@[j])@ == with_edge_deleted(
                        g.delta_edges,
                        src,
                        dst,
                        t,
                    )[j],
                forall|j: int|
                    i <= j < n ==> (#[trigger] self.delta_edges@[j])@ == g.delta_edges[j],
            decreases n - i,
        {
            let hit = self.delta_edges[i].src == src && self.delta_edges[i].dst == dst
                && match &self.delta_edges[i].edge_type {
                Some(s) => str_eq(s.as_str(), edge_type),
                None => false,
            };
            if hit {
                self.delta_edges[i].deleted = true;
            }
            i += 1;
        }
        proof {
            let after = with_edge_deleted(g.delta_edges, src, dst, t);
            assert(self@.delta_edges =~= after);
            let a = g.all_edges();
            let b = self@.all_edges();
            let seg = g.seg_edge_rows().len() as int;
            assert(b =~= g.seg_edge_rows() + after);
            assert forall|k: int| 0 <= k < a.len() implies endpoint(#[trigger] b[k], true)
                == endpoint(a[k], true) && endpoint(b[k], false) == endpoint(a[k], false) && (k
                < seg ==> b[k].deleted == a[k].deleted) by {
                if k >= seg {
                    assert(b[k] == after[k - seg]);
                    assert(a[k] == g.delta_edges[k - seg]);
                }
            }
            assert forall|id: u128| #[trigger]
                list_of(self.adjacency@, id) == self@.adjacency_list(true, id) by {
                lemma_index_list_same(b, a, seg, true, id, a.len() as int);
                assert(list_of(old(self).adjacency@, id) == g.adjacency_list(true, id));
            }
            assert forall|id: u128| #[trigger]
                list_of(self.reverse_adjacency@, id) == self@.adjacency_list(false, id) by {
                lemma_index_list_same(b, a, seg, false, id, a.len() as int);
                assert(list_of(old(self).reverse_adjacency@, id) == g.adjacency_list(false, id));
            }
        }
    }

    /// The ids of the nodes that match the query: those of the delta
    /// first, in the order in which they came, then those of the segment.
    /// Tombstoned nodes, segment nodes that the delta shadows and segment
    /// nodes deleted since the last flush do not count.
    pub fn find_by_attr(&self, query: &AttrQuery) -> (r: Vec<u128>)
        requires
            self.wf(),
        ensures
            r@ == self@.find(query@),
    {
        let ghost g = self@;
        let ghost q = query@;
        let mut result: Vec<u128> = Vec::new();
        let ghost mut hits: Seq<NodeModel> = Seq::empty();
        let n: usize = self.delta_nodes.len();
        let mut i: usize = 0;
        proof {
            lemma_filter_empty(live_match(q));
            assert(g.delta_nodes.subrange(0, 0) =~= Seq::<NodeModel>::empty());
            assert(result@ =~= hits.map_values(id_of()));
        }
        while i < n
            invariant
                i <= n,
                n == self.delta_nodes@.len(),
                g == self@,
                q == query@,
                hits == g.delta_nodes.subrange(0, i as int).filter(live_match(q)),
                result@ == hits.map_values(id_of()),
            decreases n - i,
        {
            let node = &self.delta_nodes[i];
            proof {
                assert(g.delta_nodes[i as int] == node@);
                lemma_filter_step(g.delta_nodes, i as int, live_match(q));
            }
            if !node.deleted && record_matches(query, node) {
                result.push(node.id);
                proof {
                    hits = hits.push(node@);
                    assert(result@ =~= hits.map_values(id_of()));
                }
            }
            i += 1;
        }
        assert(g.delta_nodes.subrange(0, n as int) =~= g.delta_nodes);
        let ghost delta_hits = hits;
        let ghost rows = g.seg_node_rows();
        let ghost mut seg_hits: Seq<NodeModel> = Seq::empty();
        proof {
            lemma_filter_empty(g.visible_match(q));
            assert(rows.subrange(0, 0) =~= Seq::<NodeModel>::empty());
            assert(result@ =~= (delta_hits + seg_hits).map_values(id_of()));
        }
        if let Some(segment) = &self.nodes_segment {
            let m: usize = segment.node_count();
            let mut idx: usize = 0;
            while idx < m
                invariant
                    idx <= m,
                    m == segment.count(),
                    self.wf(),
                    g == self@,
                    q == query@,
                    rows == node_rows(Some(segment.bytes())),
                    rows == g.seg_node_rows(),
                    seg_hits == rows.subrange(0, idx as int).filter(g.visible_match(q)),
                    result@ == (delta_hits + seg_hits).map_values(id_of()),
                decreases m - idx,
            {
                proof {
                    lemma_filter_step(rows, idx as int, g.visible_match(q));
                }
                if !segment.is_deleted(idx) {
                    let id = segment.get_id(idx).unwrap();
                    if self.delta_position(id).is_none() && !self.deleted_segment_ids.contains(&id)
                        && row_matches(query, segment, idx) {
                        result.push(id);
                        proof {
                            seg_hits = seg_hits.push(rows[idx as int]);
                            assert(result@ =~= (delta_hits + seg_hits).map_values(id_of()));
                        }
                    }
                }
                idx += 1;
            }
            assert(rows.subrange(0, m as int) =~= rows);
        } else {
            proof {
                assert(rows =~= Seq::<NodeModel>::empty());
            }
        }
        result
    }

    /// The ids of the nodes of a type. A type that ends in `*` stands for
    /// every type that begins with what stands before the `*`.
    pub fn find_by_type(&self, node_type: &str) -> (r: Vec<u128>)
        requires
            self.wf(),
        ensures
            r@ == self@.find(
                crate::storage::QueryModel {
                    node_type: Some(text(node_type@)),
                    ..crate::storage::empty_query()
                },
            ),
    {
        let query = AttrQuery::new().node_type(node_type);
        self.find_by_attr(&query)
    }

    /// Whether the edge at a global index is tombstoned, and its type.
    fn edge_passes(&self, idx: usize, types: Option<&[&str]>) -> (r: bool)
        requires
            self.wf(),
            idx < self@.all_edges().len(),
        ensures
            r == (!self@.all_edges()[idx as int].deleted && filter_admits(
                opt_type_texts(types),
                self@.all_edges()[idx as int].edge_type,
            )),
    {
        let seg = self.seg_edge_count();
        if idx < seg {
            match &self.edges_segment {
                Some(s) => !s.is_deleted(idx) && types_admit(types, s.get_edge_type(idx)),
                None => false,
            }
        } else {
            let e = &self.delta_edges[idx - seg];
            assert(self@.all_edges()[idx as int] == e@);
            !e.deleted && types_admit(types, as_str_opt(&e.edge_type))
        }
    }

    /// The source and the target of the edge at a global index.
    fn edge_ends(&self, idx: usize) -> (r: (u128, u128))
        requires
            self.wf(),
            idx < self@.all_edges().len(),
        ensures
            r.0 == self@.all_edges()[idx as int].src,
            r.1 == self@.all_edges()[idx as int].dst,
    {
        let seg = self.seg_edge_count();
        if idx < seg {
            match &self.edges_segment {
                Some(s) => (s.get_src(idx).unwrap(), s.get_dst(idx).unwrap()),
                None => (0, 0),
            }
        } else {
            let e = &self.delta_edges[idx - seg];
            assert(self@.all_edges()[idx as int] == e@);
            (e.src, e.dst)
        }
    }

    /// The edge at a global index that is not tombstoned, as a record.
    fn edge_record(&self, idx: usize) -> (r: EdgeRecord)
        requires
            self.wf(),
            idx < self@.all_edges().len(),
            !self@.all_edges()[idx as int].deleted,
        ensures
            r@ == self@.all_edges()[idx as int],
    {
        let seg = self.seg_edge_count();
        if idx < seg {
            match &self.edges_segment {
                Some(s) => s.edge_at(idx),
                None => EdgeRecord {
                    src: 0,
                    dst: 0,
                    edge_type: None,
                    version: String::new(),
                    metadata: None,
                    deleted: false,
                },
            }
        } else {
            let e = &self.delta_edges[idx - seg];
            assert(self@.all_edges()[idx as int] == e@);
            e.clone()
        }
    }

    /// The indices between `lo` and `hi` of the edges that leave (forward)
    /// or enter (backward) `id`, are not tombstoned and pass the filter, in
    /// the order of the adjacency list. Only the adjacency list of `id` is
    /// looked at.
    fn matching_between(
        &self,
        forward: bool,
        id: u128,
        types: Option<&[&str]>,
        lo: usize,
        hi: usize,
    ) -> (r: Vec<usize>)
        requires
            self.wf(),
            lo <= hi <= self@.all_edges().len(),
        ensures
            edges_at(self@.all_edges(), r@) == self@.all_edges().subrange(lo as int, hi as int)
                .filter(wanted(forward, id, opt_type_texts(types))),
            forall|k: int| 0 <= k < r@.len() ==> (#[trigger] r@[k]) < self@.all_edges().len(),
    {
        let ghost g = self@;
        let ghost all = g.all_edges();
        let ghost seg = g.seg_edge_rows().len() as int;
        let ghost tm = opt_type_texts(types);
        let ghost f = wanted(forward, id, tm);
        let ghost q = |i: int| lo <= i < hi && !all[i].deleted && filter_admits(tm, all[i].edge_type);
        let ghost list = g.adjacency_list(forward, id);
        let total: usize = self.edge_count();
        proof {
            lemma_index_list_bound(all, seg, forward, id, all.len() as int);
            lemma_gather_index_list(
                all,
                seg,
                forward,
                id,
                all.len() as int,
                q,
                f,
                lo as int,
                hi as int,
            );
        }
        let mut out: Vec<usize> = Vec::new();
        let map = if forward {
            &self.adjacency
        } else {
            &self.reverse_adjacency
        };
        assert(list_of(map@, id) == list);
        match map.get(&id) {
            None => {
                proof {
                    assert(edges_at(all, out@) =~= gather(all, list, q, 0));
                }
            },
            Some(l) => {
                let n: usize = l.len();
                let mut j: usize = 0;
                proof {
                    assert(edges_at(all, out@) =~= gather(all, list, q, 0));
                }
                while j < n
                    invariant
                        j <= n,
                        n == l@.len(),
                        l@ == list,
                        self.wf(),
                        g == self@,
                        all == g.all_edges(),
                        tm == opt_type_texts(types),
                        q == (|i: int|
                            lo <= i < hi && !all[i].deleted && filter_admits(tm, all[i].edge_type)),
                        forall|k: int| 0 <= k < list.len() ==> (#[trigger] list[k]) < all.len(),
                        edges_at(all, out@) == gather(all, list, q, j as int),
                        forall|k: int| 0 <= k < out@.len() ==> (#[trigger] out@[k]) < all.len(),
                    decreases n - j,
                {
                    let idx: usize = l[j];
                    assert(list[j as int] < all.len());
                    if lo <= idx && idx < hi && self.edge_passes(idx, types) {
                        let ghost before = out@;
                        out.push(idx);
                        proof {
                            assert(q(idx as int));
                            assert(edges_at(all, out@) =~= edges_at(all, before).push(
                                all[idx as int],
                            ));
                        }
                    } else {
                        assert(!q(idx as int));
                    }
                    j += 1;
                }
            },
        }
        out
    }

    /// The indices of the edges that leave (forward) or enter (backward)
    /// `id`, are not tombstoned and pass the filter, in index order.
    fn matching_indices(&self, forward: bool, id: u128, types: Option<&[&str]>) -> (r: Vec<usize>)
        requires
            self.wf(),
        ensures
            edges_at(self@.all_edges(), r@) == self@.all_edges().filter(
                wanted(forward, id, opt_type_texts(types)),
            ),
            forall|k: int| 0 <= k < r@.len() ==> (#[trigger] r@[k]) < self@.all_edges().len(),
    {
        let total = self.edge_count();
        assert(self@.all_edges().subrange(0, total as int) =~= self@.all_edges());
        self.matching_between(forward, id, types, 0, total)
    }

    /// The records of the edges at the indices, none of which is
    /// tombstoned, added to `out`.
    fn push_records(&self, out: &mut Vec<EdgeRecord>, idxs: &Vec<usize>)
        requires
            self.wf(),
            forall|j: int| 0 <= j < idxs@.len() ==> (#[trigger] idxs@[j]) < self@.all_edges().len(),
            forall|j: int|
                0 <= j < idxs@.len() ==> !(#[trigger] edges_at(self@.all_edges(), idxs@)[j]).deleted,
        ensures
            edge_models(final(out)@) == edge_models(old(out)@) + edges_at(self@.all_edges(), idxs@),
    {
        let ghost all = self@.all_edges();
        let mut k: usize = 0;
        assert(edge_models(out@) =~= edge_models(old(out)@) + edges_at(all, idxs@).subrange(0, 0));
        while k < idxs.len()
            invariant
                k <= idxs@.len(),
                self.wf(),
                all == self@.all_edges(),
                forall|j: int| 0 <= j < idxs@.len() ==> (#[trigger] idxs@[j]) < all.len(),
                forall|j: int|
                    0 <= j < idxs@.len() ==> !(#[trigger] edges_at(all, idxs@)[j]).deleted,
                edge_models(out@) == edge_models(old(out)@) + edges_at(all, idxs@).subrange(
                    0,
                    k as int,
                ),
            decreases idxs@.len() - k,
        {
            assert(edges_at(all, idxs@)[k as int] == all[idxs@[k as int] as int]);
            let e = self.edge_record(idxs[k]);
            let ghost before = out@;
            let ghost em = e@;
            out.push(e);
            k += 1;
            proof {
                assert(edge_models(out@) =~= edge_models(before).push(em));
                assert(edges_at(all, idxs@).subrange(0, k as int) =~= edges_at(
                    all,
                    idxs@,
                ).subrange(0, k - 1).push(em));
            }
        }
        assert(edges_at(all, idxs@).subrange(0, idxs@.len() as int) =~= edges_at(all, idxs@));
    }

    /// The targets of the edges that leave `id`, are not tombstoned and
    /// are of one of the types, in index order: the segment's edges, then
    /// the delta's. With an empty list of types every type counts.
    pub fn neighbors(&self, id: u128, edge_types: &[&str]) -> (r: Vec<u128>)
        requires
            self.wf(),
        ensures
            r@ == self@.neighbors(id, type_texts(edge_types@)),
    {
        let idxs = self.matching_indices(true, id, list_filter(edge_types));
        let ghost all = self@.all_edges();
        let mut out: Vec<u128> = Vec::new();
        let mut k: usize = 0;
        while k < idxs.len()
            invariant
                k <= idxs@.len(),
                self.wf(),
                all == self@.all_edges(),
                forall|j: int| 0 <= j < idxs@.len() ==> (#[trigger] idxs@[j]) < all.len(),
                out@ == edges_at(all, idxs@).subrange(0, k as int).map_values(dst_of()),
            decreases idxs@.len() - k,
        {
            let ends = self.edge_ends(idxs[k]);
            out.push(ends.1);
            k += 1;
            assert(out@ =~= edges_at(all, idxs@).subrange(0, k as int).map_values(dst_of()));
        }
        assert(edges_at(all, idxs@).subrange(0, idxs@.len() as int) =~= edges_at(all, idxs@));
        out
    }

    /// The sources of the edges that enter `id`, are not tombstoned and
    /// are of one of the types, in index order: the segment's edges, then
    /// the delta's. With an empty list of types every type counts.
    pub fn reverse_neighbors(&self, id: u128, edge_types: &[&str]) -> (r: Vec<u128>)
        requires
            self.wf(),
        ensures
            r@ == self@.reverse_neighbors(id, type_texts(edge_types@)),
    {
        let idxs = self.matching_indices(false, id, list_filter(edge_types));
        let ghost all = self@.all_edges();
        let mut out: Vec<u128> = Vec::new();
        let mut k: usize = 0;
        while k < idxs.len()
            invariant
                k <= idxs@.len(),
                self.wf(),
                all == self@.all_edges(),
                forall|j: int| 0 <= j < idxs@.len() ==> (#[trigger] idxs@[j]) < all.len(),
                out@ == edges_at(all, idxs@).subrange(0, k as int).map_values(src_of()),
            decreases idxs@.len() - k,
        {
            let ends = self.edge_ends(idxs[k]);
            out.push(ends.0);
            k += 1;
            assert(out@ =~= edges_at(all, idxs@).subrange(0, k as int).map_values(src_of()));
        }
        assert(edges_at(all, idxs@).subrange(0, idxs@.len() as int) =~= edges_at(all, idxs@));
        out
    }

    /// The edges that enter `node_id`, are not tombstoned and pass the
    /// filter, in index order: the segment's edges, then the delta's.
    /// Without a filter every type counts; a filter admits the types it
    /// lists.
    pub fn get_incoming_edges(&self, node_id: u128, edge_types: Option<&[&str]>) -> (r: Vec<
        EdgeRecord,
    >)
        requires
            self.wf(),
        ensures
            edge_models(r@) == self@.incoming_edges(node_id, opt_type_texts(edge_types)),
    {
        let idxs = self.matching_indices(false, node_id, edge_types);
        let ghost all = self@.all_edges();
        let ghost f = wanted(false, node_id, opt_type_texts(edge_types));
        proof {
            assert forall|j: int| 0 <= j < idxs@.len() implies !(#[trigger] edges_at(
                all,
                idxs@,
            )[j]).deleted by {
                all.lemma_filter_pred(f, j);
            }
        }
        let mut out: Vec<EdgeRecord> = Vec::new();
        self.push_records(&mut out, &idxs);
        assert(edge_models(out@) =~= edges_at(all, idxs@));
        out
    }

    /// The edges that leave `node_id`, are not tombstoned and pass the
    /// filter: the delta's edges first, then the segment's, each in index
    /// order. Without a filter every type counts; a filter admits the
    /// types it lists.
    pub fn get_outgoing_edges(&self, node_id: u128, edge_types: Option<&[&str]>) -> (r: Vec<
        EdgeRecord,
    >)
        requires
            self.wf(),
        ensures
            edge_models(r@) == self@.outgoing_edges(node_id, opt_type_texts(edge_types)),
    {
        let seg = self.seg_edge_count();
        let total = self.edge_count();
        let ghost all = self@.all_edges();
        let ghost f = wanted(true, node_id, opt_type_texts(edge_types));
        let from_delta = self.matching_between(true, node_id, edge_types, seg, total);
        let from_segment = self.matching_between(true, node_id, edge_types, 0, seg);
        proof {
            assert(all.subrange(seg as int, total as int) =~= self@.delta_edges);
            assert(all.subrange(0, seg as int) =~= self@.seg_edge_rows());
            assert forall|j: int| 0 <= j < from_delta@.len() implies !(#[trigger] edges_at(
                all,
                from_delta@,
            )[j]).deleted by {
                self@.delta_edges.lemma_filter_pred(f, j);
            }
            assert forall|j: int| 0 <= j < from_segment@.len() implies !(#[trigger] edges_at(
                all,
                from_segment@,
            )[j]).deleted by {
                self@.seg_edge_rows().lemma_filter_pred(f, j);
            }
        }
        let mut out: Vec<EdgeRecord> = Vec::new();
        self.push_records(&mut out, &from_delta);
        self.push_records(&mut out, &from_segment);
        assert(edge_models(out@) =~= edges_at(all, from_delta@) + edges_at(all, from_segment@));
        out
    }

    /// The nodes that a breadth-first walk along the edges of the given
    /// types reaches from `start` within `max_depth` steps, each once, in
    /// the order of first discovery.
    pub fn bfs(&self, start: &[u128], max_depth: usize, edge_types: &[&str]) -> (r: Vec<u128>)
        requires
            self.wf(),
        ensures
            r@ == spec_bfs(
                forward_step(self@, type_texts(edge_types@)),
                start@,
                max_depth as nat,
            ),
    {
        let ghost next = forward_step(self@, type_texts(edge_types@));
        let step = |node_id: u128| -> (out: Vec<u128>)
            requires
                self.wf(),
            ensures
                out@ == self@.neighbors(node_id, type_texts(edge_types@)),
            { self.neighbors(node_id, edge_types) };
        bfs_over(start, max_depth, &step, Ghost(next))
    }

    /// The nodes that lie within `max_depth` steps of `start` along the
    /// edges of the given types, each once, in the order of a depth-first
    /// walk through them.
    pub fn dfs(&self, start: &[u128], max_depth: usize, edge_types: &[&str]) -> (r: Vec<u128>)
        requires
            self.wf(),
        ensures
            r@.no_duplicates(),
            r@.to_set() == reach_within(
                forward_step(self@, type_texts(edge_types@)),
                start@.to_set(),
                max_depth as nat,
            ),
            is_dfs(
                forward_step(self@, type_texts(edge_types@)),
                reach_within(
                    forward_step(self@, type_texts(edge_types@)),
                    start@.to_set(),
                    max_depth as nat,
                ),
                start@,
                r@,
            ),
    {
        let ghost next = forward_step(self@, type_texts(edge_types@));
        let step = |node_id: u128| -> (out: Vec<u128>)
            requires
                self.wf(),
            ensures
                out@ == self@.neighbors(node_id, type_texts(edge_types@)),
            { self.neighbors(node_id, edge_types) };
        dfs_over(start, max_depth, &step, Ghost(next))
    }

    /// The nodes within `max_depth` steps of `start`: along the edges of
    /// the given types, or against them if `backward` is set. It is a
    /// breadth-first walk.
    pub fn reachability(
        &self,
        start: &[u128],
        max_depth: usize,
        edge_types: &[&str],
        backward: bool,
    ) -> (r: Vec<u128>)
        requires
            self.wf(),
        ensures
            r@ == spec_bfs(
                if backward {
                    backward_step(self@, type_texts(edge_types@))
                } else {
                    forward_step(self@, type_texts(edge_types@))
                },
                start@,
                max_depth as nat,
            ),
    {
        if backward {
            let ghost next = backward_step(self@, type_texts(edge_types@));
            let step = |node_id: u128| -> (out: Vec<u128>)
                requires
                    self.wf(),
                ensures
                    out@ == self@.reverse_neighbors(node_id, type_texts(edge_types@)),
                { self.reverse_neighbors(node_id, edge_types) };
            bfs_over(start, max_depth, &step, Ghost(next))
        } else {
            self.bfs(start, max_depth, edge_types)
        }
    }

    /// Whether the node of this id is an endpoint: of type `db:query`,
    /// `http:request`, `http:endpoint`, `EXTERNAL`, `fs:operation` or
    /// `SIDE_EFFECT`, or an exported `FUNCTION`. A node that reads do not
    /// see is none.
    pub fn is_endpoint(&self, id: u128) -> (r: bool)
        requires
            self.wf(),
        ensures
            r == self@.is_endpoint(id),
    {
        match self.get_node(id) {
            Some(n) => record_is_endpoint(&n),
            None => false,
        }
    }

    /// The readable identifier of the node of this id: `TYPE:name@file`.
    pub fn get_node_identifier(&self, id: u128) -> (r: Option<String>)
        requires
            self.wf(),
        ensures
            r.is_some() == self@.get_node(id).is_some(),
            r matches Some(s) ==> text(s@) == identifier_of(self@.get_node(id)->0),
    {
        match self.get_node(id) {
            Some(n) => Some(record_identifier(&n)),
            None => None,
        }
    }

    /// File, name and metadata of the node of this id, each only if it has
    /// at least one byte.
    pub fn get_node_strings_with_metadata(&self, id: u128) -> (r: Option<
        (Option<String>, Option<String>, Option<String>),
    >)
        requires
            self.wf(),
        ensures
            r matches Some(t) && (opt_text(t.0), opt_text(t.1), opt_text(t.2))
                == self@.node_strings(id),
    {
        match self.get_node(id) {
            Some(n) => Some((nonempty(n.file), nonempty(n.name), nonempty(n.metadata))),
            None => Some((None, None, None)),
        }
    }

    /// File and name of the node of this id, each only if it has at least
    /// one byte.
    pub fn get_node_strings(&self, id: u128) -> (r: Option<(Option<String>, Option<String>)>)
        requires
            self.wf(),
        ensures
            r matches Some(t) && opt_text(t.0) == self@.node_strings(id).0 && opt_text(t.1)
                == self@.node_strings(id).1,
    {
        match self.get_node(id) {
            Some(n) => Some((nonempty(n.file), nonempty(n.name))),
            None => Some((None, None)),
        }
    }

    /// The ids of the delta's nodes of a version that are not tombstoned,
    /// in the order in which they came. Nodes that only the segment holds
    /// are not looked at.
    pub fn get_nodes_by_version(&self, version: &str) -> (r: Vec<u128>)
        requires
            self.wf(),
        ensures
            r@ == self@.nodes_by_version(text(version@)),
    {
        let ghost g = self@;
        let ghost f = live_of_version(text(version@));
        let mut result: Vec<u128> = Vec::new();
        let ghost mut hits: Seq<NodeModel> = Seq::empty();
        let n: usize = self.delta_nodes.len();
        let mut i: usize = 0;
        proof {
            lemma_filter_empty(f);
            assert(g.delta_nodes.subrange(0, 0) =~= Seq::<NodeModel>::empty());
            assert(result@ =~= hits.map_values(id_of()));
        }
        while i < n
            invariant
                i <= n,
                n == self.delta_nodes@.len(),
                g == self@,
                f == live_of_version(text(version@)),
                hits == g.delta_nodes.subrange(0, i as int).filter(f),
                result@ == hits.map_values(id_of()),
            decreases n - i,
        {
            let node = &self.delta_nodes[i];
            proof {
                assert(g.delta_nodes[i as int] == node@);
                lemma_filter_step(g.delta_nodes, i as int, f);
            }
            if !node.deleted && str_eq(node.version.as_str(), version) {
                result.push(node.id);
                proof {
                    hits = hits.push(node@);
                    assert(result@ =~= hits.map_values(id_of()));
                }
            }
            i += 1;
        }
        assert(g.delta_nodes.subrange(0, n as int) =~= g.delta_nodes);
        result
    }

    /// Gives every node and edge of the delta that is of this version its
    /// tombstone.
    pub fn delete_version(&mut self, version: &str)
        requires
            old(self).wf(),
        ensures
            final(self).wf(),
            final(self)@ == (GraphModel {
                delta_nodes: nodes_version_deleted(old(self)@.delta_nodes, text(version@)),
                delta_edges: edges_version_deleted(old(self)@.delta_edges, text(version@)),
                ..old(self)@
            }),
            final(self).log() == old(self).log(),
            final(self).ops() == old(self).ops(),
            final(self).spec_path() == old(self).spec_path(),
    {
        let ghost g = self@;
        let ghost v = text(version@);
        let n: usize = self.delta_nodes.len();
        let mut i: usize = 0;
        while i < n
            invariant
                i <= n,
                n == self.delta_nodes@.len(),
                n == g.delta_nodes.len(),
                v == text(version@),
                self.nodes_segment == old(self).nodes_segment,
                self.edges_segment == old(self).edges_segment,
                self.delta_edges == old(self).delta_edges,
                self.delta_index == old(self).delta_index,
                self.adjacency == old(self).adjacency,
                self.reverse_adjacency == old(self).reverse_adjacency,
                self.deleted_segment_ids == old(self).deleted_segment_ids,
                self.ops_since_flush == old(self).ops_since_flush,
                self.path == old(self).path,
                self.delta_log == old(self).delta_log,
                forall|j: int|
                    0 <= j < i ==> (#[trigger] self.delta_nodes@[j])@ == nodes_version_deleted(
                        g.delta_nodes,
                        v,
                    )[j],
                forall|j: int|
                    i <= j < n ==> (#[trigger] self.delta_nodes@[j])@ == g.delta_nodes[j],
            decreases n - i,
        {
            if str_eq(self.delta_nodes[i].version.as_str(), version) {
                self.delta_nodes[i].deleted = true;
            }
            i += 1;
        }
        let m: usize = self.delta_edges.len();
        let mut k: usize = 0;
        while k < m
            invariant
                k <= m,
                m == self.delta_edges@.len(),
                m == g.delta_edges.len(),
                v == text(version@),
                self.nodes_segment == old(self).nodes_segment,
                self.edges_segment == old(self).edges_segment,
                self.delta_index == old(self).delta_index,
                self.adjacency == old(self).adjacency,
                self.reverse_adjacency == old(self).reverse_adjacency,
                self.deleted_segment_ids == old(self).deleted_segment_ids,
                self.ops_since_flush == old(self).ops_since_flush,
                self.path == old(self).path,
                self.delta_log == old(self).delta_log,
                self.delta_nodes@.len() == g.delta_nodes.len(),
                forall|j: int|
                    0 <= j < g.delta_nodes.len() ==> (#[trigger] self.delta_nodes@[j])@
                        == nodes_version_deleted(g.delta_nodes, v)[j],
                forall|j: int|
                    0 <= j < k ==> (#[trigger] self.delta_edges@[j])@ == edges_version_deleted(
                        g.delta_edges,
                        v,
                    )[j],
                forall|j: int|
                    k <= j < m ==> (#[trigger] self.delta_edges@[j])@ == g.delta_edges[j],
            decreases m - k,
        {
            if str_eq(self.delta_edges[k].version.as_str(), version) {
                self.delta_edges[k].deleted = true;
            }
            k += 1;
        }
        proof {
            let nodes_after = nodes_version_deleted(g.delta_nodes, v);
            let edges_after = edges_version_deleted(g.delta_edges, v);
            assert(self@.delta_nodes =~= nodes_after);
            assert(self@.delta_edges =~= edges_after);
            self.lemma_same_ends(*old(self));
        }
    }

    /// Settles the staged edits of the delta: every node that a node of
    /// version `__local` stands in for gets its tombstone, and every node
    /// and edge of version `__local` becomes one of version `main`.
    pub fn promote_local_to_main(&mut self)
        requires
            old(self).wf(),
        ensures
            final(self).wf(),
            final(self)@ == (GraphModel {
                delta_nodes: nodes_promoted(old(self)@.delta_nodes),
                delta_edges: edges_promoted(old(self)@.delta_edges),
                ..old(self)@
            }),
            final(self).log() == old(self).log(),
            final(self).ops() == old(self).ops(),
            final(self).spec_path() == old(self).spec_path(),
    {
        let ghost g = self@;
        let ghost nodes = g.delta_nodes;
        let n: usize = self.delta_nodes.len();
        proof {
            self.lemma_distinct();
        }
        // the ids that staged nodes stand in for
        let mut to_delete: Vec<u128> = Vec::new();
        let mut i: usize = 0;
        while i < n
            invariant
                i <= n,
                n == self.delta_nodes@.len(),
                *self == *old(self),
                nodes == self@.delta_nodes,
                forall|id: u128| to_delete@.contains(id) <==> replaced_by_local(nodes, id, i as int),
            decreases n - i,
        {
            let node = &self.delta_nodes[i];
            assert(nodes[i as int] == node@);
            let ghost before = to_delete@;
            let local = str_eq(node.version.as_str(), "__local");
            match node.replaces {
                Some(id) => {
                    if local {
                        to_delete.push(id);
                        assert(to_delete@.last() == id);
                    }
                },
                None => {},
            }
            proof {
                assert forall|id: u128| to_delete@.contains(id) <==> replaced_by_local(
                    nodes,
                    id,
                    i + 1,
                ) by {
                    if replaced_by_local(nodes, id, i + 1) {
                        let j = choose|j: int|
                            0 <= j < i + 1 && (#[trigger] nodes[j]).version == local_version()
                                && nodes[j].replaces == Some(id);
                        if j < i {
                            assert(replaced_by_local(nodes, id, i as int));
                            let k = choose|k: int| 0 <= k < before.len() && before[k] == id;
                            assert(to_delete@[k] == id);
                        } else {
                            assert(to_delete@[to_delete@.len() - 1] == id);
                        }
                    }
                    if to_delete@.contains(id) {
                        let k = choose|k: int| 0 <= k < to_delete@.len() && to_delete@[k] == id;
                        if k < before.len() {
                            assert(before[k] == id);
                            assert(replaced_by_local(nodes, id, i as int));
                            let j = choose|j: int|
                                0 <= j < i && (#[trigger] nodes[j]).version == local_version()
                                    && nodes[j].replaces == Some(id);
                            assert(nodes[j].version == local_version());
                        } else {
                            assert(nodes[i as int].version == local_version());
                        }
                    }
                }
            }
            i += 1;
        }
        // their tombstones
        let m: usize = to_delete.len();
        let mut k: usize = 0;
        while k < m
            invariant
                k <= m,
                m == to_delete@.len(),
                n == self.delta_nodes@.len(),
                n == nodes.len(),
                old(self).wf(),
                nodes == old(self)@.delta_nodes,
                crate::graph::model::distinct_ids(nodes),
                self.nodes_segment == old(self).nodes_segment,
                self.edges_segment == old(self).edges_segment,
                self.delta_edges == old(self).delta_edges,
                self.delta_index == old(self).delta_index,
                self.adjacency == old(self).adjacency,
                self.reverse_adjacency == old(self).reverse_adjacency,
                self.deleted_segment_ids == old(self).deleted_segment_ids,
                self.ops_since_flush == old(self).ops_since_flush,
                self.path == old(self).path,
                self.delta_log == old(self).delta_log,
                forall|j: int|
                    0 <= j < n ==> (#[trigger] self.delta_nodes@[j])@ == (NodeModel {
                        deleted: nodes[j].deleted || to_delete@.subrange(0, k as int).contains(
                            nodes[j].id,
                        ),
                        ..nodes[j]
                    }),
            decreases m - k,
        {
            let id: u128 = to_delete[k];
            let ghost done = to_delete@.subrange(0, k as int);
            let ghost next = to_delete@.subrange(0, k + 1);
            proof {
                assert(next =~= done.push(id));
                assert forall|x: u128| next.contains(x) <==> (done.contains(x) || x == id) by {
                    if done.contains(x) {
                        let t = choose|t: int| 0 <= t < done.len() && done[t] == x;
                        assert(next[t] == x);
                    }
                    if x == id {
                        assert(next[k as int] == x);
                    }
                }
            }
            match self.delta_index.get(&id) {
                Some(p) => {
                    let p: usize = *p;
                    assert(old(self).delta_nodes@[p as int].id == id);
                    assert(nodes[p as int].id == id);
                    self.delta_nodes[p].deleted = true;
                    proof {
                        assert forall|j: int| 0 <= j < n implies (#[trigger] self.delta_nodes@[j])@
                            == (NodeModel {
                            deleted: nodes[j].deleted || next.contains(nodes[j].id),
                            ..nodes[j]
                        }) by {
                            if j != p {
                                assert(nodes[j].id != id);
                            }
                        }
                    }
                },
                None => {
                    proof {
                        assert forall|j: int| 0 <= j < n implies nodes[j].id != id by {
                            assert(old(self).delta_index@.contains_key(
                                old(self).delta_nodes@[j].id,
                            ));
                            assert(nodes[j].id == old(self).delta_nodes@[j].id);
                        }
                    }
                },
            }
            k += 1;
        }
        assert(to_delete@.subrange(0, m as int) =~= to_delete@);
        // the staged nodes
        let ghost promoted = nodes_promoted(nodes);
        let mut i: usize = 0;
        while i < n
            invariant
                i <= n,
                n == self.delta_nodes@.len(),
                n == nodes.len(),
                promoted == nodes_promoted(nodes),
                forall|id: u128| to_delete@.contains(id) <==> replaced_by_local(nodes, id, n as int),
                self.nodes_segment == old(self).nodes_segment,
                self.edges_segment == old(self).edges_segment,
                self.delta_edges == old(self).delta_edges,
                self.delta_index == old(self).delta_index,
                self.adjacency == old(self).adjacency,
                self.reverse_adjacency == old(self).reverse_adjacency,
                self.deleted_segment_ids == old(self).deleted_segment_ids,
                self.ops_since_flush == old(self).ops_since_flush,
                self.path == old(self).path,
                self.delta_log == old(self).delta_log,
                forall|j: int| 0 <= j < i ==> (#[trigger] self.delta_nodes@[j])@ == promoted[j],
                forall|j: int|
                    i <= j < n ==> (#[trigger] self.delta_nodes@[j])@ == (NodeModel {
                        deleted: nodes[j].deleted || to_delete@.contains(nodes[j].id),
                        ..nodes[j]
                    }),
            decreases n - i,
        {
            if str_eq(self.delta_nodes[i].version.as_str(), "__local") {
                self.delta_nodes[i].version = "main".to_owned();
                self.delta_nodes[i].replaces = None;
            }
            i += 1;
        }
        let ghost edges = g.delta_edges;
        let e: usize = self.delta_edges.len();
        let mut j: usize = 0;
        while j < e
            invariant
                j <= e,
                e == self.delta_edges@.len(),
                e == edges.len(),
                self.nodes_segment == old(self).nodes_segment,
                self.edges_segment == old(self).edges_segment,
                self.delta_index == old(self).delta_index,
                self.adjacency == old(self).adjacency,
                self.reverse_adjacency == old(self).reverse_adjacency,
                self.deleted_segment_ids == old(self).deleted_segment_ids,
                self.ops_since_flush == old(self).ops_since_flush,
                self.path == old(self).path,
                self.delta_log == old(self).delta_log,
                self.delta_nodes@.len() == nodes.len(),
                forall|t: int|
                    0 <= t < nodes.len() ==> (#[trigger] self.delta_nodes@[t])@ == nodes_promoted(
                        nodes,
                    )[t],
                forall|t: int|
                    0 <= t < j ==> (#[trigger] self.delta_edges@[t])@ == edges_promoted(edges)[t],
                forall|t: int| j <= t < e ==> (#[trigger] self.delta_edges@[t])@ == edges[t],
            decreases e - j,
        {
            if str_eq(self.delta_edges[j].version.as_str(), "__local") {
                self.delta_edges[j].version = "main".to_owned();
            }
            j += 1;
        }
        proof {
            assert(self@.delta_nodes =~= nodes_promoted(nodes));
            assert(self@.delta_edges =~= edges_promoted(edges));
            assert forall|t: int| 0 <= t < self.delta_nodes@.len() implies (
            #[trigger] self.delta_nodes@[t]).id == old(self).delta_nodes@[t].id by {
                assert(self.delta_nodes@[t]@ == nodes_promoted(nodes)[t]);
                assert(nodes[t] == old(self).delta_nodes@[t]@);
            }
            assert forall|t: int| 0 <= t < self.delta_edges@.len() implies (
            #[trigger] self.delta_edges@[t]).src == old(self).delta_edges@[t].src
                && self.delta_edges@[t].dst == old(self).delta_edges@[t].dst by {
                assert(self.delta_edges@[t]@ == edges_promoted(edges)[t]);
                assert(edges[t] == old(self).delta_edges@[t]@);
            }
            self.lemma_same_ends(*old(self));
        }
    }

    /// The type of the edge at a global index.
    fn edge_type_at(&self, idx: usize) -> (r: Option<&str>)
        requires
            self.wf(),
            idx < self@.all_edges().len(),
        ensures
            opt_str_text(r) == self@.all_edges()[idx as int].edge_type,
    {
        let seg = self.seg_edge_count();
        if idx < seg {
            match &self.edges_segment {
                Some(s) => s.get_edge_type(idx),
                None => None,
            }
        } else {
            let e = &self.delta_edges[idx - seg];
            assert(self@.all_edges()[idx as int] == e@);
            as_str_opt(&e.edge_type)
        }
    }

    /// Whether the edge at a global index is tombstoned.
    fn edge_deleted_at(&self, idx: usize) -> (r: bool)
        requires
            self.wf(),
            idx < self@.all_edges().len(),
        ensures
            r == self@.all_edges()[idx as int].deleted,
    {
        let seg = self.seg_edge_count();
        if idx < seg {
            match &self.edges_segment {
                Some(s) => s.is_deleted(idx),
                None => false,
            }
        } else {
            let e = &self.delta_edges[idx - seg];
            assert(self@.all_edges()[idx as int] == e@);
            e.deleted
        }
    }

    /// Whether some edge between `lo` and `hi` that is not tombstoned has
    /// this source, target and type. Only the adjacency list of the
    /// source is looked at.
    fn key_present(&self, src: u128, dst: u128, t: &str, lo: usize, hi: usize, dflt: &str) -> (r:
        bool)
        requires
            self.wf(),
            lo <= hi <= self@.all_edges().len(),
        ensures
            r == key_between(
                (src, dst, text(t@)),
                self@.all_edges(),
                lo as int,
                hi as int,
                text(dflt@),
            ),
    {
        let ghost all = self@.all_edges();
        let ghost key = (src, dst, text(t@));
        let ghost d = text(dflt@);
        let ghost f = wanted(true, src, None);
        let idxs = self.matching_between(true, src, None, lo, hi);
        let ghost found = edges_at(all, idxs@);
        let ghost part = all.subrange(lo as int, hi as int);
        assert(opt_type_texts(None) == None::<Seq<Seq<u8>>>);
        assert(found == part.filter(f));
        let mut k: usize = 0;
        while k < idxs.len()
            invariant
                k <= idxs@.len(),
                self.wf(),
                all == self@.all_edges(),
                key == (src, dst, text(t@)),
                d == text(dflt@),
                found == edges_at(all, idxs@),
                found == part.filter(f),
                part == all.subrange(lo as int, hi as int),
                f == wanted(true, src, None),
                lo <= hi <= all.len(),
                forall|j: int| 0 <= j < idxs@.len() ==> (#[trigger] idxs@[j]) < all.len(),
                forall|j: int| 0 <= j < k ==> key_with(#[trigger] found[j], d) != key,
            decreases idxs@.len() - k,
        {
            let idx = idxs[k];
            assert(found[k as int] == all[idx as int]);
            let ends = self.edge_ends(idx);
            let same = ends.1 == dst && str_eq(
                match self.edge_type_at(idx) {
                    Some(s) => s,
                    None => dflt,
                },
                t,
            );
            proof {
                part.lemma_filter_pred(f, k as int);
            }
            if same {
                proof {
                    assert(key_with(found[k as int], d) == key);
                    assert(part.filter(f).contains(found[k as int]));
                    part.lemma_filter_contains_rev(f, found[k as int]);
                    let j = choose|j: int| 0 <= j < part.len() && part[j] == found[k as int];
                    assert(all[lo + j] == found[k as int]);
                }
                return true;
            }
            k += 1;
        }
        proof {
            if key_between(key, all, lo as int, hi as int, d) {
                let j = choose|j: int|
                    lo <= j < hi && !(#[trigger] all[j]).deleted && key_with(all[j], d) == key;
                assert(part[j - lo] == all[j]);
                assert(f(part[j - lo]));
                part.lemma_filter_contains(f, j - lo);
                let kk = choose|kk: int| 0 <= kk < found.len() && found[kk] == all[j];
                assert(key_with(found[kk], d) != key);
            }
        }
        false
    }

    /// Whether the edge at a global index stands for its key.
    fn stands_at(&self, i: usize, dflt: &str) -> (r: bool)
        requires
            self.wf(),
            i < self@.all_edges().len(),
        ensures
            r == self@.edge_stands(i as int, text(dflt@)),
    {
        if self.edge_deleted_at(i) {
            return false;
        }
        let seg = self.seg_edge_count();
        let total = self.edge_count();
        let ends = self.edge_ends(i);
        let t: &str = match self.edge_type_at(i) {
            Some(s) => s,
            None => dflt,
        };
        if i < seg {
            !self.key_present(ends.0, ends.1, t, seg, total, dflt) && !self.key_present(
                ends.0,
                ends.1,
                t,
                0,
                i,
                dflt,
            )
        } else {
            !self.key_present(ends.0, ends.1, t, i + 1, total, dflt)
        }
    }

    /// The edge at a global index that is not tombstoned, as a record; an
    /// empty type reads as no type.
    fn edge_record_typed(&self, idx: usize) -> (r: EdgeRecord)
        requires
            self.wf(),
            idx < self@.all_edges().len(),
            !self@.all_edges()[idx as int].deleted,
        ensures
            r@ == without_empty_type(self@.all_edges()[idx as int]),
    {
        let e = self.edge_record(idx);
        EdgeRecord {
            src: e.src,
            dst: e.dst,
            edge_type: nonempty(e.edge_type),
            version: e.version,
            metadata: e.metadata,
            deleted: e.deleted,
        }
    }

    /// Every edge, one for each source, target and type: for edges that
    /// agree in all three, the delta's last one stands, else the
    /// segment's first one. Tombstoned edges do not count. The delta's
    /// edges come first.
    pub fn get_all_edges(&self) -> (r: Vec<EdgeRecord>)
        requires
            self.wf(),
        ensures
            edge_models(r@) == self@.distinct_edges(),
    {
        let ghost g = self@;
        let ghost all = g.all_edges();
        let ghost keep = g.stands(Seq::empty());
        let seg = self.seg_edge_count();
        let total = self.edge_count();
        let mut out: Vec<EdgeRecord> = Vec::new();
        proof {
            reveal_strlit("");
            assert(text(""@) =~= Seq::<u8>::empty());
            assert(edge_models(out@) =~= picked(all, keep, seg as int, seg as int).map_values(
                typed_or_none(),
            ));
        }
        let mut i: usize = seg;
        while i < total
            invariant
                seg <= i <= total,
                self.wf(),
                g == self@,
                all == g.all_edges(),
                total == all.len(),
                seg == g.seg_edge_rows().len(),
                keep == g.stands(Seq::empty()),
                text(""@) == Seq::<u8>::empty(),
                edge_models(out@) == picked(all, keep, seg as int, i as int).map_values(
                    typed_or_none(),
                ),
            decreases total - i,
        {
            if self.stands_at(i, "") {
                let e = self.edge_record_typed(i);
                let ghost before = out@;
                let ghost em = e@;
                out.push(e);
                proof {
                    assert(edge_models(out@) =~= edge_models(before).push(em));
                    assert(picked(all, keep, seg as int, i + 1).map_values(typed_or_none())
                        =~= picked(all, keep, seg as int, i as int).map_values(
                        typed_or_none(),
                    ).push(em));
                }
            }
            i += 1;
        }
        let ghost from_delta = picked(all, keep, seg as int, total as int);
        let mut j: usize = 0;
        proof {
            assert(edge_models(out@) =~= (from_delta + picked(all, keep, 0, 0)).map_values(
                typed_or_none(),
            ));
        }
        while j < seg
            invariant
                j <= seg <= total,
                self.wf(),
                g == self@,
                all == g.all_edges(),
                total == all.len(),
                seg == g.seg_edge_rows().len(),
                keep == g.stands(Seq::empty()),
                text(""@) == Seq::<u8>::empty(),
                from_delta == picked(all, keep, seg as int, total as int),
                edge_models(out@) == (from_delta + picked(all, keep, 0, j as int)).map_values(
                    typed_or_none(),
                ),
            decreases seg - j,
        {
            if self.stands_at(j, "") {
                let e = self.edge_record_typed(j);
                let ghost before = out@;
                let ghost em = e@;
                out.push(e);
                proof {
                    assert(edge_models(out@) =~= edge_models(before).push(em));
                    assert((from_delta + picked(all, keep, 0, j + 1)).map_values(typed_or_none())
                        =~= (from_delta + picked(all, keep, 0, j as int)).map_values(
                        typed_or_none(),
                    ).push(em));
                }
            }
            j += 1;
        }
        out
    }

    /// The number of visible nodes of each type, in the order in which the
    /// types first occur among the visible nodes. A node without a type
    /// counts as `UNKNOWN`. With patterns, only the types that one of them
    /// matches are counted; a pattern that ends in `*` matches every type
    /// that begins with what stands before the `*`.
    pub fn count_nodes_by_type(&self, types: Option<&[String]>) -> (r: Vec<(String, usize)>)
        requires
            self.wf(),
        ensures
            counts_model(r@) == clipped(self@.node_counts(opt_pattern_texts(types))),
    {
        let ghost g = self@;
        let ghost pm = opt_pattern_texts(types);
        let ghost adm = admitted_by(pm);
        let ghost cty = counted_type_of();
        let mut tally: Vec<(String, u128)> = Vec::new();
        let ghost mut vis: Seq<NodeModel> = Seq::empty();
        let n: usize = self.delta_nodes.len();
        let mut i: usize = 0;
        proof {
            lemma_filter_empty(live_node());
            lemma_filter_empty(adm);
            assert(g.delta_nodes.subrange(0, 0) =~= Seq::<NodeModel>::empty());
            assert(vis.map_values(cty) =~= Seq::<Seq<u8>>::empty());
            assert(tally_model(tally@) =~= tally_of(vis.map_values(cty).filter(adm)));
        }
        while i < n
            invariant
                i <= n,
                n == self.delta_nodes@.len(),
                g == self@,
                pm == opt_pattern_texts(types),
                adm == admitted_by(pm),
                cty == counted_type_of(),
                vis == g.delta_nodes.subrange(0, i as int).filter(live_node()),
                vis.len() <= i,
                tally_model(tally@) == tally_of(vis.map_values(cty).filter(adm)),
            decreases n - i,
        {
            let node = &self.delta_nodes[i];
            proof {
                assert(g.delta_nodes[i as int] == node@);
                lemma_filter_step(g.delta_nodes, i as int, live_node());
            }
            if !node.deleted {
                let t: &str = match &node.node_type {
                    Some(t) => t.as_str(),
                    None => "UNKNOWN",
                };
                proof {
                    lemma_map_filter_push(vis, node@, cty, adm);
                    let seen = vis.map_values(cty).filter(adm);
                    lemma_tally_bound(seen);
                    lemma_tally_push(seen, text(t@));
                    vis.map_values(cty).lemma_filter_len(adm);
                    assert forall|k: int| 0 <= k < tally@.len() implies (#[trigger] tally@[k]).1
                        < u128::MAX by {
                        assert(tally_model(tally@)[k].1 == tally@[k].1);
                    }
                }
                if patterns_ok(types, t) {
                    bump_tally(&mut tally, t);
                }
                proof {
                    vis = vis.push(node@);
                }
            }
            i += 1;
        }
        assert(g.delta_nodes.subrange(0, n as int) =~= g.delta_nodes);
        let ghost from_delta = vis;
        let ghost rows = g.seg_node_rows();
        proof {
            lemma_filter_empty(g.visible());
            assert(rows.subrange(0, 0) =~= Seq::<NodeModel>::empty());
            assert(vis =~= from_delta + rows.subrange(0, 0).filter(g.visible()));
        }
        if let Some(segment) = &self.nodes_segment {
            let m: usize = segment.node_count();
            let mut idx: usize = 0;
            while idx < m
                invariant
                    idx <= m,
                    m == segment.count(),
                    n == self.delta_nodes@.len(),
                    self.wf(),
                    g == self@,
                    pm == opt_pattern_texts(types),
                    adm == admitted_by(pm),
                    cty == counted_type_of(),
                    rows == node_rows(Some(segment.bytes())),
                    rows == g.seg_node_rows(),
                    from_delta == g.delta_nodes.filter(live_node()),
                    vis == from_delta + rows.subrange(0, idx as int).filter(g.visible()),
                    vis.len() <= n + idx,
                    tally_model(tally@) == tally_of(vis.map_values(cty).filter(adm)),
                decreases m - idx,
            {
                proof {
                    lemma_filter_step(rows, idx as int, g.visible());
                }
                if !segment.is_deleted(idx) {
                    let id = segment.get_id(idx).unwrap();
                    if self.delta_position(id).is_none() && !self.deleted_segment_ids.contains(&id) {
                        let t: &str = match segment.get_node_type(idx) {
                            Some(t) => t,
                            None => "UNKNOWN",
                        };
                        proof {
                            lemma_map_filter_push(vis, rows[idx as int], cty, adm);
                            let seen = vis.map_values(cty).filter(adm);
                            lemma_tally_bound(seen);
                            lemma_tally_push(seen, text(t@));
                            vis.map_values(cty).lemma_filter_len(adm);
                            assert forall|k: int| 0 <= k < tally@.len() implies (
                            #[trigger] tally@[k]).1 < u128::MAX by {
                                assert(tally_model(tally@)[k].1 == tally@[k].1);
                            }
                        }
                        if patterns_ok(types, t) {
                            bump_tally(&mut tally, t);
                        }
                        proof {
                            vis = vis.push(rows[idx as int]);
                        }
                    }
                }
                idx += 1;
            }
            assert(rows.subrange(0, m as int) =~= rows);
        } else {
            proof {
                assert(rows =~= Seq::<NodeModel>::empty());
            }
        }
        finish(tally)
    }

    /// The number of edges of each type, in the order in which the types
    /// first occur: among the delta's edges that are not tombstoned, then
    /// among the segment's edges that stand for their source, target and
    /// type. An edge without a type counts as `UNKNOWN`. With patterns,
    /// only the types that one of them matches are counted.
    pub fn count_edges_by_type(&self, edge_types: Option<&[String]>) -> (r: Vec<(String, usize)>)
        requires
            self.wf(),
        ensures
            counts_model(r@) == clipped(self@.edge_counts(opt_pattern_texts(edge_types))),
    {
        let ghost g = self@;
        let ghost all = g.all_edges();
        let ghost keep = g.counted();
        let ghost pm = opt_pattern_texts(edge_types);
        let ghost adm = admitted_by(pm);
        let ghost cty = counted_edge_type_of();
        let seg = self.seg_edge_count();
        let total = self.edge_count();
        let mut tally: Vec<(String, u128)> = Vec::new();
        let ghost mut got: Seq<EdgeModel> = Seq::empty();
        proof {
            lemma_filter_empty(adm);
            assert(got.map_values(cty) =~= Seq::<Seq<u8>>::empty());
            assert(tally_model(tally@) =~= tally_of(got.map_values(cty).filter(adm)));
        }
        let mut i: usize = seg;
        while i < total
            invariant
                seg <= i <= total,
                self.wf(),
                g == self@,
                all == g.all_edges(),
                total == all.len(),
                seg == g.seg_edge_rows().len(),
                keep == g.counted(),
                pm == opt_pattern_texts(edge_types),
                adm == admitted_by(pm),
                cty == counted_edge_type_of(),
                got == picked(all, keep, seg as int, i as int),
                got.len() <= i - seg,
                tally_model(tally@) == tally_of(got.map_values(cty).filter(adm)),
            decreases total - i,
        {
            if !self.edge_deleted_at(i) {
                let t: &str = match self.edge_type_at(i) {
                    Some(t) => t,
                    None => "UNKNOWN",
                };
                proof {
                    lemma_map_filter_push(got, all[i as int], cty, adm);
                    let seen = got.map_values(cty).filter(adm);
                    lemma_tally_bound(seen);
                    lemma_tally_push(seen, text(t@));
                    got.map_values(cty).lemma_filter_len(adm);
                    assert forall|k: int| 0 <= k < tally@.len() implies (#[trigger] tally@[k]).1
                        < u128::MAX by {
                        assert(tally_model(tally@)[k].1 == tally@[k].1);
                    }
                }
                if patterns_ok(edge_types, t) {
                    bump_tally(&mut tally, t);
                }
                proof {
                    got = got.push(all[i as int]);
                }
            }
            i += 1;
        }
        let ghost from_delta = got;
        let mut j: usize = 0;
        proof {
            assert(got =~= from_delta + picked(all, keep, 0, 0));
        }
        while j < seg
            invariant
                j <= seg <= total,
                self.wf(),
                g == self@,
                all == g.all_edges(),
                total == all.len(),
                seg == g.seg_edge_rows().len(),
                keep == g.counted(),
                pm == opt_pattern_texts(edge_types),
                adm == admitted_by(pm),
                cty == counted_edge_type_of(),
                from_delta == picked(all, keep, seg as int, total as int),
                from_delta.len() <= total - seg,
                got == from_delta + picked(all, keep, 0, j as int),
                got.len() <= total - seg + j,
                tally_model(tally@) == tally_of(got.map_values(cty).filter(adm)),
            decreases seg - j,
        {
            if self.stands_at(j, "UNKNOWN") {
                let t: &str = match self.edge_type_at(j) {
                    Some(t) => t,
                    None => "UNKNOWN",
                };
                proof {
                    lemma_map_filter_push(got, all[j as int], cty, adm);
                    let seen = got.map_values(cty).filter(adm);
                    lemma_tally_bound(seen);
                    lemma_tally_push(seen, text(t@));
                    got.map_values(cty).lemma_filter_len(adm);
                    assert forall|k: int| 0 <= k < tally@.len() implies (#[trigger] tally@[k]).1
                        < u128::MAX by {
                        assert(tally_model(tally@)[k].1 == tally@[k].1);
                    }
                }
                if patterns_ok(edge_types, t) {
                    bump_tally(&mut tally, t);
                }
                proof {
                    let before = got;
                    got = got.push(all[j as int]);
                    assert(got =~= from_delta + picked(all, keep, 0, j + 1));
                }
            }
            j += 1;
        }
        finish(tally)
    }

    /// The nodes that a flush writes.
    fn collect_nodes(&self) -> (r: Vec<NodeRecord>)
        requires
            self.wf(),
        ensures
            node_models(r@) == self@.flush_nodes(),
    {
        let ghost g = self@;
        let ghost rows = g.seg_node_rows();
        let mut out: Vec<NodeRecord> = Vec::new();
        proof {
            lemma_filter_empty(g.visible());
            assert(rows.subrange(0, 0) =~= Seq::<NodeModel>::empty());
            assert(node_models(out@) =~= rows.subrange(0, 0).filter(g.visible()));
        }
        if let Some(segment) = &self.nodes_segment {
            let m: usize = segment.node_count();
            let mut idx: usize = 0;
            while idx < m
                invariant
                    idx <= m,
                    m == segment.count(),
                    self.wf(),
                    g == self@,
                    rows == node_rows(Some(segment.bytes())),
                    rows == g.seg_node_rows(),
                    node_models(out@) == rows.subrange(0, idx as int).filter(g.visible()),
                decreases m - idx,
            {
                proof {
                    lemma_filter_step(rows, idx as int, g.visible());
                }
                if !segment.is_deleted(idx) {
                    let id = segment.get_id(idx).unwrap();
                    if self.delta_position(id).is_none() && !self.deleted_segment_ids.contains(&id) {
                        let node = segment.node_at(idx);
                        let ghost before = out@;
                        let ghost nm = node@;
                        out.push(node);
                        assert(node_models(out@) =~= node_models(before).push(nm));
                    }
                }
                idx += 1;
            }
            assert(rows.subrange(0, m as int) =~= rows);
        } else {
            proof {
                assert(rows =~= Seq::<NodeModel>::empty());
            }
        }
        let ghost from_segment = node_models(out@);
        let n: usize = self.delta_nodes.len();
        let mut i: usize = 0;
        proof {
            lemma_filter_empty(live_node());
            assert(g.delta_nodes.subrange(0, 0) =~= Seq::<NodeModel>::empty());
            assert(node_models(out@) =~= from_segment + g.delta_nodes.subrange(0, 0).filter(
                live_node(),
            ));
        }
        while i < n
            invariant
                i <= n,
                n == self.delta_nodes@.len(),
                g == self@,
                node_models(out@) == from_segment + g.delta_nodes.subrange(0, i as int).filter(
                    live_node(),
                ),
            decreases n - i,
        {
            let node = &self.delta_nodes[i];
            proof {
                assert(g.delta_nodes[i as int] == node@);
                lemma_filter_step(g.delta_nodes, i as int, live_node());
            }
            if !node.deleted {
                let ghost before = out@;
                out.push(node.clone());
                assert(node_models(out@) =~= node_models(before).push(node@));
            }
            i += 1;
        }
        assert(g.delta_nodes.subrange(0, n as int) =~= g.delta_nodes);
        out
    }

    /// The edges that a flush writes.
    fn collect_edges(&self) -> (r: Vec<EdgeRecord>)
        requires
            self.wf(),
        ensures
            edge_models(r@) == self@.flush_edges(),
    {
        let ghost g = self@;
        let ghost all = g.all_edges();
        let total: usize = self.edge_count();
        let mut out: Vec<EdgeRecord> = Vec::new();
        let mut i: usize = 0;
        proof {
            lemma_filter_empty(live_edge());
            assert(all.subrange(0, 0) =~= Seq::<EdgeModel>::empty());
            assert(edge_models(out@) =~= all.subrange(0, 0).filter(live_edge()));
        }
        while i < total
            invariant
                i <= total,
                total == all.len(),
                self.wf(),
                g == self@,
                all == g.all_edges(),
                edge_models(out@) == all.subrange(0, i as int).filter(live_edge()),
            decreases total - i,
        {
            proof {
                lemma_filter_step(all, i as int, live_edge());
            }
            if !self.edge_deleted_at(i) {
                let e = self.edge_record(i);
                let ghost before = out@;
                let ghost em = e@;
                out.push(e);
                assert(edge_models(out@) =~= edge_models(before).push(em));
            }
            i += 1;
        }
        assert(all.subrange(0, total as int) =~= all);
        out
    }

    /// Consolidates segments and delta into one snapshot. With an empty
    /// log there is nothing to do, and nothing is handed back. Else the
    /// images of the new segments are handed back for writing, and the
    /// engine goes on over them: its delta, its log and its set of
    /// deleted segment ids are empty, its operation count is 0, and its
    /// metadata hold the numbers of nodes and edges that were written.
    /// Fails with `InvalidFormat` exactly when the nodes or the edges
    /// cannot be written; the engine is then as it was.
    pub fn flush(&mut self) -> (r: Result<Option<Snapshot>, GraphError>)
        requires
            old(self).wf(),
        ensures
            final(self).wf(),
            final(self).spec_path() == old(self).spec_path(),
            old(self).log().len() == 0 ==> {
                &&& r matches Ok(None)
                &&& final(self)@ == old(self)@
                &&& final(self).log() == old(self).log()
                &&& final(self).ops() == old(self).ops()
            },
            old(self).log().len() > 0 ==> {
                &&& r.is_ok() == (nodes_encodable(old(self)@.flush_nodes()) && edges_encodable(
                    old(self)@.flush_edges(),
                ))
                &&& r matches Ok(s) ==> s matches Some(s) && s.nodes@ == encode_nodes(
                    old(self)@.flush_nodes(),
                ) && s.edges@ == encode_edges(old(self)@.flush_edges()) && final(self)@ == (
                GraphModel {
                    seg_nodes: Some(s.nodes@),
                    seg_edges: Some(s.edges@),
                    ..empty_graph()
                }) && final(self).log().len() == 0 && final(self).ops() == 0 && counts_kept(
                    old(self).spec_metadata(),
                    final(self).spec_metadata(),
                    old(self)@,
                )
                &&& r matches Err(e) ==> e is InvalidFormat && final(self)@ == old(self)@
                    && final(self).log() == old(self).log() && final(self).ops() == old(
                    self,
                ).ops()
            },
    {
        if self.delta_log.is_empty() {
            assert(self.log().len() == self.delta_log@.len());
            return Ok(None);
        }
        assert(self.log().len() == self.delta_log@.len());
        let all_nodes = self.collect_nodes();
        let all_edges = self.collect_edges();
        let writer = SegmentWriter::new(self.path.as_str());
        let nodes_image = match writer.write_nodes(all_nodes.as_slice()) {
            Ok(b) => b,
            Err(e) => {
                return Err(e);
            },
        };
        let edges_image = match writer.write_edges(all_edges.as_slice()) {
            Ok(b) => b,
            Err(e) => {
                return Err(e);
            },
        };
        proof {
            lemma_nodes_image(node_models(all_nodes@));
            lemma_edges_image(edge_models(all_edges@));
        }
        let nodes_segment = match NodesSegment::open(slice_to_vec(nodes_image.as_slice())) {
            Ok(s) => s,
            Err(e) => {
                return Err(e);
            },
        };
        let edges_segment = match EdgesSegment::open(slice_to_vec(edges_image.as_slice())) {
            Ok(s) => s,
            Err(e) => {
                return Err(e);
            },
        };
        let edges_segment = Some(edges_segment);
        let (adjacency, reverse_adjacency) = build_adjacency(&edges_segment);
        self.nodes_segment = Some(nodes_segment);
        self.edges_segment = edges_segment;
        self.adjacency = adjacency;
        self.reverse_adjacency = reverse_adjacency;
        self.delta_log.clear();
        self.delta_nodes.clear();
        self.delta_index.clear();
        self.delta_edges.clear();
        self.deleted_segment_ids.clear();
        self.metadata.node_count = all_nodes.len();
        self.metadata.edge_count = all_edges.len();
        self.metadata.updated_at = unix_now();
        self.ops_since_flush = 0;
        proof {
            assert(self@.delta_nodes =~= Seq::<NodeModel>::empty());
            assert(self@.delta_edges =~= Seq::<EdgeModel>::empty());
            assert(self@.all_edges() =~= self@.seg_edge_rows());
            assert(self.log() =~= Seq::<DeltaModel>::empty());
        }
        Ok(Some(Snapshot { nodes: nodes_image, edges: edges_image }))
    }

    /// The same as `flush`.
    pub fn compact(&mut self) -> (r: Result<Option<Snapshot>, GraphError>)
        requires
            old(self).wf(),
        ensures
            final(self).wf(),
            final(self).spec_path() == old(self).spec_path(),
            old(self).log().len() == 0 ==> {
                &&& r matches Ok(None)
                &&& final(self)@ == old(self)@
                &&& final(self).log() == old(self).log()
                &&& final(self).ops() == old(self).ops()
            },
            old(self).log().len() > 0 ==> {
                &&& r.is_ok() == (nodes_encodable(old(self)@.flush_nodes()) && edges_encodable(
                    old(self)@.flush_edges(),
                ))
                &&& r matches Ok(s) ==> s matches Some(s) && s.nodes@ == encode_nodes(
                    old(self)@.flush_nodes(),
                ) && s.edges@ == encode_edges(old(self)@.flush_edges()) && final(self)@ == (
                GraphModel {
                    seg_nodes: Some(s.nodes@),
                    seg_edges: Some(s.edges@),
                    ..empty_graph()
                }) && final(self).log().len() == 0 && final(self).ops() == 0 && counts_kept(
                    old(self).spec_metadata(),
                    final(self).spec_metadata(),
                    old(self)@,
                )
                &&& r matches Err(e) ==> e is InvalidFormat && final(self)@ == old(self)@
                    && final(self).log() == old(self).log() && final(self).ops() == old(
                    self,
                ).ops()
            },
    {
        self.flush()
    }

    /// When the memory was last looked at, in seconds.
    pub closed spec fn last_check(&self) -> Option<u64> {
        self.last_memory_check
    }

    /// A look at the memory is due at `now`: none was taken yet, or the
    /// last one lies at least five seconds back.
    pub open spec fn check_due(&self, now: u64) -> bool {
        match self.last_check() {
            None => true,
            Some(last) => now < last || now - last >= MEMORY_CHECK_INTERVAL_SECS,
        }
    }

    /// What the auto-flush policy asks for at `now` (in seconds): a flush
    /// if the operation count has reached its threshold; else a look at
    /// the memory if one is due, which is then recorded as taken; else
    /// nothing. The graph stays as it is.
    pub fn auto_flush_step(&mut self, now: u64) -> (r: AutoFlush)
        ensures
            final(self)@ == old(self)@,
            old(self).wf() ==> final(self).wf(),
            final(self).log() == old(self).log(),
            final(self).ops() == old(self).ops(),
            final(self).spec_path() == old(self).spec_path(),
            r == if old(self).ops() >= AUTO_FLUSH_THRESHOLD {
                AutoFlush::Flush
            } else if old(self).check_due(now) {
                AutoFlush::ProbeMemory
            } else {
                AutoFlush::Nothing
            },
            final(self).last_check() == if r == AutoFlush::ProbeMemory {
                Some(now)
            } else {
                old(self).last_check()
            },
    {
        if self.ops_since_flush >= AUTO_FLUSH_THRESHOLD {
            return AutoFlush::Flush;
        }
        let due = match self.last_memory_check {
            None => true,
            Some(last) => now < last || now - last >= MEMORY_CHECK_INTERVAL_SECS,
        };
        if due {
            self.last_memory_check = Some(now);
            AutoFlush::ProbeMemory
        } else {
            AutoFlush::Nothing
        }
    }

    /// Forgets everything: the delta, the segments and the log.
    pub fn clear(&mut self)
        ensures
            final(self).wf(),
            final(self)@ == empty_graph(),
            final(self).log().len() == 0,
            final(self).ops() == 0,
            final(self).spec_path() == old(self).spec_path(),
    {
        self.delta_log.clear();
        self.delta_nodes.clear();
        self.delta_index.clear();
        self.delta_edges.clear();
        self.adjacency.clear();
        self.reverse_adjacency.clear();
        self.nodes_segment = None;
        self.edges_segment = None;
        self.metadata = GraphMetadata::default();
        self.ops_since_flush = 0;
        self.deleted_segment_ids.clear();
        proof {
            assert(self@.delta_nodes =~= Seq::<NodeModel>::empty());
            assert(self@.delta_edges =~= Seq::<EdgeModel>::empty());
            assert(self@.all_edges() =~= Seq::<EdgeModel>::empty());
            assert(self.log() =~= Seq::<DeltaModel>::empty());
        }
    }
}

} // verus!
