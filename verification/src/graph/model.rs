//! The graph as contracts see it: what the segments and the delta hold,
//! and what each read answers from them.

use vstd::prelude::*;

use crate::storage::{EdgeModel, NodeModel, QueryModel};
use crate::storage::segment::{
    edge_deleted, edge_row, node_deleted, node_row, stored_edge_count, stored_node_count,
};
use crate::text::{decimal, pattern_matches, text};

verus! {

/// What an engine holds: the images of its two segments, the nodes and
/// edges of its delta in the order in which they came, and the ids of
/// segment nodes that were deleted since the last flush.
pub ghost struct GraphModel {
    pub seg_nodes: Option<Seq<u8>>,
    pub seg_edges: Option<Seq<u8>>,
    pub delta_nodes: Seq<NodeModel>,
    pub delta_edges: Seq<EdgeModel>,
    pub deleted_segment_ids: Set<u128>,
}

/// The nodes of a nodes image, each with its tombstone.
pub open spec fn node_rows(image: Option<Seq<u8>>) -> Seq<NodeModel> {
    match image {
        Some(b) => Seq::new(
            stored_node_count(b) as nat,
            |i: int| NodeModel { deleted: node_deleted(b, i), ..node_row(b, i) },
        ),
        None => Seq::empty(),
    }
}

/// The edges of an edges image, each with its tombstone.
pub open spec fn edge_rows(image: Option<Seq<u8>>) -> Seq<EdgeModel> {
    match image {
        Some(b) => Seq::new(
            stored_edge_count(b) as nat,
            |i: int| EdgeModel { deleted: edge_deleted(b, i), ..edge_row(b, i) },
        ),
        None => Seq::empty(),
    }
}

/// The first position among the first `n` nodes that holds `id`.
pub open spec fn position_of(nodes: Seq<NodeModel>, id: u128, n: int) -> Option<int>
    decreases n,
{
    if n <= 0 {
        None
    } else {
        match position_of(nodes, id, n - 1) {
            Some(i) => Some(i),
            None => if nodes[n - 1].id == id {
                Some(n - 1)
            } else {
                None
            },
        }
    }
}

/// No two nodes of the sequence have the same id.
pub open spec fn distinct_ids(nodes: Seq<NodeModel>) -> bool {
    forall|i: int, j: int|
        0 <= i < nodes.len() && 0 <= j < nodes.len() && nodes[i].id == nodes[j].id ==> i == j
}

/// A query field that asks for a text admits that text only.
pub open spec fn text_admits(q: Option<Seq<u8>>, v: Option<Seq<u8>>) -> bool {
    match q {
        None => true,
        Some(x) => v == Some(x),
    }
}

/// A type pattern admits a node type: a node without a type is admitted by
/// no pattern.
pub open spec fn type_admits(q: Option<Seq<u8>>, t: Option<Seq<u8>>) -> bool {
    match q {
        None => true,
        Some(p) => match t {
            Some(t) => pattern_matches(p, t),
            None => false,
        },
    }
}

/// The node passes every filter that the query sets.
pub open spec fn node_matches(q: QueryModel, n: NodeModel) -> bool {
    &&& q.version matches Some(v) ==> n.version == v
    &&& type_admits(q.node_type, n.node_type)
    &&& q.file_id matches Some(f) ==> n.file_id == f
    &&& text_admits(q.file, n.file)
    &&& q.exported matches Some(e) ==> n.exported == e
    &&& text_admits(q.name, n.name)
}

/// The edge's type is one of the listed types.
pub open spec fn type_listed(types: Seq<Seq<u8>>, t: Option<Seq<u8>>) -> bool {
    t matches Some(x) && types.contains(x)
}

/// A list of edge types as a filter: the empty list is no filter.
pub open spec fn as_filter(types: Seq<Seq<u8>>) -> Option<Seq<Seq<u8>>> {
    if types.len() == 0 {
        None
    } else {
        Some(types)
    }
}

/// An optional edge-type filter: no filter admits every edge, a list the
/// edges whose type it holds (an empty list none).
pub open spec fn filter_admits(types: Option<Seq<Seq<u8>>>, t: Option<Seq<u8>>) -> bool {
    match types {
        None => true,
        Some(ts) => type_listed(ts, t),
    }
}

/// The models of a list of type names.
pub open spec fn type_texts(types: Seq<&str>) -> Seq<Seq<u8>> {
    types.map_values(|s: &str| text(s@))
}

/// The models of a list of type names.
pub open spec fn string_texts(types: Seq<String>) -> Seq<Seq<u8>> {
    types.map_values(|s: String| text(s@))
}

/// The name under which a node or edge without a type is counted.
pub open spec fn unknown_type() -> Seq<u8> {
    text("UNKNOWN"@)
}

/// The type under which a node or edge is counted.
pub open spec fn counted_type(t: Option<Seq<u8>>) -> Seq<u8> {
    match t {
        Some(t) => t,
        None => unknown_type(),
    }
}

/// One of the patterns matches the type.
pub open spec fn any_matches(patterns: Seq<Seq<u8>>, t: Seq<u8>) -> bool {
    exists|i: int| 0 <= i < patterns.len() && pattern_matches(#[trigger] patterns[i], t)
}

/// A count filter admits a type: no filter admits all, a list those that
/// one of its patterns matches.
pub open spec fn patterns_admit(patterns: Option<Seq<Seq<u8>>>, t: Seq<u8>) -> bool {
    match patterns {
        None => true,
        Some(ps) => any_matches(ps, t),
    }
}

/// One more of type `t` in a tally: the entry of `t` goes up by one, or a
/// new entry with count 1 is added at the end.
pub open spec fn bump(tally: Seq<(Seq<u8>, nat)>, t: Seq<u8>) -> Seq<(Seq<u8>, nat)>
    decreases tally.len(),
{
    if tally.len() == 0 {
        seq![(t, 1nat)]
    } else if tally[0].0 == t {
        seq![(t, tally[0].1 + 1)] + tally.drop_first()
    } else {
        seq![tally[0]] + bump(tally.drop_first(), t)
    }
}

/// The tally of a list of types: each type with the number of times it
/// occurs, in the order of first occurrence.
pub open spec fn tally_of(types: Seq<Seq<u8>>) -> Seq<(Seq<u8>, nat)>
    decreases types.len(),
{
    if types.len() == 0 {
        Seq::empty()
    } else {
        bump(tally_of(types.drop_last()), types.last())
    }
}

/// What identifies an edge where edges are told apart: source, target and
/// type, an edge without a type counting as one of type `dflt`.
pub open spec fn key_with(e: EdgeModel, dflt: Seq<u8>) -> (u128, u128, Seq<u8>) {
    (
        e.src,
        e.dst,
        match e.edge_type {
            Some(t) => t,
            None => dflt,
        },
    )
}

/// Some edge between `lo` and `hi` that is not tombstoned has this key.
pub open spec fn key_between(
    key: (u128, u128, Seq<u8>),
    edges: Seq<EdgeModel>,
    lo: int,
    hi: int,
    dflt: Seq<u8>,
) -> bool {
    exists|j: int| lo <= j < hi && !(#[trigger] edges[j]).deleted && key_with(edges[j], dflt) == key
}

/// The elements between `lo` and `hi` whose index passes `keep`, in
/// order.
pub open spec fn picked<A>(s: Seq<A>, keep: spec_fn(int) -> bool, lo: int, hi: int) -> Seq<A>
    decreases hi - lo,
{
    if hi <= lo {
        Seq::empty()
    } else if keep(hi - 1) {
        picked(s, keep, lo, hi - 1).push(s[hi - 1])
    } else {
        picked(s, keep, lo, hi - 1)
    }
}

/// The edge without its type, if the type is the empty text.
pub open spec fn without_empty_type(e: EdgeModel) -> EdgeModel {
    EdgeModel { edge_type: unless_empty(e.edge_type), ..e }
}

/// The edge without its type, if the type is the empty text.
pub open spec fn typed_or_none() -> spec_fn(EdgeModel) -> EdgeModel {
    |e: EdgeModel| without_empty_type(e)
}

/// The type under which an edge is counted.
pub open spec fn counted_edge_type_of() -> spec_fn(EdgeModel) -> Seq<u8> {
    |e: EdgeModel| counted_type(e.edge_type)
}

/// The node is not tombstoned.
pub open spec fn live_node() -> spec_fn(NodeModel) -> bool {
    |n: NodeModel| !n.deleted
}

/// The node is not tombstoned and matches the query.
pub open spec fn live_match(q: QueryModel) -> spec_fn(NodeModel) -> bool {
    |n: NodeModel| !n.deleted && node_matches(q, n)
}

/// The id of a node.
pub open spec fn id_of() -> spec_fn(NodeModel) -> u128 {
    |n: NodeModel| n.id
}

/// The type under which a node is counted.
pub open spec fn counted_type_of() -> spec_fn(NodeModel) -> Seq<u8> {
    |n: NodeModel| counted_type(n.node_type)
}

/// The type passes the patterns.
pub open spec fn admitted_by(patterns: Option<Seq<Seq<u8>>>) -> spec_fn(Seq<u8>) -> bool {
    |t: Seq<u8>| patterns_admit(patterns, t)
}

/// The edge is not tombstoned.
pub open spec fn live_edge() -> spec_fn(EdgeModel) -> bool {
    |e: EdgeModel| !e.deleted
}

/// The target of an edge.
pub open spec fn dst_of() -> spec_fn(EdgeModel) -> u128 {
    |e: EdgeModel| e.dst
}

/// The source of an edge.
pub open spec fn src_of() -> spec_fn(EdgeModel) -> u128 {
    |e: EdgeModel| e.src
}

/// The edge leaves `id`, is not tombstoned and passes the filter.
pub open spec fn leaves_filtered(id: u128, types: Option<Seq<Seq<u8>>>) -> spec_fn(EdgeModel) -> bool {
    |e: EdgeModel| !e.deleted && e.src == id && filter_admits(types, e.edge_type)
}

/// The edge enters `id`, is not tombstoned and passes the filter.
pub open spec fn enters_filtered(id: u128, types: Option<Seq<Seq<u8>>>) -> spec_fn(EdgeModel) -> bool {
    |e: EdgeModel| !e.deleted && e.dst == id && filter_admits(types, e.edge_type)
}

/// The end of an edge that an adjacency list is keyed by: the source for
/// the forward lists, the target for the reverse lists.
pub open spec fn endpoint(e: EdgeModel, forward: bool) -> u128 {
    if forward {
        e.src
    } else {
        e.dst
    }
}

/// The edge at `i` belongs in the adjacency list of `id`: it has `id` at
/// the keyed end, and if it is a segment edge it is not tombstoned in the
/// image. (A delta edge stays listed when it is tombstoned: reads pass it
/// over.)
pub open spec fn listed(edges: Seq<EdgeModel>, seg_count: int, forward: bool, id: u128, i: int) -> bool {
    endpoint(edges[i], forward) == id && (i < seg_count ==> !edges[i].deleted)
}

/// The adjacency list of `id` over the first `n` edges: the indices of the
/// edges that belong in it, in rising order.
pub open spec fn index_list(
    edges: Seq<EdgeModel>,
    seg_count: int,
    forward: bool,
    id: u128,
    n: int,
) -> Seq<usize>
    decreases n,
{
    if n <= 0 {
        Seq::empty()
    } else if listed(edges, seg_count, forward, id, n - 1) {
        index_list(edges, seg_count, forward, id, n - 1).push((n - 1) as usize)
    } else {
        index_list(edges, seg_count, forward, id, n - 1)
    }
}

/// The elements at the first `k` indices of a list that pass `q`, in the
/// order of the list.
pub open spec fn gather<A>(s: Seq<A>, idxs: Seq<usize>, q: spec_fn(int) -> bool, k: int) -> Seq<A>
    decreases k,
{
    if k <= 0 {
        Seq::empty()
    } else if q(idxs[k - 1] as int) {
        gather(s, idxs, q, k - 1).push(s[idxs[k - 1] as int])
    } else {
        gather(s, idxs, q, k - 1)
    }
}

/// The type is one of those that mark an endpoint whatever else the node
/// holds.
pub open spec fn endpoint_type(t: Seq<u8>) -> bool {
    t == text("db:query"@) || t == text("http:request"@) || t == text("http:endpoint"@) || t
        == text("EXTERNAL"@) || t == text("fs:operation"@) || t == text("SIDE_EFFECT"@)
}

/// The node is an endpoint: its type marks it as one, or it is an exported
/// `FUNCTION`.
pub open spec fn endpoint_node(n: NodeModel) -> bool {
    let t = counted_type(n.node_type);
    endpoint_type(t) || (t == text("FUNCTION"@) && n.exported)
}

/// A text that is there, or the empty text.
pub open spec fn or_empty(t: Option<Seq<u8>>) -> Seq<u8> {
    match t {
        Some(t) => t,
        None => Seq::empty(),
    }
}

/// A text of at least one byte, or nothing.
pub open spec fn unless_empty(t: Option<Seq<u8>>) -> Option<Seq<u8>> {
    match t {
        Some(t) => if t.len() == 0 {
            None
        } else {
            Some(t)
        },
        None => None,
    }
}

/// The readable identifier of a node: `TYPE:name@file`; `TYPE:file` or
/// `TYPE:name` where only one of the two is there; `TYPE:` and the id in
/// decimal where neither is. A node without a type is of type `UNKNOWN`.
pub open spec fn identifier_of(n: NodeModel) -> Seq<u8> {
    let t = counted_type(n.node_type);
    let name = or_empty(n.name);
    let file = or_empty(n.file);
    if name.len() > 0 && file.len() > 0 {
        t + text(":"@) + name + text("@"@) + file
    } else if file.len() > 0 {
        t + text(":"@) + file
    } else if name.len() > 0 {
        t + text(":"@) + name
    } else {
        t + text(":"@) + decimal(n.id as nat)
    }
}

/// The node is not tombstoned and of this version.
pub open spec fn live_of_version(version: Seq<u8>) -> spec_fn(NodeModel) -> bool {
    |n: NodeModel| !n.deleted && n.version == version
}

/// The nodes after `delete_version`: those of the version get their
/// tombstone.
pub open spec fn nodes_version_deleted(nodes: Seq<NodeModel>, version: Seq<u8>) -> Seq<NodeModel> {
    nodes.map_values(
        |n: NodeModel|
            if n.version == version {
                NodeModel { deleted: true, ..n }
            } else {
                n
            },
    )
}

/// The edges after `delete_version`: those of the version get their
/// tombstone.
pub open spec fn edges_version_deleted(edges: Seq<EdgeModel>, version: Seq<u8>) -> Seq<EdgeModel> {
    edges.map_values(
        |e: EdgeModel|
            if e.version == version {
                EdgeModel { deleted: true, ..e }
            } else {
                e
            },
    )
}

/// The version of staged edits.
pub open spec fn local_version() -> Seq<u8> {
    text("__local"@)
}

/// The version of what is settled.
pub open spec fn main_version() -> Seq<u8> {
    text("main"@)
}

/// Some staged node among the first `k` stands in for the node of `id`.
pub open spec fn replaced_by_local(nodes: Seq<NodeModel>, id: u128, k: int) -> bool {
    exists|j: int|
        0 <= j < k && (#[trigger] nodes[j]).version == local_version() && nodes[j].replaces == Some(
            id,
        )
}

/// The nodes after staged edits were promoted: a node that a staged node
/// stands in for gets its tombstone, and every staged node becomes a
/// settled one that stands in for nothing.
pub open spec fn nodes_promoted(nodes: Seq<NodeModel>) -> Seq<NodeModel> {
    Seq::new(
        nodes.len(),
        |i: int|
            {
                let n = nodes[i];
                let deleted = n.deleted || replaced_by_local(nodes, n.id, nodes.len() as int);
                if n.version == local_version() {
                    NodeModel { deleted, version: main_version(), replaces: None, ..n }
                } else {
                    NodeModel { deleted, ..n }
                }
            },
    )
}

/// The edges after staged edits were promoted: every staged edge becomes
/// a settled one.
pub open spec fn edges_promoted(edges: Seq<EdgeModel>) -> Seq<EdgeModel> {
    edges.map_values(
        |e: EdgeModel|
            if e.version == local_version() {
                EdgeModel { version: main_version(), ..e }
            } else {
                e
            },
    )
}

/// The neighbour function of a forward walk over the edges that pass the
/// type list.
pub open spec fn forward_step(g: GraphModel, types: Seq<Seq<u8>>) -> spec_fn(u128) -> Seq<u128> {
    |id: u128| g.neighbors(id, types)
}

/// The neighbour function of a backward walk over the edges that pass the
/// type list.
pub open spec fn backward_step(g: GraphModel, types: Seq<Seq<u8>>) -> spec_fn(u128) -> Seq<u128> {
    |id: u128| g.reverse_neighbors(id, types)
}

/// The edge at each of the indices.
pub open spec fn edges_at(edges: Seq<EdgeModel>, idxs: Seq<usize>) -> Seq<EdgeModel> {
    idxs.map_values(|i: usize| edges[i as int])
}

/// The edge that `filter` asks for: forward those that leave `id`,
/// backward those that enter it.
pub open spec fn wanted(forward: bool, id: u128, types: Option<Seq<Seq<u8>>>) -> spec_fn(
    EdgeModel,
) -> bool {
    if forward {
        leaves_filtered(id, types)
    } else {
        enters_filtered(id, types)
    }
}

impl GraphModel {
    /// The segment node is visible.
    pub open spec fn visible(self) -> spec_fn(NodeModel) -> bool {
        |n: NodeModel| self.seg_visible(n)
    }

    /// The segment node is visible and matches the query.
    pub open spec fn visible_match(self, q: QueryModel) -> spec_fn(NodeModel) -> bool {
        |n: NodeModel| self.seg_visible(n) && node_matches(q, n)
    }

    /// The adjacency list of `id`: forward by source, reverse by target.
    pub open spec fn adjacency_list(self, forward: bool, id: u128) -> Seq<usize> {
        index_list(
            self.all_edges(),
            self.seg_edge_rows().len() as int,
            forward,
            id,
            self.all_edges().len() as int,
        )
    }

    /// The nodes of the segment, each with its tombstone.
    pub open spec fn seg_node_rows(self) -> Seq<NodeModel> {
        node_rows(self.seg_nodes)
    }

    /// The edges of the segment, each with its tombstone.
    pub open spec fn seg_edge_rows(self) -> Seq<EdgeModel> {
        edge_rows(self.seg_edges)
    }

    /// Every edge: those of the segment, then those of the delta. An edge's
    /// position in this sequence is its index in the adjacency lists.
    pub open spec fn all_edges(self) -> Seq<EdgeModel> {
        self.seg_edge_rows() + self.delta_edges
    }

    /// The delta holds a node of this id.
    pub open spec fn in_delta(self, id: u128) -> bool {
        position_of(self.delta_nodes, id, self.delta_nodes.len() as int).is_some()
    }

    /// A segment node that reads see: not tombstoned in the image, not
    /// shadowed by the delta, and not deleted since the last flush.
    pub open spec fn seg_visible(self, n: NodeModel) -> bool {
        !n.deleted && !self.in_delta(n.id) && !self.deleted_segment_ids.contains(n.id)
    }

    /// The nodes that reads see: the delta's nodes that are not
    /// tombstoned, then the segment's nodes that are visible.
    pub open spec fn visible_nodes(self) -> Seq<NodeModel> {
        self.delta_nodes.filter(live_node()) + self.seg_node_rows().filter(self.visible())
    }

    /// What `get_node` answers: the delta's node of this id unless it is
    /// tombstoned; else, unless the id was deleted since the last flush,
    /// the first segment node of this id unless it is tombstoned.
    pub open spec fn get_node(self, id: u128) -> Option<NodeModel> {
        match position_of(self.delta_nodes, id, self.delta_nodes.len() as int) {
            Some(i) => if self.delta_nodes[i].deleted {
                None
            } else {
                Some(self.delta_nodes[i])
            },
            None => if self.deleted_segment_ids.contains(id) {
                None
            } else {
                match position_of(self.seg_node_rows(), id, self.seg_node_rows().len() as int) {
                    Some(i) => if self.seg_node_rows()[i].deleted {
                        None
                    } else {
                        Some(self.seg_node_rows()[i])
                    },
                    None => None,
                }
            },
        }
    }

    /// What `find_by_attr` answers: the ids of the visible nodes that
    /// match, the delta's first.
    pub open spec fn find(self, q: QueryModel) -> Seq<u128> {
        (self.delta_nodes.filter(live_match(q)) + self.seg_node_rows().filter(
            self.visible_match(q),
        )).map_values(id_of())
    }

    /// What `neighbors` answers: the targets of the edges that leave `id`,
    /// are not tombstoned and pass the type list, in index order. An empty
    /// list admits every type.
    pub open spec fn neighbors(self, id: u128, types: Seq<Seq<u8>>) -> Seq<u128> {
        self.all_edges().filter(leaves_filtered(id, as_filter(types))).map_values(dst_of())
    }

    /// What `reverse_neighbors` answers: the sources of the edges that
    /// enter `id`, are not tombstoned and pass the type list, in index
    /// order. An empty list admits every type.
    pub open spec fn reverse_neighbors(self, id: u128, types: Seq<Seq<u8>>) -> Seq<u128> {
        self.all_edges().filter(enters_filtered(id, as_filter(types))).map_values(src_of())
    }

    /// What `get_outgoing_edges` answers: the edges that leave `id`, are
    /// not tombstoned and pass the filter; the delta's first, then the
    /// segment's.
    pub open spec fn outgoing_edges(self, id: u128, types: Option<Seq<Seq<u8>>>) -> Seq<EdgeModel> {
        self.delta_edges.filter(leaves_filtered(id, types)) + self.seg_edge_rows().filter(
            leaves_filtered(id, types),
        )
    }

    /// What `get_incoming_edges` answers: the edges that enter `id`, are
    /// not tombstoned and pass the filter, in index order.
    pub open spec fn incoming_edges(self, id: u128, types: Option<Seq<Seq<u8>>>) -> Seq<EdgeModel> {
        self.all_edges().filter(enters_filtered(id, types))
    }

    /// The edge at global index `i` stands for its key: it is not
    /// tombstoned, and no edge that takes precedence has the same key. A
    /// later delta edge takes precedence over a delta edge; every delta
    /// edge and every earlier segment edge takes precedence over a segment
    /// edge.
    pub open spec fn edge_stands(self, i: int, dflt: Seq<u8>) -> bool {
        let all = self.all_edges();
        let seg = self.seg_edge_rows().len() as int;
        let key = key_with(all[i], dflt);
        if i < seg {
            !all[i].deleted && !key_between(key, all, seg, all.len() as int, dflt) && !key_between(
                key,
                all,
                0,
                i,
                dflt,
            )
        } else {
            !all[i].deleted && !key_between(key, all, i + 1, all.len() as int, dflt)
        }
    }

    /// The edge at global index `i` stands for its key.
    pub open spec fn stands(self, dflt: Seq<u8>) -> spec_fn(int) -> bool {
        |i: int| self.edge_stands(i, dflt)
    }

    /// The edge at global index `i` is counted: a delta edge if it is not
    /// tombstoned; a segment edge if it stands for its key.
    pub open spec fn counted(self) -> spec_fn(int) -> bool {
        |i: int|
            if i < self.seg_edge_rows().len() {
                self.edge_stands(i, unknown_type())
            } else {
                !self.all_edges()[i].deleted
            }
    }

    /// What `get_all_edges` answers: one edge for each key of source,
    /// target and type that an edge that is not tombstoned has; first
    /// those that the delta stands for, then those that the segment
    /// stands for, each in index order. An empty type reads as no type.
    pub open spec fn distinct_edges(self) -> Seq<EdgeModel> {
        let all = self.all_edges();
        let seg = self.seg_edge_rows().len() as int;
        (picked(all, self.stands(Seq::empty()), seg, all.len() as int) + picked(
            all,
            self.stands(Seq::empty()),
            0,
            seg,
        )).map_values(typed_or_none())
    }

    /// The types under which edges are counted, in the order of the
    /// edges: those of the delta's edges that are not tombstoned, then
    /// those of the segment's edges that stand for their key; of these,
    /// the types that pass the patterns.
    pub open spec fn counted_edge_types(self, patterns: Option<Seq<Seq<u8>>>) -> Seq<Seq<u8>> {
        let all = self.all_edges();
        let seg = self.seg_edge_rows().len() as int;
        (picked(all, self.counted(), seg, all.len() as int) + picked(
            all,
            self.counted(),
            0,
            seg,
        )).map_values(counted_edge_type_of()).filter(admitted_by(patterns))
    }

    /// What `count_edges_by_type` answers.
    pub open spec fn edge_counts(self, patterns: Option<Seq<Seq<u8>>>) -> Seq<(Seq<u8>, nat)> {
        tally_of(self.counted_edge_types(patterns))
    }

    /// The nodes that a flush writes: the segment's visible nodes, then
    /// the delta's nodes that are not tombstoned. No id occurs twice where
    /// none occurs twice in the segment.
    pub open spec fn flush_nodes(self) -> Seq<NodeModel> {
        self.seg_node_rows().filter(self.visible()) + self.delta_nodes.filter(live_node())
    }

    /// The edges that a flush writes: every edge that is not tombstoned,
    /// the segment's first, then the delta's.
    pub open spec fn flush_edges(self) -> Seq<EdgeModel> {
        self.all_edges().filter(live_edge())
    }

    /// What `is_endpoint` answers.
    pub open spec fn is_endpoint(self, id: u128) -> bool {
        match self.get_node(id) {
            Some(n) => endpoint_node(n),
            None => false,
        }
    }

    /// What `get_node_strings_with_metadata` answers: file, name and
    /// metadata of the node that reads see, each only if it has at least
    /// one byte; nothing of a node that reads do not see.
    pub open spec fn node_strings(self, id: u128) -> (
        Option<Seq<u8>>,
        Option<Seq<u8>>,
        Option<Seq<u8>>,
    ) {
        match self.get_node(id) {
            Some(n) => (unless_empty(n.file), unless_empty(n.name), unless_empty(n.metadata)),
            None => (None, None, None),
        }
    }

    /// What `get_nodes_by_version` answers: the ids of the delta's nodes
    /// of this version that are not tombstoned.
    pub open spec fn nodes_by_version(self, version: Seq<u8>) -> Seq<u128> {
        self.delta_nodes.filter(live_of_version(version)).map_values(id_of())
    }

    /// The types under which the visible nodes that pass the patterns are
    /// counted, in the order of the nodes.
    pub open spec fn counted_node_types(self, patterns: Option<Seq<Seq<u8>>>) -> Seq<Seq<u8>> {
        self.visible_nodes().map_values(counted_type_of()).filter(admitted_by(patterns))
    }

    /// What `count_nodes_by_type` answers.
    pub open spec fn node_counts(self, patterns: Option<Seq<Seq<u8>>>) -> Seq<(Seq<u8>, nat)> {
        tally_of(self.counted_node_types(patterns))
    }
}

/// Filtering after one more element.
pub proof fn lemma_filter_push<A>(s: Seq<A>, x: A, p: spec_fn(A) -> bool)
    ensures
        s.push(x).filter(p) == if p(x) {
            s.filter(p).push(x)
        } else {
            s.filter(p)
        },
{
    reveal(Seq::filter);
    assert(s.push(x).drop_last() =~= s);
}

/// Filtering nothing.
pub proof fn lemma_filter_empty<A>(p: spec_fn(A) -> bool)
    ensures
        Seq::<A>::empty().filter(p) == Seq::<A>::empty(),
{
    reveal(Seq::filter);
}

/// Filtering a prefix that is one longer.
pub proof fn lemma_filter_step<A>(s: Seq<A>, k: int, p: spec_fn(A) -> bool)
    requires
        0 <= k < s.len(),
    ensures
        s.subrange(0, k + 1).filter(p) == if p(s[k]) {
            s.subrange(0, k).filter(p).push(s[k])
        } else {
            s.subrange(0, k).filter(p)
        },
{
    assert(s.subrange(0, k + 1) =~= s.subrange(0, k).push(s[k]));
    lemma_filter_push(s.subrange(0, k), s[k], p);
}

/// The position that `position_of` finds holds the id, and no earlier one
/// does; where it finds none, no position holds it.
pub proof fn lemma_position_of(nodes: Seq<NodeModel>, id: u128, n: int)
    ensures
        position_of(nodes, id, n) matches Some(i) ==> 0 <= i < n && nodes[i].id == id && forall|
            j: int,
        |
            0 <= j < i ==> nodes[j].id != id,
        position_of(nodes, id, n).is_none() ==> forall|j: int| 0 <= j < n ==> nodes[j].id != id,
    decreases n,
{
    if n > 0 {
        lemma_position_of(nodes, id, n - 1);
    }
}


/// An adjacency list depends only on the ends of the edges and on the
/// tombstones of the segment edges.
pub proof fn lemma_index_list_same(
    a: Seq<EdgeModel>,
    b: Seq<EdgeModel>,
    seg_count: int,
    forward: bool,
    id: u128,
    n: int,
)
    requires
        0 <= n <= a.len(),
        n <= b.len(),
        forall|i: int|
            0 <= i < n ==> endpoint(#[trigger] a[i], forward) == endpoint(b[i], forward) && (i
                < seg_count ==> a[i].deleted == b[i].deleted),
    ensures
        index_list(a, seg_count, forward, id, n) == index_list(b, seg_count, forward, id, n),
    decreases n,
{
    if n > 0 {
        lemma_index_list_same(a, b, seg_count, forward, id, n - 1);
        assert(endpoint(a[n - 1], forward) == endpoint(b[n - 1], forward));
    }
}

/// Every index of an adjacency list is the index of an edge.
pub proof fn lemma_index_list_bound(
    edges: Seq<EdgeModel>,
    seg_count: int,
    forward: bool,
    id: u128,
    n: int,
)
    requires
        0 <= n <= usize::MAX,
    ensures
        forall|k: int|
            0 <= k < index_list(edges, seg_count, forward, id, n).len() ==> (#[trigger] index_list(
                edges,
                seg_count,
                forward,
                id,
                n,
            )[k]) < n,
    decreases n,
{
    if n > 0 {
        lemma_index_list_bound(edges, seg_count, forward, id, n - 1);
        let list = index_list(edges, seg_count, forward, id, n);
        let shorter = index_list(edges, seg_count, forward, id, n - 1);
        assert forall|k: int| 0 <= k < list.len() implies (#[trigger] list[k]) < n by {
            if k < shorter.len() {
                assert(list[k] == shorter[k]);
            }
        }
    }
}

/// Going through the adjacency list of `id` and keeping what passes `q`
/// gives the edges between `lo` and `hi` that pass `f`, where `f` is what
/// `q` asks of a listed edge within that range, and no listed edge
/// outside it passes `q`.
pub proof fn lemma_gather_index_list(
    edges: Seq<EdgeModel>,
    seg_count: int,
    forward: bool,
    id: u128,
    n: int,
    q: spec_fn(int) -> bool,
    f: spec_fn(EdgeModel) -> bool,
    lo: int,
    hi: int,
)
    requires
        0 <= lo <= hi <= edges.len(),
        0 <= n <= edges.len(),
        n <= usize::MAX,
        forall|i: int|
            lo <= i < hi ==> (listed(edges, seg_count, forward, id, i) && q(i)) == f(
                #[trigger] edges[i],
            ),
        forall|i: int|
            0 <= i < edges.len() && !(lo <= i < hi) ==> !(listed(edges, seg_count, forward, id, i)
                && #[trigger] q(i)),
    ensures
        gather(
            edges,
            index_list(edges, seg_count, forward, id, n),
            q,
            index_list(edges, seg_count, forward, id, n).len() as int,
        ) == edges.subrange(lo, if n < lo {
            lo
        } else if n < hi {
            n
        } else {
            hi
        }).filter(f),
    decreases n,
{
    let list = index_list(edges, seg_count, forward, id, n);
    if n <= 0 {
        lemma_filter_empty(f);
        assert(edges.subrange(lo, lo) =~= Seq::<EdgeModel>::empty());
    } else {
        let shorter = index_list(edges, seg_count, forward, id, n - 1);
        lemma_gather_index_list(edges, seg_count, forward, id, n - 1, q, f, lo, hi);
        let i = n - 1;
        if listed(edges, seg_count, forward, id, i) {
            assert(list == shorter.push(i as usize));
            lemma_gather_prefix(edges, shorter, list, q, shorter.len() as int);
        }
        if lo <= i < hi {
            assert(edges.subrange(lo, n) =~= edges.subrange(lo, i).push(edges[i]));
            lemma_filter_push(edges.subrange(lo, i), edges[i], f);
        } else {
            assert(!(listed(edges, seg_count, forward, id, i) && q(i)));
            if i < lo {
                lemma_filter_empty(f);
                assert(edges.subrange(lo, lo) =~= Seq::<EdgeModel>::empty());
            }
        }
    }
}

/// Gathering over a prefix of a list does not look at the rest of it.
pub proof fn lemma_gather_prefix<A>(
    s: Seq<A>,
    a: Seq<usize>,
    b: Seq<usize>,
    q: spec_fn(int) -> bool,
    k: int,
)
    requires
        0 <= k <= a.len(),
        k <= b.len(),
        forall|i: int| 0 <= i < k ==> a[i] == b[i],
    ensures
        gather(s, a, q, k) == gather(s, b, q, k),
    decreases k,
{
    if k > 0 {
        lemma_gather_prefix(s, a, b, q, k - 1);
    }
}


/// Where the first `i` entries of a tally are of other types, one more of
/// type `t` leaves them as they are.
pub proof fn lemma_bump_skip(tally: Seq<(Seq<u8>, nat)>, t: Seq<u8>, i: int)
    requires
        0 <= i <= tally.len(),
        forall|j: int| 0 <= j < i ==> (#[trigger] tally[j]).0 != t,
    ensures
        bump(tally, t) == tally.subrange(0, i) + bump(tally.subrange(i, tally.len() as int), t),
    decreases i,
{
    if i == 0 {
        assert(tally.subrange(0, tally.len() as int) =~= tally);
        assert(tally.subrange(0, 0) + bump(tally, t) =~= bump(tally, t));
    } else {
        let rest = tally.drop_first();
        assert forall|j: int| 0 <= j < i - 1 implies (#[trigger] rest[j]).0 != t by {
            assert(rest[j] == tally[j + 1]);
        }
        lemma_bump_skip(rest, t, i - 1);
        assert(tally[0].0 != t);
        assert(rest.subrange(i - 1, rest.len() as int) =~= tally.subrange(i, tally.len() as int));
        assert(seq![tally[0]] + rest.subrange(0, i - 1) =~= tally.subrange(0, i));
        assert(bump(tally, t) =~= tally.subrange(0, i) + bump(
            tally.subrange(i, tally.len() as int),
            t,
        ));
    }
}

/// One more in a tally raises no count by more than one, and adds at most
/// one entry.
pub proof fn lemma_bump_bound(tally: Seq<(Seq<u8>, nat)>, t: Seq<u8>, b: nat)
    requires
        forall|k: int| 0 <= k < tally.len() ==> (#[trigger] tally[k]).1 <= b,
    ensures
        forall|k: int| 0 <= k < bump(tally, t).len() ==> (#[trigger] bump(tally, t)[k]).1 <= b + 1,
        tally.len() <= bump(tally, t).len() <= tally.len() + 1,
    decreases tally.len(),
{
    if tally.len() > 0 && tally[0].0 != t {
        let rest = tally.drop_first();
        assert forall|k: int| 0 <= k < rest.len() implies (#[trigger] rest[k]).1 <= b by {
            assert(rest[k] == tally[k + 1]);
        }
        lemma_bump_bound(rest, t, b);
        let r = bump(tally, t);
        assert forall|k: int| 0 <= k < r.len() implies (#[trigger] r[k]).1 <= b + 1 by {
            if k > 0 {
                assert(r[k] == bump(rest, t)[k - 1]);
            }
        }
    } else if tally.len() > 0 {
        let r = bump(tally, t);
        assert forall|k: int| 0 <= k < r.len() implies (#[trigger] r[k]).1 <= b + 1 by {
            if k > 0 {
                assert(r[k] == tally[k]);
            }
        }
    }
}

/// No count of a tally exceeds the number of types that were counted.
pub proof fn lemma_tally_bound(types: Seq<Seq<u8>>)
    ensures
        forall|k: int|
            0 <= k < tally_of(types).len() ==> (#[trigger] tally_of(types)[k]).1 <= types.len(),
    decreases types.len(),
{
    if types.len() > 0 {
        lemma_tally_bound(types.drop_last());
        lemma_bump_bound(tally_of(types.drop_last()), types.last(), (types.len() - 1) as nat);
    }
}


/// Mapping and filtering after one more element.
pub proof fn lemma_map_filter_push<A, B>(
    s: Seq<A>,
    x: A,
    f: spec_fn(A) -> B,
    p: spec_fn(B) -> bool,
)
    ensures
        s.push(x).map_values(f).filter(p) == if p(f(x)) {
            s.map_values(f).filter(p).push(f(x))
        } else {
            s.map_values(f).filter(p)
        },
{
    assert(s.push(x).map_values(f) =~= s.map_values(f).push(f(x)));
    lemma_filter_push(s.map_values(f), f(x), p);
}

/// The tally after one more type.
pub proof fn lemma_tally_push(types: Seq<Seq<u8>>, t: Seq<u8>)
    ensures
        tally_of(types.push(t)) == bump(tally_of(types), t),
{
    assert(types.push(t).drop_last() =~= types);
}


/// Filtering by two tests, where the second asks all that the first asks,
/// is filtering by the second.
pub proof fn lemma_filter_filter<A>(s: Seq<A>, p: spec_fn(A) -> bool, q: spec_fn(A) -> bool)
    requires
        forall|x: A| #[trigger] q(x) ==> p(x),
    ensures
        s.filter(p).filter(q) == s.filter(q),
    decreases s.len(),
{
    reveal(Seq::filter);
    if s.len() > 0 {
        lemma_filter_filter(s.drop_last(), p, q);
        if p(s.last()) {
            lemma_filter_push(s.drop_last().filter(p), s.last(), q);
        }
    }
}

/// Filtering by two tests that agree on every element gives the same.
pub proof fn lemma_filter_same<A>(s: Seq<A>, p: spec_fn(A) -> bool, q: spec_fn(A) -> bool)
    requires
        forall|i: int| 0 <= i < s.len() ==> p(#[trigger] s[i]) == q(s[i]),
    ensures
        s.filter(p) == s.filter(q),
    decreases s.len(),
{
    reveal(Seq::filter);
    if s.len() > 0 {
        let front = s.drop_last();
        assert forall|i: int| 0 <= i < front.len() implies p(#[trigger] front[i]) == q(
            front[i],
        ) by {
            assert(front[i] == s[i]);
        }
        lemma_filter_same(front, p, q);
        assert(s.last() == s[s.len() - 1]);
    }
}

/// Two sequences of the same length whose elements pass two tests alike,
/// and are mapped alike where they pass, give the same when they are
/// filtered and mapped.
pub proof fn lemma_filter_map_agree<A, B>(
    a: Seq<A>,
    b: Seq<A>,
    p: spec_fn(A) -> bool,
    q: spec_fn(A) -> bool,
    f: spec_fn(A) -> B,
)
    requires
        a.len() == b.len(),
        forall|i: int| 0 <= i < a.len() ==> p(#[trigger] a[i]) == q(b[i]),
        forall|i: int| 0 <= i < a.len() && p(#[trigger] a[i]) ==> f(a[i]) == f(b[i]),
    ensures
        a.filter(p).map_values(f) == b.filter(q).map_values(f),
    decreases a.len(),
{
    reveal(Seq::filter);
    if a.len() > 0 {
        let fa = a.drop_last();
        let fb = b.drop_last();
        assert forall|i: int| 0 <= i < fa.len() implies p(#[trigger] fa[i]) == q(fb[i]) by {
            assert(fa[i] == a[i]);
            assert(fb[i] == b[i]);
        }
        assert forall|i: int| 0 <= i < fa.len() && p(#[trigger] fa[i]) implies f(fa[i]) == f(
            fb[i],
        ) by {
            assert(fa[i] == a[i]);
            assert(fb[i] == b[i]);
        }
        lemma_filter_map_agree(fa, fb, p, q, f);
        assert(a.last() == a[a.len() - 1]);
        assert(b.last() == b[b.len() - 1]);
        if p(a.last()) {
            assert(a.filter(p).map_values(f) =~= fa.filter(p).map_values(f).push(f(a.last())));
            assert(b.filter(q).map_values(f) =~= fb.filter(q).map_values(f).push(f(b.last())));
        }
    } else {
        assert(a.filter(p).map_values(f) =~= b.filter(q).map_values(f));
    }
}

/// An index is in an adjacency list exactly if the edge at the index
/// belongs in the list.
pub proof fn lemma_index_list_members(
    edges: Seq<EdgeModel>,
    seg_count: int,
    forward: bool,
    id: u128,
    n: int,
    i: int,
)
    requires
        0 <= n <= usize::MAX,
    ensures
        index_list(edges, seg_count, forward, id, n).contains(i as usize) && 0 <= i <= usize::MAX
            <==> 0 <= i < n && listed(edges, seg_count, forward, id, i),
    decreases n,
{
    if n > 0 {
        lemma_index_list_members(edges, seg_count, forward, id, n - 1, i);
        let list = index_list(edges, seg_count, forward, id, n);
        let shorter = index_list(edges, seg_count, forward, id, n - 1);
        if listed(edges, seg_count, forward, id, n - 1) {
            assert(list == shorter.push((n - 1) as usize));
            if 0 <= i <= usize::MAX && list.contains(i as usize) {
                let k = choose|k: int| 0 <= k < list.len() && list[k] == i as usize;
                if k < shorter.len() {
                    assert(shorter[k] == i as usize);
                }
            }
            if 0 <= i < n && listed(edges, seg_count, forward, id, i) {
                if i == n - 1 {
                    assert(list[shorter.len() as int] == i as usize);
                } else {
                    let k = choose|k: int| 0 <= k < shorter.len() && shorter[k] == i as usize;
                    assert(list[k] == i as usize);
                }
            }
        }
    }
}

} // verus!
