//! What holds of the graph across its operations: the delta shadows the
//! segment, deleted nodes are not seen, wildcards match prefixes, and a
//! flush changes no answer.

use vstd::prelude::*;
use vstd::seq_lib::*;
use vstd::utf8::*;

use crate::graph::engine::{empty_graph, upsert, with_node_deleted};
use crate::graph::model::{
    as_filter, distinct_ids, dst_of, edge_rows, enters_filtered, id_of, leaves_filtered,
    lemma_filter_empty, lemma_filter_filter, lemma_filter_map_agree, lemma_filter_same,
    lemma_position_of, live_edge, live_match, live_node, node_matches, position_of,
    src_of, GraphModel,
};
use crate::storage::{empty_query, EdgeModel, NodeModel, QueryModel};
use crate::storage::round_trip::{
    edge_read_back, edge_texts_nonempty, edge_texts_valid, lemma_edges_image,
    lemma_edges_round_trip, lemma_nodes_image, lemma_nodes_round_trip, node_read_back,
    node_texts_nonempty, node_texts_valid,
};
use crate::storage::writer::{edges_encodable, encode_edges, encode_nodes, nodes_encodable};
use crate::text::{is_prefix, pattern_matches, strip_stars};

verus! {

/// A node of the delta that is not tombstoned is what `get_node` answers
/// for its id, whatever the segment holds.
pub proof fn lemma_delta_shadows_segment(g: GraphModel, i: int)
    requires
        distinct_ids(g.delta_nodes),
        0 <= i < g.delta_nodes.len(),
        !g.delta_nodes[i].deleted,
    ensures
        g.get_node(g.delta_nodes[i].id) == Some(g.delta_nodes[i]),
{
    lemma_position_of(g.delta_nodes, g.delta_nodes[i].id, g.delta_nodes.len() as int);
}

/// After a node that is not tombstoned was added, `get_node` answers it.
pub proof fn lemma_added_node_is_found(g: GraphModel, n: NodeModel)
    requires
        !n.deleted,
    ensures
        (GraphModel { delta_nodes: upsert(g.delta_nodes, n), ..g }).get_node(n.id) == Some(n),
{
    let before = g.delta_nodes;
    let after = upsert(before, n);
    lemma_position_of(before, n.id, before.len() as int);
    lemma_position_of(after, n.id, after.len() as int);
    match position_of(before, n.id, before.len() as int) {
        Some(i) => {
            assert(after[i] == n);
            let j = position_of(after, n.id, after.len() as int)->0;
            if j < i {
                assert(after[j] == before[j]);
            }
        },
        None => {
            assert(after[before.len() as int] == n);
            let j = position_of(after, n.id, after.len() as int)->0;
            if j < before.len() {
                assert(after[j] == before[j]);
            }
        },
    }
}

/// An element of a filtered and mapped sequence comes from an element
/// that passes the filter.
proof fn lemma_filter_map_source<A, B>(s: Seq<A>, p: spec_fn(A) -> bool, f: spec_fn(A) -> B, y: B)
    requires
        s.filter(p).map_values(f).contains(y),
    ensures
        exists|i: int| 0 <= i < s.len() && p(#[trigger] s[i]) && f(s[i]) == y,
{
    let m = s.filter(p).map_values(f);
    let k = choose|k: int| 0 <= k < m.len() && m[k] == y;
    let x = s.filter(p)[k];
    s.lemma_filter_pred(p, k);
    assert(s.filter(p).contains(x));
    s.lemma_filter_contains_rev(p, x);
    let i = choose|i: int| 0 <= i < s.len() && s[i] == x;
    assert(p(s[i]) && f(s[i]) == y);
}

/// After a node that only the segment holds was deleted, no read sees it:
/// `get_node` answers nothing for its id, `find_by_attr` does not answer
/// its id to any query, and it is no endpoint. The images of the segments
/// are as they were.
pub proof fn lemma_deleted_segment_node_is_unseen(g: GraphModel, id: u128, q: QueryModel)
    requires
        !g.in_delta(id),
    ensures
        with_node_deleted(g, id).get_node(id).is_none(),
        !with_node_deleted(g, id).find(q).contains(id),
        !with_node_deleted(g, id).is_endpoint(id),
        with_node_deleted(g, id).seg_nodes == g.seg_nodes,
        with_node_deleted(g, id).seg_edges == g.seg_edges,
{
    let h = with_node_deleted(g, id);
    assert(h.deleted_segment_ids.contains(id));
    assert(h.delta_nodes == g.delta_nodes);
    let found = h.find(q);
    if found.contains(id) {
        let a = h.delta_nodes.filter(live_match(q));
        let b = h.seg_node_rows().filter(h.visible_match(q));
        assert(found == (a + b).map_values(id_of()));
        assert(found =~= a.map_values(id_of()) + b.map_values(id_of()));
        let k = choose|k: int| 0 <= k < found.len() && found[k] == id;
        if k < a.len() {
            assert(a.map_values(id_of())[k] == id);
            assert(a.map_values(id_of()).contains(id));
            lemma_filter_map_source(h.delta_nodes, live_match(q), id_of(), id);
            let i = choose|i: int|
                0 <= i < h.delta_nodes.len() && live_match(q)(#[trigger] h.delta_nodes[i]) && id_of()(
                    h.delta_nodes[i],
                ) == id;
            lemma_position_of(g.delta_nodes, id, g.delta_nodes.len() as int);
            assert(g.delta_nodes[i].id == id);
        } else {
            assert(b.map_values(id_of())[k - a.len()] == id);
            assert(b.map_values(id_of()).contains(id));
            lemma_filter_map_source(h.seg_node_rows(), h.visible_match(q), id_of(), id);
            let i = choose|i: int|
                0 <= i < h.seg_node_rows().len() && h.visible_match(q)(
                    #[trigger] h.seg_node_rows()[i],
                ) && id_of()(h.seg_node_rows()[i]) == id;
            assert(h.seg_visible(h.seg_node_rows()[i]));
        }
    }
}

/// A pattern that is a prefix followed by `*` matches exactly the types
/// that begin with the prefix.
pub proof fn lemma_wildcard_matches_prefix(prefix: Seq<u8>, t: Seq<u8>)
    requires
        prefix.len() == 0 || prefix.last() != 42u8,
    ensures
        pattern_matches(prefix.push(42u8), t) == is_prefix(prefix, t),
{
    let p = prefix.push(42u8);
    assert(p.last() == 42u8);
    assert(p.drop_last() =~= prefix);
    assert(strip_stars(p) == strip_stars(prefix));
    assert(strip_stars(prefix) == prefix);
}

/// The query for a type pattern that is a prefix followed by `*` admits
/// exactly the nodes whose type begins with the prefix; a node without a
/// type is not admitted.
pub proof fn lemma_wildcard_query(prefix: Seq<u8>, n: NodeModel)
    requires
        prefix.len() == 0 || prefix.last() != 42u8,
    ensures
        node_matches(QueryModel { node_type: Some(prefix.push(42u8)), ..empty_query() }, n) == (
        n.node_type matches Some(t) && is_prefix(prefix, t)),
{
    if n.node_type.is_some() {
        lemma_wildcard_matches_prefix(prefix, n.node_type->0);
    }
}

/// With no type asked for, `neighbors` answers the target of every edge
/// that leaves the node and is not tombstoned, in index order.
pub proof fn lemma_neighbors_of_all_types(g: GraphModel, id: u128)
    ensures
        g.neighbors(id, Seq::empty()) == g.all_edges().filter(
            |e: EdgeModel| !e.deleted && e.src == id,
        ).map_values(dst_of()),
        g.reverse_neighbors(id, Seq::empty()) == g.all_edges().filter(
            |e: EdgeModel| !e.deleted && e.dst == id,
        ).map_values(src_of()),
{
    let all = g.all_edges();
    assert(as_filter(Seq::<Seq<u8>>::empty()) == None::<Seq<Seq<u8>>>);
    lemma_filter_same(all, leaves_filtered(id, None), |e: EdgeModel| !e.deleted && e.src == id);
    lemma_filter_same(all, enters_filtered(id, None), |e: EdgeModel| !e.deleted && e.dst == id);
}

/// The graph after a flush: the two segments hold what the flush wrote,
/// and the delta is empty.
pub open spec fn flushed(g: GraphModel) -> GraphModel {
    GraphModel {
        seg_nodes: Some(encode_nodes(g.flush_nodes())),
        seg_edges: Some(encode_edges(g.flush_edges())),
        ..empty_graph()
    }
}

/// Every edge that a flush writes can be written and read back: its texts
/// are valid UTF-8 and have at least one byte each.
pub open spec fn edges_flushable(g: GraphModel) -> bool {
    &&& edges_encodable(g.flush_edges())
    &&& forall|i: int|
        0 <= i < g.flush_edges().len() ==> edge_texts_valid(#[trigger] g.flush_edges()[i])
            && edge_texts_nonempty(g.flush_edges()[i])
}

/// Every node that a flush writes can be written and read back: its texts
/// are valid UTF-8 and have at least one byte each.
pub open spec fn nodes_flushable(g: GraphModel) -> bool {
    &&& nodes_encodable(g.flush_nodes())
    &&& forall|i: int|
        0 <= i < g.flush_nodes().len() ==> node_texts_valid(#[trigger] g.flush_nodes()[i])
            && node_texts_nonempty(g.flush_nodes()[i])
}

/// The edges of the segment after a flush are the edges that the flush
/// wrote: source, target and type of each, none tombstoned.
proof fn lemma_flushed_edges(g: GraphModel)
    requires
        edges_flushable(g),
    ensures
        flushed(g).all_edges().len() == g.flush_edges().len(),
        forall|i: int|
            0 <= i < g.flush_edges().len() ==> {
                let a = #[trigger] flushed(g).all_edges()[i];
                let b = g.flush_edges()[i];
                a.src == b.src && a.dst == b.dst && a.edge_type == b.edge_type && !a.deleted
                    && !b.deleted
            },
{
    let l = g.flush_edges();
    let image = encode_edges(l);
    lemma_edges_image(l);
    let rows = edge_rows(Some(image));
    assert(flushed(g).all_edges() =~= rows);
    assert forall|i: int| 0 <= i < l.len() implies {
        let a = #[trigger] flushed(g).all_edges()[i];
        let b = l[i];
        a.src == b.src && a.dst == b.dst && a.edge_type == b.edge_type && !a.deleted && !b.deleted
    } by {
        lemma_edges_round_trip(l, i);
        g.all_edges().lemma_filter_pred(live_edge(), i);
        assert(edge_read_back(image, i, l[i]));
    }
}

/// A flush changes no answer of `neighbors` and of `reverse_neighbors`,
/// where every edge that is written has texts of at least one byte each.
/// After a flush the engine is as one that was opened over the images of
/// the flush: the same holds of reopening.
pub proof fn lemma_flush_keeps_neighbors(g: GraphModel, id: u128, types: Seq<Seq<u8>>)
    requires
        edges_flushable(g),
    ensures
        flushed(g).neighbors(id, types) == g.neighbors(id, types),
        flushed(g).reverse_neighbors(id, types) == g.reverse_neighbors(id, types),
{
    lemma_flushed_edges(g);
    let all = g.all_edges();
    let l = g.flush_edges();
    let r = flushed(g).all_edges();
    let out = leaves_filtered(id, as_filter(types));
    let inn = enters_filtered(id, as_filter(types));
    assert forall|i: int| 0 <= i < r.len() implies out(#[trigger] r[i]) == out(l[i]) && inn(r[i])
        == inn(l[i]) by {
        assert(r[i] == flushed(g).all_edges()[i]);
    }
    lemma_filter_map_agree(r, l, out, out, dst_of());
    lemma_filter_map_agree(r, l, inn, inn, src_of());
    lemma_filter_filter(all, live_edge(), out);
    lemma_filter_filter(all, live_edge(), inn);
}

/// The nodes of the segment after a flush are the nodes that the flush
/// wrote: each with its id, type, file, name, version, exported flag and
/// metadata, none tombstoned.
proof fn lemma_flushed_nodes(g: GraphModel)
    requires
        nodes_flushable(g),
    ensures
        flushed(g).seg_node_rows().len() == g.flush_nodes().len(),
        forall|i: int|
            0 <= i < g.flush_nodes().len() ==> {
                let a = #[trigger] flushed(g).seg_node_rows()[i];
                let b = g.flush_nodes()[i];
                a.id == b.id && a.node_type == b.node_type && a.file == b.file && a.name == b.name
                    && a.version == b.version && a.exported == b.exported && a.metadata
                    == b.metadata && !a.deleted && !b.deleted
            },
{
    let l = g.flush_nodes();
    let image = encode_nodes(l);
    lemma_nodes_image(l);
    let s = g.seg_node_rows().filter(g.visible());
    let d = g.delta_nodes.filter(live_node());
    assert forall|i: int| 0 <= i < l.len() implies {
        let a = #[trigger] flushed(g).seg_node_rows()[i];
        let b = l[i];
        a.id == b.id && a.node_type == b.node_type && a.file == b.file && a.name == b.name
            && a.version == b.version && a.exported == b.exported && a.metadata == b.metadata
            && !a.deleted && !b.deleted
    } by {
        lemma_nodes_round_trip(l, i);
        assert(node_read_back(image, i, l[i]));
        if i < s.len() {
            g.seg_node_rows().lemma_filter_pred(g.visible(), i);
            assert(l[i] == s[i]);
        } else {
            g.delta_nodes.lemma_filter_pred(live_node(), i - s.len());
            assert(l[i] == d[i - s.len()]);
        }
    }
}

/// A flush changes no answer of `find_by_attr` but for the order of the
/// ids, where the query does not ask for a file id (a file id is assigned
/// anew when a segment is written) and every node that is written has
/// texts of at least one byte each. After a flush the engine is as one
/// that was opened over the images of the flush: the same holds of
/// reopening.
pub proof fn lemma_flush_keeps_find(g: GraphModel, q: QueryModel)
    requires
        nodes_flushable(g),
        q.file_id.is_none(),
    ensures
        flushed(g).find(q).to_multiset() =~= g.find(q).to_multiset(),
{
    lemma_flushed_nodes(g);
    let h = flushed(g);
    let l = g.flush_nodes();
    let r = h.seg_node_rows();
    let m = live_match(q);
    let s0 = g.seg_node_rows();
    let d0 = g.delta_nodes;
    // after the flush
    lemma_filter_empty(m);
    assert(h.delta_nodes =~= Seq::<NodeModel>::empty());
    lemma_position_of_none(h.delta_nodes);
    assert forall|i: int| 0 <= i < r.len() implies h.visible_match(q)(#[trigger] r[i]) == m(
        l[i],
    ) by {
        assert(r[i] == flushed(g).seg_node_rows()[i]);
        assert(!h.in_delta(r[i].id));
        assert(node_matches(q, r[i]) == node_matches(q, l[i]));
    }
    assert forall|i: int| 0 <= i < r.len() && h.visible_match(q)(#[trigger] r[i]) implies id_of()(
        r[i],
    ) == id_of()(l[i]) by {
        assert(r[i] == flushed(g).seg_node_rows()[i]);
    }
    lemma_filter_map_agree(r, l, h.visible_match(q), m, id_of());
    let after = l.filter(m).map_values(id_of());
    assert(h.find(q) =~= after) by {
        assert(h.delta_nodes.filter(m) + r.filter(h.visible_match(q)) =~= r.filter(
            h.visible_match(q),
        ));
    }
    // before the flush
    let s = s0.filter(g.visible());
    let d = d0.filter(live_node());
    Seq::filter_distributes_over_add(s, d, m);
    lemma_filter_filter(d0, live_node(), m);
    lemma_filter_filter(s0, g.visible(), g.visible_match(q));
    assert forall|i: int| 0 <= i < s.len() implies m(#[trigger] s[i]) == g.visible_match(q)(
        s[i],
    ) by {
        s0.lemma_filter_pred(g.visible(), i);
    }
    lemma_filter_same(s, m, g.visible_match(q));
    let a = d0.filter(m);
    let b = s0.filter(g.visible_match(q));
    assert(l.filter(m) == b + a);
    assert(after =~= b.map_values(id_of()) + a.map_values(id_of()));
    assert(g.find(q) =~= a.map_values(id_of()) + b.map_values(id_of()));
    lemma_seq_union_to_multiset_commutative(b.map_values(id_of()), a.map_values(id_of()));
}

proof fn lemma_position_of_none(nodes: Seq<NodeModel>)
    requires
        nodes.len() == 0,
    ensures
        forall|id: u128| position_of(nodes, id, 0).is_none(),
{
}

} // verus!
