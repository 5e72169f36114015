//! What is written can be read: the segment reader gives back what the
//! segment writer was given.

use vstd::bytes::*;
use vstd::prelude::*;
use vstd::utf8::*;

use crate::storage::{EdgeModel, NodeModel};
use crate::storage::segment::{
    edge_deleted, edge_dst, edge_metadata, edge_src, edge_type, edges_image_ok, header_bytes,
    magic_bytes, node_deleted, node_exported, node_file, node_id, node_metadata, node_name,
    node_type, node_version, nodes_image_ok, seg_text, stored_edge_count, stored_node_count,
    stored_table_offset, stored_version, table_present, u128_at, u32_at, SegmentHeader,
};
use crate::storage::string_table::{
    lemma_tm_intern_wf, lemma_tm_reads_back, stored_count, stored_data, stored_data_len,
    stored_offsets, table_bytes, table_fits, tm_get, tm_intern, tm_intern_opt, tm_sentinel, tm_wf,
    TableModel,
};
use crate::storage::writer::{
    edge_table_step, edges_encodable, edges_header, edges_table, encode_edges, encode_nodes,
    flag_col, lemma_edges_table_grows, lemma_node_step_grows, lemma_nodes_table_grows,
    node_table_step, nodes_encodable, nodes_header, nodes_table, plus_one_offset, raw_offset,
    u128_col, u32_col, MAX_TABLE_BYTES,
};

verus! {

/// A column of 32-bit integers has four bytes an entry, and entry `i` is
/// read back at byte `4 * i`.
pub proof fn lemma_u32_col(vals: Seq<u32>)
    ensures
        u32_col(vals).len() == 4 * vals.len(),
        forall|i: int| 0 <= i < vals.len() ==> #[trigger] u32_at(u32_col(vals), 4 * i) == vals[i],
    decreases vals.len(),
{
    lemma_auto_spec_u32_to_from_le_bytes();
    if vals.len() > 0 {
        let front = vals.drop_last();
        lemma_u32_col(front);
        let c = u32_col(vals);
        assert forall|i: int| 0 <= i < vals.len() implies #[trigger] u32_at(c, 4 * i)
            == vals[i] by {
            if i < front.len() {
                assert(c.subrange(4 * i, 4 * i + 4) =~= u32_col(front).subrange(4 * i, 4 * i + 4));
                assert(u32_at(u32_col(front), 4 * i) == front[i]);
            } else {
                assert(c.subrange(4 * i, 4 * i + 4) =~= spec_u32_to_le_bytes(vals.last()));
            }
        }
    }
}

/// A column of 128-bit integers has sixteen bytes an entry, and entry `i`
/// is read back at byte `16 * i`.
pub proof fn lemma_u128_col(vals: Seq<u128>)
    ensures
        u128_col(vals).len() == 16 * vals.len(),
        forall|i: int|
            0 <= i < vals.len() ==> #[trigger] u128_at(u128_col(vals), 16 * i) == vals[i],
    decreases vals.len(),
{
    lemma_auto_spec_u128_to_from_le_bytes();
    if vals.len() > 0 {
        let front = vals.drop_last();
        lemma_u128_col(front);
        let c = u128_col(vals);
        assert forall|i: int| 0 <= i < vals.len() implies #[trigger] u128_at(c, 16 * i)
            == vals[i] by {
            if i < front.len() {
                assert(c.subrange(16 * i, 16 * i + 16) =~= u128_col(front).subrange(
                    16 * i,
                    16 * i + 16,
                ));
                assert(u128_at(u128_col(front), 16 * i) == front[i]);
            } else {
                assert(c.subrange(16 * i, 16 * i + 16) =~= spec_u128_to_le_bytes(vals.last()));
            }
        }
    }
}

/// Entry `i` of a 32-bit column is read back from an image at the column's
/// start plus `4 * i`.
pub proof fn lemma_u32_in_image(p: Seq<u8>, vals: Seq<u32>, s: Seq<u8>, i: int)
    requires
        0 <= i < vals.len(),
    ensures
        u32_at(p + u32_col(vals) + s, p.len() + 4 * i) == vals[i],
{
    lemma_u32_col(vals);
    let b = p + u32_col(vals) + s;
    assert(b.subrange(p.len() + 4 * i, p.len() + 4 * i + 4) =~= u32_col(vals).subrange(
        4 * i,
        4 * i + 4,
    ));
    assert(u32_at(u32_col(vals), 4 * i) == vals[i]);
}

/// Entry `i` of a 128-bit column is read back from an image at the
/// column's start plus `16 * i`.
pub proof fn lemma_u128_in_image(p: Seq<u8>, vals: Seq<u128>, s: Seq<u8>, i: int)
    requires
        0 <= i < vals.len(),
    ensures
        u128_at(p + u128_col(vals) + s, p.len() + 16 * i) == vals[i],
{
    lemma_u128_col(vals);
    let b = p + u128_col(vals) + s;
    assert(b.subrange(p.len() + 16 * i, p.len() + 16 * i + 16) =~= u128_col(vals).subrange(
        16 * i,
        16 * i + 16,
    ));
    assert(u128_at(u128_col(vals), 16 * i) == vals[i]);
}

/// A stored header is 30 bytes and reads back field by field.
pub proof fn lemma_header_in_image(h: SegmentHeader, s: Seq<u8>)
    requires
        h.magic@ == magic_bytes(),
    ensures
        header_bytes(h).len() == 30,
        (header_bytes(h) + s).subrange(0, 4) == magic_bytes(),
        stored_version(header_bytes(h) + s) == h.version,
        stored_node_count(header_bytes(h) + s) == h.node_count,
        stored_edge_count(header_bytes(h) + s) == h.edge_count,
        stored_table_offset(header_bytes(h) + s) == h.string_table_offset,
{
    lemma_auto_spec_u16_to_from_le_bytes();
    lemma_auto_spec_u64_to_from_le_bytes();
    let b = header_bytes(h) + s;
    assert(b.subrange(0, 4) =~= magic_bytes());
    assert(b.subrange(4, 6) =~= spec_u16_to_le_bytes(h.version));
    assert(b.subrange(6, 14) =~= spec_u64_to_le_bytes(h.node_count));
    assert(b.subrange(14, 22) =~= spec_u64_to_le_bytes(h.edge_count));
    assert(b.subrange(22, 30) =~= spec_u64_to_le_bytes(h.string_table_offset));
}

/// A stored table reads back as its blob and its offsets.
pub proof fn lemma_table_bytes_read_back(data: Seq<u8>, offsets: Seq<u32>)
    requires
        data.len() <= u64::MAX,
        offsets.len() <= u64::MAX,
    ensures
        table_fits(table_bytes(data, offsets)),
        stored_data(table_bytes(data, offsets)) == data,
        stored_offsets(table_bytes(data, offsets)) == offsets,
        table_bytes(data, offsets).len() == 16 + data.len() + 4 * offsets.len(),
{
    lemma_auto_spec_u64_to_from_le_bytes();
    lemma_u32_col(offsets);
    let b = table_bytes(data, offsets);
    let l1 = spec_u64_to_le_bytes(data.len() as u64);
    let l2 = spec_u64_to_le_bytes(offsets.len() as u64);
    assert(b.subrange(0, 8) =~= l1);
    assert(stored_data_len(b) == data.len());
    assert(b.subrange(8, 8 + data.len() as int) =~= data);
    let at: int = 8 + data.len() as int;
    assert(b.subrange(at, at + 8) =~= l2);
    assert(stored_count(b) == offsets.len());
    let base: int = 16 + data.len() as int;
    assert forall|i: int| 0 <= i < offsets.len() implies stored_offsets(b)[i] == offsets[i] by {
        assert(b.subrange(base + 4 * i, base + 4 * i + 4) =~= u32_col(offsets).subrange(
            4 * i,
            4 * i + 4,
        ));
        assert(u32_at(u32_col(offsets), 4 * i) == offsets[i]);
    }
    assert(stored_offsets(b) =~= offsets);
}

/// Every text of a node that is there is valid UTF-8.
pub open spec fn node_texts_valid(n: NodeModel) -> bool {
    &&& n.node_type matches Some(s) ==> valid_utf8(s)
    &&& n.file matches Some(s) ==> valid_utf8(s)
    &&& n.name matches Some(s) ==> valid_utf8(s)
    &&& valid_utf8(n.version)
    &&& n.metadata matches Some(s) ==> valid_utf8(s)
}

/// Every text of a node that is there has at least one byte.
pub open spec fn node_texts_nonempty(n: NodeModel) -> bool {
    &&& n.node_type matches Some(s) ==> s.len() > 0
    &&& n.file matches Some(s) ==> s.len() > 0
    &&& n.name matches Some(s) ==> s.len() > 0
    &&& n.version.len() > 0
    &&& n.metadata matches Some(s) ==> s.len() > 0
}

/// Every text of an edge that is there is valid UTF-8.
pub open spec fn edge_texts_valid(e: EdgeModel) -> bool {
    &&& e.edge_type matches Some(s) ==> valid_utf8(s)
    &&& e.metadata matches Some(s) ==> valid_utf8(s)
}

/// Every text of an edge that is there has at least one byte.
pub open spec fn edge_texts_nonempty(e: EdgeModel) -> bool {
    &&& e.edge_type matches Some(s) ==> s.len() > 0
    &&& e.metadata matches Some(s) ==> s.len() > 0
}

/// A table that reserves offset 0: well formed, with a blob of at least
/// one byte and no text indexed under offset 0.
pub open spec fn reserved_wf(t: TableModel) -> bool {
    &&& tm_wf(t)
    &&& t.data.len() >= 1
    &&& forall|s: Seq<u8>| #[trigger] t.index.contains_key(s) ==> t.index[s] >= 1
}

/// `a`'s index entries are all entries of `b`.
pub open spec fn index_kept(a: TableModel, b: TableModel) -> bool {
    forall|s: Seq<u8>| #[trigger] a.index.contains_key(s) ==> b.index.contains_key(s) && b.index[s]
        == a.index[s]
}

proof fn lemma_intern_reserved(t: TableModel, s: Seq<u8>)
    requires
        reserved_wf(t),
        valid_utf8(s),
        tm_intern(t, s).data.len() <= MAX_TABLE_BYTES,
    ensures
        reserved_wf(tm_intern(t, s)),
        index_kept(t, tm_intern(t, s)),
        tm_intern(t, s).index.contains_key(s),
        t.data.len() <= tm_intern(t, s).data.len(),
{
    lemma_tm_intern_wf(t, s);
}

proof fn lemma_intern_opt_reserved(t: TableModel, s: Option<Seq<u8>>)
    requires
        reserved_wf(t),
        s matches Some(x) ==> valid_utf8(x),
        tm_intern_opt(t, s).data.len() <= MAX_TABLE_BYTES,
    ensures
        reserved_wf(tm_intern_opt(t, s)),
        index_kept(t, tm_intern_opt(t, s)),
        s matches Some(x) ==> tm_intern_opt(t, s).index.contains_key(x),
        t.data.len() <= tm_intern_opt(t, s).data.len(),
{
    if s.is_some() {
        lemma_intern_reserved(t, s->0);
    }
}

proof fn lemma_node_step_reserved(t: TableModel, n: NodeModel)
    requires
        reserved_wf(t),
        node_texts_valid(n),
        node_table_step(t, n).data.len() <= MAX_TABLE_BYTES,
    ensures
        reserved_wf(node_table_step(t, n)),
        index_kept(t, node_table_step(t, n)),
        n.node_type matches Some(x) ==> node_table_step(t, n).index.contains_key(x),
        n.file matches Some(x) ==> node_table_step(t, n).index.contains_key(x),
        n.name matches Some(x) ==> node_table_step(t, n).index.contains_key(x),
        node_table_step(t, n).index.contains_key(n.version),
        n.metadata matches Some(x) ==> node_table_step(t, n).index.contains_key(x),
{
    let t1 = tm_intern_opt(t, n.node_type);
    let t2 = tm_intern_opt(t1, n.file);
    let t3 = tm_intern_opt(t2, n.name);
    let t4 = tm_intern(t3, n.version);
    let t5 = tm_intern_opt(t4, n.metadata);
    assert(t1.data.len() <= t2.data.len() <= t3.data.len() <= t4.data.len() <= t5.data.len());
    lemma_intern_opt_reserved(t, n.node_type);
    lemma_intern_opt_reserved(t1, n.file);
    lemma_intern_opt_reserved(t2, n.name);
    lemma_intern_reserved(t3, n.version);
    lemma_intern_opt_reserved(t4, n.metadata);
}

proof fn lemma_edge_step_reserved(t: TableModel, e: EdgeModel)
    requires
        reserved_wf(t),
        edge_texts_valid(e),
        edge_table_step(t, e).data.len() <= MAX_TABLE_BYTES,
    ensures
        reserved_wf(edge_table_step(t, e)),
        index_kept(t, edge_table_step(t, e)),
        e.edge_type matches Some(x) ==> edge_table_step(t, e).index.contains_key(x),
        e.metadata matches Some(x) ==> edge_table_step(t, e).index.contains_key(x),
{
    let t1 = tm_intern_opt(t, e.edge_type);
    assert(t1.data.len() <= edge_table_step(t, e).data.len());
    lemma_intern_opt_reserved(t, e.edge_type);
    lemma_intern_opt_reserved(t1, e.metadata);
}

/// The table of nodes that can be written reserves offset 0, and holds
/// every text of every node.
pub proof fn lemma_nodes_table_reserved(nodes: Seq<NodeModel>, k: int, n: int)
    requires
        0 <= k <= n <= nodes.len(),
        nodes_table(nodes, n).data.len() <= MAX_TABLE_BYTES,
        forall|j: int| 0 <= j < nodes.len() ==> node_texts_valid(#[trigger] nodes[j]),
    ensures
        reserved_wf(nodes_table(nodes, n)),
        index_kept(nodes_table(nodes, k), nodes_table(nodes, n)),
    decreases n,
{
    if n == 0 {
        let t = tm_sentinel();
        assert(t.data.len() == 1);
    } else {
        lemma_node_step_grows(nodes_table(nodes, n - 1), nodes[n - 1]);
        if k < n {
            lemma_nodes_table_reserved(nodes, k, n - 1);
        } else {
            lemma_nodes_table_reserved(nodes, n - 1, n - 1);
        }
        lemma_node_step_reserved(nodes_table(nodes, n - 1), nodes[n - 1]);
    }
}

/// The table of edges that can be written reserves offset 0, and holds
/// every text of every edge.
pub proof fn lemma_edges_table_reserved(edges: Seq<EdgeModel>, k: int, n: int)
    requires
        0 <= k <= n <= edges.len(),
        edges_table(edges, n).data.len() <= MAX_TABLE_BYTES,
        forall|j: int| 0 <= j < edges.len() ==> edge_texts_valid(#[trigger] edges[j]),
    ensures
        reserved_wf(edges_table(edges, n)),
        index_kept(edges_table(edges, k), edges_table(edges, n)),
    decreases n,
{
    if n == 0 {
        let t = tm_sentinel();
        assert(t.data.len() == 1);
    } else {
        lemma_edges_table_grows(edges, n - 1, n);
        if k < n {
            lemma_edges_table_reserved(edges, k, n - 1);
        } else {
            lemma_edges_table_reserved(edges, n - 1, n - 1);
        }
        lemma_edge_step_reserved(edges_table(edges, n - 1), edges[n - 1]);
    }
}

/// In a table that reserves offset 0, a raw-offset column entry reads back
/// as the text it was made from, where that text has at least one byte.
pub proof fn lemma_raw_offset_reads_back(t: TableModel, s: Option<Seq<u8>>)
    requires
        reserved_wf(t),
        s matches Some(x) ==> t.index.contains_key(x) && x.len() > 0,
    ensures
        s.is_none() ==> raw_offset(t, s) == 0,
        s matches Some(x) ==> raw_offset(t, s) != 0 && tm_get(t, raw_offset(t, s)) == Some(x),
{
    if s.is_some() {
        lemma_tm_reads_back(t, s->0);
    }
}

/// In a table that reserves offset 0 and stays within `MAX_TABLE_BYTES`, a
/// plus-one column entry reads back as the text it was made from, where
/// that text has at least one byte.
pub proof fn lemma_plus_one_reads_back(t: TableModel, s: Option<Seq<u8>>)
    requires
        reserved_wf(t),
        t.data.len() <= MAX_TABLE_BYTES,
        s matches Some(x) ==> t.index.contains_key(x) && x.len() > 0,
    ensures
        s.is_none() ==> plus_one_offset(t, s) == 0,
        s matches Some(x) ==> plus_one_offset(t, s) != 0 && tm_get(
            t,
            (plus_one_offset(t, s) - 1) as u32,
        ) == Some(x),
{
    if s.is_some() {
        lemma_tm_reads_back(t, s->0);
    }
}


proof fn lemma_nodes_table_offsets(nodes: Seq<NodeModel>, k: int)
    requires
        0 <= k,
    ensures
        nodes_table(nodes, k).offsets.len() <= 1 + 5 * k,
    decreases k,
{
    if k > 0 {
        lemma_nodes_table_offsets(nodes, k - 1);
    }
}

proof fn lemma_edges_table_offsets(edges: Seq<EdgeModel>, k: int)
    requires
        0 <= k,
    ensures
        edges_table(edges, k).offsets.len() <= 1 + 2 * k,
    decreases k,
{
    if k > 0 {
        lemma_edges_table_offsets(edges, k - 1);
    }
}

/// What the segment reader finds in the image of node `i`.
pub open spec fn node_read_back(b: Seq<u8>, i: int, n: NodeModel) -> bool {
    &&& node_id(b, i) == n.id
    &&& node_type(b, i) == n.node_type
    &&& node_file(b, i) == n.file
    &&& node_name(b, i) == n.name
    &&& node_version(b, i) == Some(n.version)
    &&& node_exported(b, i) == n.exported
    &&& node_deleted(b, i) == n.deleted
    &&& node_metadata(b, i) == n.metadata
}

/// What the segment reader finds in the image of edge `i`.
pub open spec fn edge_read_back(b: Seq<u8>, i: int, e: EdgeModel) -> bool {
    &&& edge_src(b, i) == e.src
    &&& edge_dst(b, i) == e.dst
    &&& edge_type(b, i) == e.edge_type
    &&& edge_deleted(b, i) == e.deleted
    &&& edge_metadata(b, i) == e.metadata
}

/// The image of written nodes is a nodes image of as many nodes, and its
/// string table reads as the table that the writer built.
pub proof fn lemma_nodes_image(nodes: Seq<NodeModel>)
    requires
        nodes_encodable(nodes),
    ensures
        nodes_image_ok(encode_nodes(nodes)),
        stored_node_count(encode_nodes(nodes)) == nodes.len(),
        forall|o: u32| #[trigger]
            seg_text(encode_nodes(nodes), o) == tm_get(
                nodes_table(nodes, nodes.len() as int),
                o,
            ),
{
    let n = nodes.len() as int;
    let t = nodes_table(nodes, n);
    let b = encode_nodes(nodes);
    let h = nodes_header(nodes.len());
    let hb = header_bytes(h);
    let c1 = u128_col(nodes.map_values(|n: NodeModel| n.id));
    let c2 = u32_col(nodes.map_values(|n: NodeModel| raw_offset(t, n.node_type)));
    let c3 = u32_col(nodes.map_values(|n: NodeModel| plus_one_offset(t, n.file)));
    let c4 = u32_col(nodes.map_values(|n: NodeModel| plus_one_offset(t, n.name)));
    let c5 = u32_col(nodes.map_values(|n: NodeModel| raw_offset(t, Some(n.version))));
    let c6 = flag_col(nodes.map_values(|n: NodeModel| n.exported));
    let c7 = flag_col(nodes.map_values(|n: NodeModel| n.deleted));
    let c8 = u32_col(nodes.map_values(|n: NodeModel| raw_offset(t, n.metadata)));
    let tb = table_bytes(t.data, t.offsets);
    let body = c1 + c2 + c3 + c4 + c5 + c6 + c7 + c8;
    lemma_u128_col(nodes.map_values(|n: NodeModel| n.id));
    lemma_u32_col(nodes.map_values(|n: NodeModel| raw_offset(t, n.node_type)));
    lemma_u32_col(nodes.map_values(|n: NodeModel| plus_one_offset(t, n.file)));
    lemma_u32_col(nodes.map_values(|n: NodeModel| plus_one_offset(t, n.name)));
    lemma_u32_col(nodes.map_values(|n: NodeModel| raw_offset(t, Some(n.version))));
    lemma_u32_col(nodes.map_values(|n: NodeModel| raw_offset(t, n.metadata)));
    assert(body.len() == 38 * n);
    lemma_nodes_table_offsets(nodes, n);
    lemma_table_bytes_read_back(t.data, t.offsets);
    assert(h.magic@ =~= magic_bytes());
    lemma_header_in_image(h, body + tb);
    assert(b =~= hb + (body + tb));
    assert(b.subrange(30 + 38 * n, b.len() as int) =~= tb);
    assert(table_present(b));
}

/// The columns of written nodes hold, for node `i`, what the writer put
/// there.
pub proof fn lemma_nodes_columns(nodes: Seq<NodeModel>, i: int)
    requires
        stored_node_count(encode_nodes(nodes)) == nodes.len(),
        0 <= i < nodes.len(),
    ensures
        ({
            let b = encode_nodes(nodes);
            let t = nodes_table(nodes, nodes.len() as int);
            &&& node_id(b, i) == nodes[i].id
            &&& crate::storage::segment::node_type_offset(b, i) == raw_offset(t, nodes[i].node_type)
            &&& crate::storage::segment::node_file_id(b, i) == plus_one_offset(t, nodes[i].file)
            &&& crate::storage::segment::node_name_offset(b, i) == plus_one_offset(t, nodes[i].name)
            &&& crate::storage::segment::node_version_offset(b, i) == raw_offset(
                t,
                Some(nodes[i].version),
            )
            &&& node_exported(b, i) == nodes[i].exported
            &&& node_deleted(b, i) == nodes[i].deleted
            &&& crate::storage::segment::node_metadata_offset(b, i) == raw_offset(
                t,
                nodes[i].metadata,
            )
        }),
{
    let n = nodes.len() as int;
    let t = nodes_table(nodes, n);
    let b = encode_nodes(nodes);
    let hb = header_bytes(nodes_header(nodes.len()));
    let ids = nodes.map_values(|n: NodeModel| n.id);
    let types = nodes.map_values(|n: NodeModel| raw_offset(t, n.node_type));
    let files = nodes.map_values(|n: NodeModel| plus_one_offset(t, n.file));
    let names = nodes.map_values(|n: NodeModel| plus_one_offset(t, n.name));
    let versions = nodes.map_values(|n: NodeModel| raw_offset(t, Some(n.version)));
    let exported = nodes.map_values(|n: NodeModel| n.exported);
    let deleted = nodes.map_values(|n: NodeModel| n.deleted);
    let metas = nodes.map_values(|n: NodeModel| raw_offset(t, n.metadata));
    let c1 = u128_col(ids);
    let c2 = u32_col(types);
    let c3 = u32_col(files);
    let c4 = u32_col(names);
    let c5 = u32_col(versions);
    let c6 = flag_col(exported);
    let c7 = flag_col(deleted);
    let c8 = u32_col(metas);
    let tb = table_bytes(t.data, t.offsets);
    lemma_u128_col(ids);
    lemma_u32_col(types);
    lemma_u32_col(files);
    lemma_u32_col(names);
    lemma_u32_col(versions);
    lemma_u32_col(metas);
    lemma_auto_spec_u16_to_from_le_bytes();
    lemma_auto_spec_u64_to_from_le_bytes();
    assert(hb.len() == 30);
    let p1 = hb + c1;
    let p2 = p1 + c2;
    let p3 = p2 + c3;
    let p4 = p3 + c4;
    let p5 = p4 + c5;
    let p6 = p5 + c6;
    let p7 = p6 + c7;
    let p8 = p7 + c8;
    assert(b == p8 + tb);
    assert(node_id(b, i) == nodes[i].id) by {
        let rest = c2 + c3 + c4 + c5 + c6 + c7 + c8 + tb;
        assert(b =~= hb + c1 + rest);
        lemma_u128_in_image(hb, ids, rest, i);
    }
    assert(u32_at(b, 30 + 16 * n + 4 * i) == types[i]) by {
        let rest = c3 + c4 + c5 + c6 + c7 + c8 + tb;
        assert(b =~= p1 + c2 + rest);
        lemma_u32_in_image(p1, types, rest, i);
    }
    assert(u32_at(b, 30 + 20 * n + 4 * i) == files[i]) by {
        let rest = c4 + c5 + c6 + c7 + c8 + tb;
        assert(b =~= p2 + c3 + rest);
        lemma_u32_in_image(p2, files, rest, i);
    }
    assert(u32_at(b, 30 + 24 * n + 4 * i) == names[i]) by {
        let rest = c5 + c6 + c7 + c8 + tb;
        assert(b =~= p3 + c4 + rest);
        lemma_u32_in_image(p3, names, rest, i);
    }
    assert(u32_at(b, 30 + 28 * n + 4 * i) == versions[i]) by {
        let rest = c6 + c7 + c8 + tb;
        assert(b =~= p4 + c5 + rest);
        lemma_u32_in_image(p4, versions, rest, i);
    }
    assert(b[30 + 32 * n + i] == c6[i]) by {
        assert(p5.len() == 30 + 32 * n);
        assert(b =~= p5 + c6 + (c7 + c8 + tb));
    }
    assert(b[30 + 33 * n + i] == c7[i]) by {
        assert(p6.len() == 30 + 33 * n);
        assert(b =~= p6 + c7 + (c8 + tb));
    }
    assert(u32_at(b, 30 + 34 * n + 4 * i) == metas[i]) by {
        assert(b =~= p7 + c8 + tb);
        lemma_u32_in_image(p7, metas, tb, i);
    }
}

/// Writing nodes and reading the image back gives, for every node whose
/// texts have at least one byte each, every field that a segment stores:
/// id, type, file, name, version, the exported flag, the tombstone and
/// metadata. The image is a nodes image of as many nodes as were written.
pub proof fn lemma_nodes_round_trip(nodes: Seq<NodeModel>, i: int)
    requires
        nodes_encodable(nodes),
        forall|j: int| 0 <= j < nodes.len() ==> node_texts_valid(#[trigger] nodes[j]),
        0 <= i < nodes.len(),
        node_texts_nonempty(nodes[i]),
    ensures
        nodes_image_ok(encode_nodes(nodes)),
        stored_node_count(encode_nodes(nodes)) == nodes.len(),
        node_read_back(encode_nodes(nodes), i, nodes[i]),
{
    let n = nodes.len() as int;
    let t = nodes_table(nodes, n);
    let b = encode_nodes(nodes);
    lemma_nodes_image(nodes);
    lemma_nodes_columns(nodes, i);
    lemma_nodes_table_grows(nodes, i + 1, n);
    lemma_nodes_table_grows(nodes, i, i + 1);
    lemma_nodes_table_reserved(nodes, i + 1, n);
    lemma_nodes_table_reserved(nodes, i, i);
    lemma_node_step_reserved(nodes_table(nodes, i), nodes[i]);
    let m = nodes[i];
    lemma_raw_offset_reads_back(t, m.node_type);
    lemma_plus_one_reads_back(t, m.file);
    lemma_plus_one_reads_back(t, m.name);
    lemma_raw_offset_reads_back(t, Some(m.version));
    lemma_raw_offset_reads_back(t, m.metadata);
    assert(seg_text(b, raw_offset(t, m.node_type)) == tm_get(t, raw_offset(t, m.node_type)));
    assert(seg_text(b, raw_offset(t, Some(m.version))) == tm_get(
        t,
        raw_offset(t, Some(m.version)),
    ));
    assert(seg_text(b, raw_offset(t, m.metadata)) == tm_get(t, raw_offset(t, m.metadata)));
    assert(seg_text(b, (plus_one_offset(t, m.file) - 1) as u32) == tm_get(
        t,
        (plus_one_offset(t, m.file) - 1) as u32,
    ));
    assert(seg_text(b, (plus_one_offset(t, m.name) - 1) as u32) == tm_get(
        t,
        (plus_one_offset(t, m.name) - 1) as u32,
    ));
}

/// The image of written edges is an edges image of as many edges, and its
/// string table reads as the table that the writer built.
pub proof fn lemma_edges_image(edges: Seq<EdgeModel>)
    requires
        edges_encodable(edges),
    ensures
        edges_image_ok(encode_edges(edges)),
        stored_edge_count(encode_edges(edges)) == edges.len(),
        forall|o: u32| #[trigger]
            seg_text(encode_edges(edges), o) == tm_get(
                edges_table(edges, edges.len() as int),
                o,
            ),
{
    let n = edges.len() as int;
    let t = edges_table(edges, n);
    let b = encode_edges(edges);
    let h = edges_header(edges.len());
    let hb = header_bytes(h);
    let c1 = u128_col(edges.map_values(|e: EdgeModel| e.src));
    let c2 = u128_col(edges.map_values(|e: EdgeModel| e.dst));
    let c3 = u32_col(edges.map_values(|e: EdgeModel| raw_offset(t, e.edge_type)));
    let c4 = u32_col(edges.map_values(|e: EdgeModel| raw_offset(t, e.metadata)));
    let c5 = flag_col(edges.map_values(|e: EdgeModel| e.deleted));
    let tb = table_bytes(t.data, t.offsets);
    let body = c1 + c2 + c3 + c4 + c5;
    lemma_u128_col(edges.map_values(|e: EdgeModel| e.src));
    lemma_u128_col(edges.map_values(|e: EdgeModel| e.dst));
    lemma_u32_col(edges.map_values(|e: EdgeModel| raw_offset(t, e.edge_type)));
    lemma_u32_col(edges.map_values(|e: EdgeModel| raw_offset(t, e.metadata)));
    assert(body.len() == 41 * n);
    lemma_edges_table_offsets(edges, n);
    lemma_table_bytes_read_back(t.data, t.offsets);
    assert(h.magic@ =~= magic_bytes());
    lemma_header_in_image(h, body + tb);
    assert(b =~= hb + (body + tb));
    assert(b.subrange(30 + 41 * n, b.len() as int) =~= tb);
    assert(table_present(b));
}

/// The columns of written edges hold, for edge `i`, what the writer put
/// there.
pub proof fn lemma_edges_columns(edges: Seq<EdgeModel>, i: int)
    requires
        stored_edge_count(encode_edges(edges)) == edges.len(),
        0 <= i < edges.len(),
    ensures
        ({
            let b = encode_edges(edges);
            let t = edges_table(edges, edges.len() as int);
            &&& edge_src(b, i) == edges[i].src
            &&& edge_dst(b, i) == edges[i].dst
            &&& crate::storage::segment::edge_type_offset(b, i) == raw_offset(t, edges[i].edge_type)
            &&& crate::storage::segment::edge_metadata_offset(b, i) == raw_offset(
                t,
                edges[i].metadata,
            )
            &&& edge_deleted(b, i) == edges[i].deleted
        }),
{
    let n = edges.len() as int;
    let t = edges_table(edges, n);
    let b = encode_edges(edges);
    let hb = header_bytes(edges_header(edges.len()));
    let srcs = edges.map_values(|e: EdgeModel| e.src);
    let dsts = edges.map_values(|e: EdgeModel| e.dst);
    let types = edges.map_values(|e: EdgeModel| raw_offset(t, e.edge_type));
    let metas = edges.map_values(|e: EdgeModel| raw_offset(t, e.metadata));
    let deleted = edges.map_values(|e: EdgeModel| e.deleted);
    let c1 = u128_col(srcs);
    let c2 = u128_col(dsts);
    let c3 = u32_col(types);
    let c4 = u32_col(metas);
    let c5 = flag_col(deleted);
    let tb = table_bytes(t.data, t.offsets);
    lemma_u128_col(srcs);
    lemma_u128_col(dsts);
    lemma_u32_col(types);
    lemma_u32_col(metas);
    lemma_auto_spec_u16_to_from_le_bytes();
    lemma_auto_spec_u64_to_from_le_bytes();
    assert(hb.len() == 30);
    let p1 = hb + c1;
    let p2 = p1 + c2;
    let p3 = p2 + c3;
    let p4 = p3 + c4;
    assert(b == p4 + c5 + tb);
    assert(edge_src(b, i) == edges[i].src) by {
        let rest = c2 + c3 + c4 + c5 + tb;
        assert(b =~= hb + c1 + rest);
        lemma_u128_in_image(hb, srcs, rest, i);
    }
    assert(u128_at(b, 30 + 16 * n + 16 * i) == dsts[i]) by {
        let rest = c3 + c4 + c5 + tb;
        assert(b =~= p1 + c2 + rest);
        lemma_u128_in_image(p1, dsts, rest, i);
    }
    assert(u32_at(b, 30 + 32 * n + 4 * i) == types[i]) by {
        let rest = c4 + c5 + tb;
        assert(b =~= p2 + c3 + rest);
        lemma_u32_in_image(p2, types, rest, i);
    }
    assert(u32_at(b, 30 + 36 * n + 4 * i) == metas[i]) by {
        let rest = c5 + tb;
        assert(b =~= p3 + c4 + rest);
        lemma_u32_in_image(p3, metas, rest, i);
    }
    assert(b[30 + 40 * n + i] == c5[i]) by {
        assert(p4.len() == 30 + 40 * n);
    }
}

/// Writing edges and reading the image back gives, for every edge whose
/// texts have at least one byte each, every field that a segment stores:
/// source, target, type, the tombstone and metadata. The image is an edges
/// image of as many edges as were written.
pub proof fn lemma_edges_round_trip(edges: Seq<EdgeModel>, i: int)
    requires
        edges_encodable(edges),
        forall|j: int| 0 <= j < edges.len() ==> edge_texts_valid(#[trigger] edges[j]),
        0 <= i < edges.len(),
        edge_texts_nonempty(edges[i]),
    ensures
        edges_image_ok(encode_edges(edges)),
        stored_edge_count(encode_edges(edges)) == edges.len(),
        edge_read_back(encode_edges(edges), i, edges[i]),
{
    let n = edges.len() as int;
    let t = edges_table(edges, n);
    let b = encode_edges(edges);
    lemma_edges_image(edges);
    lemma_edges_columns(edges, i);
    lemma_edges_table_grows(edges, i + 1, n);
    lemma_edges_table_grows(edges, i, i + 1);
    lemma_edges_table_reserved(edges, i + 1, n);
    lemma_edges_table_reserved(edges, i, i);
    lemma_edge_step_reserved(edges_table(edges, i), edges[i]);
    let m = edges[i];
    lemma_raw_offset_reads_back(t, m.edge_type);
    lemma_raw_offset_reads_back(t, m.metadata);
    assert(seg_text(b, raw_offset(t, m.edge_type)) == tm_get(t, raw_offset(t, m.edge_type)));
    assert(seg_text(b, raw_offset(t, m.metadata)) == tm_get(t, raw_offset(t, m.metadata)));
}

} // verus!
