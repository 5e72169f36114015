//! The segment writer: from the consolidated lists of nodes and edges to the
//! two images.

use vstd::bytes::*;
use vstd::prelude::*;
use vstd::string::*;
use vstd::utf8::*;

use crate::error::GraphError;
use crate::storage::{edge_models, node_models, EdgeModel, EdgeRecord, NodeModel, NodeRecord};
use crate::storage::segment::{header_bytes, FORMAT_VERSION, SegmentHeader};
use crate::storage::string_table::{
    offsets_bytes, table_bytes, tm_intern, tm_intern_opt, tm_lookup, tm_sentinel, StringTable,
    TableModel,
};
use crate::text::{opt_text, text};

verus! {

/// The most bytes that the blob of a written string table may hold: one
/// less than the largest 32-bit number, so that an offset plus one still
/// fits.
pub const MAX_TABLE_BYTES: usize = 0xFFFF_FFFE;

/// A column of 128-bit integers, little-endian.
pub open spec fn u128_col(vals: Seq<u128>) -> Seq<u8>
    decreases vals.len(),
{
    if vals.len() == 0 {
        Seq::empty()
    } else {
        u128_col(vals.drop_last()) + spec_u128_to_le_bytes(vals.last())
    }
}

/// A column of 32-bit integers, little-endian.
pub open spec fn u32_col(vals: Seq<u32>) -> Seq<u8> {
    offsets_bytes(vals)
}

/// A column of flags, one byte each: 1 for set, 0 for clear.
pub open spec fn flag_col(vals: Seq<bool>) -> Seq<u8> {
    Seq::new(vals.len(), |i: int| if vals[i] { 1u8 } else { 0u8 })
}

/// The table after interning the strings of one node: type, file, name,
/// version and metadata, in this order, those that are there.
pub open spec fn node_table_step(t: TableModel, n: NodeModel) -> TableModel {
    tm_intern_opt(
        tm_intern(
            tm_intern_opt(tm_intern_opt(tm_intern_opt(t, n.node_type), n.file), n.name),
            n.version,
        ),
        n.metadata,
    )
}

/// The table after interning the strings of the first `k` nodes, starting
/// from the table that reserves offset 0.
pub open spec fn nodes_table(nodes: Seq<NodeModel>, k: int) -> TableModel
    decreases k,
{
    if k <= 0 {
        tm_sentinel()
    } else {
        node_table_step(nodes_table(nodes, k - 1), nodes[k - 1])
    }
}

/// The table after interning the strings of one edge: type and metadata.
pub open spec fn edge_table_step(t: TableModel, e: EdgeModel) -> TableModel {
    tm_intern_opt(tm_intern_opt(t, e.edge_type), e.metadata)
}

/// The table after interning the strings of the first `k` edges, starting
/// from the table that reserves offset 0.
pub open spec fn edges_table(edges: Seq<EdgeModel>, k: int) -> TableModel
    decreases k,
{
    if k <= 0 {
        tm_sentinel()
    } else {
        edge_table_step(edges_table(edges, k - 1), edges[k - 1])
    }
}

/// What a raw-offset column holds for a string: its offset, and 0 for a
/// string that is not there.
pub open spec fn raw_offset(t: TableModel, s: Option<Seq<u8>>) -> u32 {
    match s {
        Some(s) => match tm_lookup(t, s) {
            Some(o) => o,
            None => 0,
        },
        None => 0,
    }
}

/// What a plus-one column holds for a string: its offset plus one, and 0
/// for a string that is not there.
pub open spec fn plus_one_offset(t: TableModel, s: Option<Seq<u8>>) -> u32 {
    match s {
        Some(s) => match tm_lookup(t, s) {
            Some(o) => (o + 1) as u32,
            None => 0,
        },
        None => 0,
    }
}

/// The header of the nodes image of `n` nodes: the string table follows
/// the columns, 38 bytes a node.
pub open spec fn nodes_header(n: nat) -> SegmentHeader {
    SegmentHeader {
        magic: crate::storage::segment::MAGIC,
        version: FORMAT_VERSION,
        node_count: n as u64,
        edge_count: 0,
        string_table_offset: (30 + 38 * n) as u64,
    }
}

/// The header of the edges image of `n` edges: the string table follows
/// the columns, 41 bytes an edge.
pub open spec fn edges_header(n: nat) -> SegmentHeader {
    SegmentHeader {
        magic: crate::storage::segment::MAGIC,
        version: FORMAT_VERSION,
        node_count: 0,
        edge_count: n as u64,
        string_table_offset: (30 + 41 * n) as u64,
    }
}

/// The nodes can be written: their strings fit in one table, and the
/// header can hold where it starts.
pub open spec fn nodes_encodable(nodes: Seq<NodeModel>) -> bool {
    &&& nodes_table(nodes, nodes.len() as int).data.len() <= MAX_TABLE_BYTES
    &&& 30 + 38 * nodes.len() <= u64::MAX
}

/// The edges can be written: their strings fit in one table, and the
/// header can hold where it starts.
pub open spec fn edges_encodable(edges: Seq<EdgeModel>) -> bool {
    &&& edges_table(edges, edges.len() as int).data.len() <= MAX_TABLE_BYTES
    &&& 30 + 41 * edges.len() <= u64::MAX
}

/// The nodes image: header; ids; type offsets; file ids (offset plus one);
/// name offsets (offset plus one); version offsets; exported flags;
/// deleted flags; metadata offsets; string table.
pub open spec fn encode_nodes(nodes: Seq<NodeModel>) -> Seq<u8> {
    let t = nodes_table(nodes, nodes.len() as int);
    header_bytes(nodes_header(nodes.len())) + u128_col(nodes.map_values(|n: NodeModel| n.id))
        + u32_col(nodes.map_values(|n: NodeModel| raw_offset(t, n.node_type))) + u32_col(
        nodes.map_values(|n: NodeModel| plus_one_offset(t, n.file)),
    ) + u32_col(nodes.map_values(|n: NodeModel| plus_one_offset(t, n.name))) + u32_col(
        nodes.map_values(|n: NodeModel| raw_offset(t, Some(n.version))),
    ) + flag_col(nodes.map_values(|n: NodeModel| n.exported)) + flag_col(
        nodes.map_values(|n: NodeModel| n.deleted),
    ) + u32_col(nodes.map_values(|n: NodeModel| raw_offset(t, n.metadata))) + table_bytes(
        t.data,
        t.offsets,
    )
}

/// The edges image: header; sources; targets; type offsets; metadata
/// offsets; deleted flags; string table.
pub open spec fn encode_edges(edges: Seq<EdgeModel>) -> Seq<u8> {
    let t = edges_table(edges, edges.len() as int);
    header_bytes(edges_header(edges.len())) + u128_col(edges.map_values(|e: EdgeModel| e.src))
        + u128_col(edges.map_values(|e: EdgeModel| e.dst)) + u32_col(
        edges.map_values(|e: EdgeModel| raw_offset(t, e.edge_type)),
    ) + u32_col(edges.map_values(|e: EdgeModel| raw_offset(t, e.metadata))) + flag_col(
        edges.map_values(|e: EdgeModel| e.deleted),
    ) + table_bytes(t.data, t.offsets)
}

/// Interning never shrinks the blob.
pub proof fn lemma_node_step_grows(t: TableModel, n: NodeModel)
    ensures
        t.data.len() <= node_table_step(t, n).data.len(),
{
}

/// The table of a longer prefix of the nodes has no shorter blob.
pub proof fn lemma_nodes_table_grows(nodes: Seq<NodeModel>, k: int, n: int)
    requires
        0 <= k <= n,
    ensures
        nodes_table(nodes, k).data.len() <= nodes_table(nodes, n).data.len(),
    decreases n - k,
{
    if k < n {
        lemma_nodes_table_grows(nodes, k, n - 1);
        lemma_node_step_grows(nodes_table(nodes, n - 1), nodes[n - 1]);
    }
}

/// The table of a longer prefix of the edges has no shorter blob.
pub proof fn lemma_edges_table_grows(edges: Seq<EdgeModel>, k: int, n: int)
    requires
        0 <= k <= n,
    ensures
        edges_table(edges, k).data.len() <= edges_table(edges, n).data.len(),
    decreases n - k,
{
    if k < n {
        lemma_edges_table_grows(edges, k, n - 1);
    }
}

/// Interns `s` unless the blob would grow beyond `MAX_TABLE_BYTES`.
fn intern_checked(table: &mut StringTable, s: &str) -> (ok: bool)
    requires
        old(table).wf(),
        old(table).spec_data().len() <= MAX_TABLE_BYTES,
    ensures
        ok == (tm_intern(old(table).model(), text(s@)).data.len() <= MAX_TABLE_BYTES),
        ok ==> final(table).model() == tm_intern(old(table).model(), text(s@)),
        !ok ==> final(table).model() == old(table).model(),
        final(table).wf(),
        final(table).spec_data().len() <= MAX_TABLE_BYTES,
{
    proof {
        encode_utf8_valid_utf8(s@);
    }
    if table.find(s).is_none() {
        let need: usize = s.as_bytes().len();
        if need > MAX_TABLE_BYTES - table.byte_len() {
            return false;
        }
    }
    table.intern(s);
    true
}

/// Interns `s`, if there is one, unless the blob would grow beyond
/// `MAX_TABLE_BYTES`.
fn intern_opt_checked(table: &mut StringTable, s: &Option<String>) -> (ok: bool)
    requires
        old(table).wf(),
        old(table).spec_data().len() <= MAX_TABLE_BYTES,
    ensures
        ok == (tm_intern_opt(old(table).model(), opt_text(*s)).data.len() <= MAX_TABLE_BYTES),
        ok ==> final(table).model() == tm_intern_opt(old(table).model(), opt_text(*s)),
        !ok ==> final(table).model() == old(table).model(),
        final(table).wf(),
        final(table).spec_data().len() <= MAX_TABLE_BYTES,
{
    match s {
        Some(s) => intern_checked(table, s.as_str()),
        None => true,
    }
}

/// Interns the strings of a node, unless the blob would grow beyond
/// `MAX_TABLE_BYTES`.
fn intern_node(table: &mut StringTable, node: &NodeRecord) -> (ok: bool)
    requires
        old(table).wf(),
        old(table).spec_data().len() <= MAX_TABLE_BYTES,
    ensures
        ok == (node_table_step(old(table).model(), node@).data.len() <= MAX_TABLE_BYTES),
        ok ==> final(table).model() == node_table_step(old(table).model(), node@),
        final(table).wf(),
        final(table).spec_data().len() <= MAX_TABLE_BYTES,
{
    if !intern_opt_checked(table, &node.node_type) {
        return false;
    }
    if !intern_opt_checked(table, &node.file) {
        return false;
    }
    if !intern_opt_checked(table, &node.name) {
        return false;
    }
    if !intern_checked(table, node.version.as_str()) {
        return false;
    }
    intern_opt_checked(table, &node.metadata)
}

/// Interns the strings of an edge, unless the blob would grow beyond
/// `MAX_TABLE_BYTES`.
fn intern_edge(table: &mut StringTable, edge: &EdgeRecord) -> (ok: bool)
    requires
        old(table).wf(),
        old(table).spec_data().len() <= MAX_TABLE_BYTES,
    ensures
        ok == (edge_table_step(old(table).model(), edge@).data.len() <= MAX_TABLE_BYTES),
        ok ==> final(table).model() == edge_table_step(old(table).model(), edge@),
        final(table).wf(),
        final(table).spec_data().len() <= MAX_TABLE_BYTES,
{
    if !intern_opt_checked(table, &edge.edge_type) {
        return false;
    }
    intern_opt_checked(table, &edge.metadata)
}

/// The raw-offset column entry of a string.
fn raw_offset_of(table: &StringTable, s: &Option<String>) -> (r: u32)
    ensures
        r == raw_offset(table.model(), opt_text(*s)),
{
    match s {
        Some(s) => match table.find(s.as_str()) {
            Some(o) => o,
            None => 0,
        },
        None => 0,
    }
}

/// The plus-one column entry of a string.
fn plus_one_offset_of(table: &StringTable, s: &Option<String>) -> (r: u32)
    requires
        table.wf(),
        table.spec_data().len() <= MAX_TABLE_BYTES,
    ensures
        r == plus_one_offset(table.model(), opt_text(*s)),
{
    match s {
        Some(s) => match table.find(s.as_str()) {
            Some(o) => {
                assert(table.model().index.contains_key(text(s@)));
                o + 1
            },
            None => 0,
        },
        None => 0,
    }
}

/// Appends a column of 128-bit integers.
fn write_u128_col(out: &mut Vec<u8>, vals: &Vec<u128>)
    ensures
        final(out)@ == old(out)@ + u128_col(vals@),
{
    let mut i: usize = 0;
    assert(vals@.subrange(0, 0) =~= Seq::<u128>::empty());
    assert(out@ =~= old(out)@ + u128_col(vals@.subrange(0, 0)));
    while i < vals.len()
        invariant
            i <= vals@.len(),
            out@ == old(out)@ + u128_col(vals@.subrange(0, i as int)),
        decreases vals@.len() - i,
    {
        let mut b = u128_to_le_bytes(vals[i]);
        out.append(&mut b);
        proof {
            let next = vals@.subrange(0, i + 1);
            assert(next.drop_last() =~= vals@.subrange(0, i as int));
            assert(next.last() == vals@[i as int]);
            assert(out@ =~= old(out)@ + u128_col(next));
        }
        i += 1;
    }
    assert(vals@.subrange(0, vals@.len() as int) =~= vals@);
}

/// Appends a column of 32-bit integers.
fn write_u32_col(out: &mut Vec<u8>, vals: &Vec<u32>)
    ensures
        final(out)@ == old(out)@ + u32_col(vals@),
{
    let mut i: usize = 0;
    assert(vals@.subrange(0, 0) =~= Seq::<u32>::empty());
    assert(out@ =~= old(out)@ + u32_col(vals@.subrange(0, 0)));
    while i < vals.len()
        invariant
            i <= vals@.len(),
            out@ == old(out)@ + u32_col(vals@.subrange(0, i as int)),
        decreases vals@.len() - i,
    {
        let mut b = u32_to_le_bytes(vals[i]);
        out.append(&mut b);
        proof {
            let next = vals@.subrange(0, i + 1);
            assert(next.drop_last() =~= vals@.subrange(0, i as int));
            assert(next.last() == vals@[i as int]);
            assert(out@ =~= old(out)@ + u32_col(next));
        }
        i += 1;
    }
    assert(vals@.subrange(0, vals@.len() as int) =~= vals@);
}

/// Appends a column of flags.
fn write_flag_col(out: &mut Vec<u8>, vals: &Vec<bool>)
    ensures
        final(out)@ == old(out)@ + flag_col(vals@),
{
    let mut i: usize = 0;
    assert(out@ =~= old(out)@ + flag_col(vals@).subrange(0, 0));
    while i < vals.len()
        invariant
            i <= vals@.len(),
            out@ == old(out)@ + flag_col(vals@).subrange(0, i as int),
        decreases vals@.len() - i,
    {
        out.push(if vals[i] { 1u8 } else { 0u8 });
        i += 1;
        assert(out@ =~= old(out)@ + flag_col(vals@).subrange(0, i as int));
    }
    assert(flag_col(vals@).subrange(0, vals@.len() as int) =~= flag_col(vals@));
}

/// Writes segments. It holds the directory that the images belong to; the
/// images themselves are handed back as bytes.
#[derive(Debug)]
pub struct SegmentWriter {
    path: String,
}

impl SegmentWriter {
    /// A writer for the segments of a directory.
    pub fn new(path: &str) -> (r: Self)
        ensures
            r.spec_path() == path@,
    {
        SegmentWriter { path: path.to_owned() }
    }

    /// The directory that the images belong to.
    pub closed spec fn spec_path(&self) -> Seq<char> {
        self.path@
    }

    /// The directory that the images belong to.
    pub fn path(&self) -> (r: &str)
        ensures
            r@ == self.spec_path(),
    {
        self.path.as_str()
    }

    /// The image of a nodes segment that holds `nodes`, in this order.
    /// Fails with `InvalidFormat` exactly when the nodes cannot be written.
    pub fn write_nodes(&self, nodes: &[NodeRecord]) -> (r: Result<Vec<u8>, GraphError>)
        ensures
            r.is_ok() == nodes_encodable(node_models(nodes@)),
            r matches Ok(b) ==> b@ == encode_nodes(node_models(nodes@)),
            r matches Err(e) ==> e is InvalidFormat,
    {
        let ghost ms = node_models(nodes@);
        let n: usize = nodes.len();
        if n as u64 > (u64::MAX - 30) / 38 {
            return Err(GraphError::InvalidFormat("Too many nodes".to_owned()));
        }
        let mut table = StringTable::with_sentinel();
        let mut k: usize = 0;
        while k < n
            invariant
                k <= n,
                n == nodes@.len(),
                ms == node_models(nodes@),
                table.model() == nodes_table(ms, k as int),
                table.wf(),
                table.spec_data().len() <= MAX_TABLE_BYTES,
            decreases n - k,
        {
            if !intern_node(&mut table, &nodes[k]) {
                proof {
                    lemma_nodes_table_grows(ms, k + 1, n as int);
                }
                return Err(GraphError::InvalidFormat("String table too large".to_owned()));
            }
            k += 1;
        }
        let ghost t = table.model();
        let mut ids: Vec<u128> = Vec::new();
        let mut type_offsets: Vec<u32> = Vec::new();
        let mut file_ids: Vec<u32> = Vec::new();
        let mut name_offsets: Vec<u32> = Vec::new();
        let mut version_offsets: Vec<u32> = Vec::new();
        let mut exported_flags: Vec<bool> = Vec::new();
        let mut deleted_flags: Vec<bool> = Vec::new();
        let mut metadata_offsets: Vec<u32> = Vec::new();
        let mut i: usize = 0;
        while i < n
            invariant
                i <= n,
                n == nodes@.len(),
                ms == node_models(nodes@),
                t == table.model(),
                table.wf(),
                table.spec_data().len() <= MAX_TABLE_BYTES,
                ids@ == ms.subrange(0, i as int).map_values(|n: NodeModel| n.id),
                type_offsets@ == ms.subrange(0, i as int).map_values(
                    |n: NodeModel| raw_offset(t, n.node_type),
                ),
                file_ids@ == ms.subrange(0, i as int).map_values(
                    |n: NodeModel| plus_one_offset(t, n.file),
                ),
                name_offsets@ == ms.subrange(0, i as int).map_values(
                    |n: NodeModel| plus_one_offset(t, n.name),
                ),
                version_offsets@ == ms.subrange(0, i as int).map_values(
                    |n: NodeModel| raw_offset(t, Some(n.version)),
                ),
                exported_flags@ == ms.subrange(0, i as int).map_values(|n: NodeModel| n.exported),
                deleted_flags@ == ms.subrange(0, i as int).map_values(|n: NodeModel| n.deleted),
                metadata_offsets@ == ms.subrange(0, i as int).map_values(
                    |n: NodeModel| raw_offset(t, n.metadata),
                ),
            decreases n - i,
        {
            let node = &nodes[i];
            assert(ms[i as int] == node@);
            ids.push(node.id);
            type_offsets.push(raw_offset_of(&table, &node.node_type));
            file_ids.push(plus_one_offset_of(&table, &node.file));
            name_offsets.push(plus_one_offset_of(&table, &node.name));
            let v: u32 = match table.find(node.version.as_str()) {
                Some(o) => o,
                None => 0,
            };
            version_offsets.push(v);
            exported_flags.push(node.exported);
            deleted_flags.push(node.deleted);
            metadata_offsets.push(raw_offset_of(&table, &node.metadata));
            proof {
                let a = ms.subrange(0, i as int);
                let b = ms.subrange(0, i + 1);
                assert(b =~= a.push(ms[i as int]));
                assert(ids@ =~= b.map_values(|n: NodeModel| n.id));
                assert(type_offsets@ =~= b.map_values(|n: NodeModel| raw_offset(t, n.node_type)));
                assert(file_ids@ =~= b.map_values(|n: NodeModel| plus_one_offset(t, n.file)));
                assert(name_offsets@ =~= b.map_values(|n: NodeModel| plus_one_offset(t, n.name)));
                assert(version_offsets@ =~= b.map_values(
                    |n: NodeModel| raw_offset(t, Some(n.version)),
                ));
                assert(exported_flags@ =~= b.map_values(|n: NodeModel| n.exported));
                assert(deleted_flags@ =~= b.map_values(|n: NodeModel| n.deleted));
                assert(metadata_offsets@ =~= b.map_values(|n: NodeModel| raw_offset(t, n.metadata)));
            }
            i += 1;
        }
        assert(ms.subrange(0, n as int) =~= ms);
        let header = SegmentHeader::new(n as u64, 0, 30 + 38 * (n as u64));
        assert(header_bytes(header) == header_bytes(nodes_header(ms.len())));
        let mut out: Vec<u8> = Vec::new();
        self.write_header(&mut out, &header);
        write_u128_col(&mut out, &ids);
        write_u32_col(&mut out, &type_offsets);
        write_u32_col(&mut out, &file_ids);
        write_u32_col(&mut out, &name_offsets);
        write_u32_col(&mut out, &version_offsets);
        write_flag_col(&mut out, &exported_flags);
        write_flag_col(&mut out, &deleted_flags);
        write_u32_col(&mut out, &metadata_offsets);
        table.write_to(&mut out);
        assert(out@ =~= encode_nodes(ms));
        Ok(out)
    }

    /// The image of an edges segment that holds `edges`, in this order.
    /// Fails with `InvalidFormat` exactly when the edges cannot be written.
    pub fn write_edges(&self, edges: &[EdgeRecord]) -> (r: Result<Vec<u8>, GraphError>)
        ensures
            r.is_ok() == edges_encodable(edge_models(edges@)),
            r matches Ok(b) ==> b@ == encode_edges(edge_models(edges@)),
            r matches Err(e) ==> e is InvalidFormat,
    {
        let ghost ms = edge_models(edges@);
        let n: usize = edges.len();
        if n as u64 > (u64::MAX - 30) / 41 {
            return Err(GraphError::InvalidFormat("Too many edges".to_owned()));
        }
        let mut table = StringTable::with_sentinel();
        let mut k: usize = 0;
        while k < n
            invariant
                k <= n,
                n == edges@.len(),
                ms == edge_models(edges@),
                table.model() == edges_table(ms, k as int),
                table.wf(),
                table.spec_data().len() <= MAX_TABLE_BYTES,
            decreases n - k,
        {
            if !intern_edge(&mut table, &edges[k]) {
                proof {
                    lemma_edges_table_grows(ms, k + 1, n as int);
                }
                return Err(GraphError::InvalidFormat("String table too large".to_owned()));
            }
            k += 1;
        }
        let ghost t = table.model();
        let mut srcs: Vec<u128> = Vec::new();
        let mut dsts: Vec<u128> = Vec::new();
        let mut type_offsets: Vec<u32> = Vec::new();
        let mut metadata_offsets: Vec<u32> = Vec::new();
        let mut deleted_flags: Vec<bool> = Vec::new();
        let mut i: usize = 0;
        while i < n
            invariant
                i <= n,
                n == edges@.len(),
                ms == edge_models(edges@),
                t == table.model(),
                srcs@ == ms.subrange(0, i as int).map_values(|e: EdgeModel| e.src),
                dsts@ == ms.subrange(0, i as int).map_values(|e: EdgeModel| e.dst),
                type_offsets@ == ms.subrange(0, i as int).map_values(
                    |e: EdgeModel| raw_offset(t, e.edge_type),
                ),
                metadata_offsets@ == ms.subrange(0, i as int).map_values(
                    |e: EdgeModel| raw_offset(t, e.metadata),
                ),
                deleted_flags@ == ms.subrange(0, i as int).map_values(|e: EdgeModel| e.deleted),
            decreases n - i,
        {
            let edge = &edges[i];
            assert(ms[i as int] == edge@);
            srcs.push(edge.src);
            dsts.push(edge.dst);
            type_offsets.push(raw_offset_of(&table, &edge.edge_type));
            metadata_offsets.push(raw_offset_of(&table, &edge.metadata));
            deleted_flags.push(edge.deleted);
            proof {
                let a = ms.subrange(0, i as int);
                let b = ms.subrange(0, i + 1);
                assert(b =~= a.push(ms[i as int]));
                assert(srcs@ =~= b.map_values(|e: EdgeModel| e.src));
                assert(dsts@ =~= b.map_values(|e: EdgeModel| e.dst));
                assert(type_offsets@ =~= b.map_values(|e: EdgeModel| raw_offset(t, e.edge_type)));
                assert(metadata_offsets@ =~= b.map_values(
                    |e: EdgeModel| raw_offset(t, e.metadata),
                ));
                assert(deleted_flags@ =~= b.map_values(|e: EdgeModel| e.deleted));
            }
            i += 1;
        }
        assert(ms.subrange(0, n as int) =~= ms);
        let header = SegmentHeader::new(0, n as u64, 30 + 41 * (n as u64));
        assert(header_bytes(header) == header_bytes(edges_header(ms.len())));
        let mut out: Vec<u8> = Vec::new();
        self.write_header(&mut out, &header);
        write_u128_col(&mut out, &srcs);
        write_u128_col(&mut out, &dsts);
        write_u32_col(&mut out, &type_offsets);
        write_u32_col(&mut out, &metadata_offsets);
        write_flag_col(&mut out, &deleted_flags);
        table.write_to(&mut out);
        assert(out@ =~= encode_edges(ms));
        Ok(out)
    }

    /// Appends a header as it is stored.
    pub fn write_header(&self, out: &mut Vec<u8>, header: &SegmentHeader)
        ensures
            final(out)@ == old(out)@ + header_bytes(*header),
    {
        out.push(header.magic[0]);
        out.push(header.magic[1]);
        out.push(header.magic[2]);
        out.push(header.magic[3]);
        assert(out@ =~= old(out)@ + header.magic@);
        let mut v = u16_to_le_bytes(header.version);
        out.append(&mut v);
        let mut nc = u64_to_le_bytes(header.node_count);
        out.append(&mut nc);
        let mut ec = u64_to_le_bytes(header.edge_count);
        out.append(&mut ec);
        let mut st = u64_to_le_bytes(header.string_table_offset);
        out.append(&mut st);
        assert(out@ =~= old(out)@ + header_bytes(*header));
    }
}

/// What `metadata.json` records of a graph. It is written for people: the
/// engine never reads it back.
#[derive(Debug)]
pub struct GraphMetadata {
    pub version: String,
    pub node_count: usize,
    pub edge_count: usize,
    /// Unix seconds.
    pub created_at: u64,
    /// Unix seconds.
    pub updated_at: u64,
}

/// `SystemTime::now`, as whole seconds since the Unix epoch. Nothing is
/// claimed of the clock.
#[verifier::external_body]
pub(crate) fn unix_now() -> u64 {
    match std::time::SystemTime::now().duration_since(std::time::UNIX_EPOCH) {
        Ok(d) => d.as_secs(),
        Err(_) => 0,
    }
}

impl GraphMetadata {
    /// The metadata of an empty graph created at `now`.
    pub fn created(now: u64) -> (r: Self)
        ensures
            text(r.version@) == text("1.0"@),
            r.node_count == 0,
            r.edge_count == 0,
            r.created_at == now,
            r.updated_at == now,
    {
        GraphMetadata {
            version: "1.0".to_owned(),
            node_count: 0,
            edge_count: 0,
            created_at: now,
            updated_at: now,
        }
    }
}

impl Clone for GraphMetadata {
    fn clone(&self) -> (r: Self)
        ensures
            r == *self,
    {
        GraphMetadata {
            version: self.version.clone(),
            node_count: self.node_count,
            edge_count: self.edge_count,
            created_at: self.created_at,
            updated_at: self.updated_at,
        }
    }
}

impl Default for GraphMetadata {
    /// The metadata of an empty graph created now.
    fn default() -> (r: Self)
        ensures
            text(r.version@) == text("1.0"@),
            r.node_count == 0,
            r.edge_count == 0,
            r.created_at == r.updated_at,
    {
        GraphMetadata::created(unix_now())
    }
}

} // verus!
