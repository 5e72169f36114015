//! Immutable segments: the columnar images of the nodes and of the edges.
//!
//! A segment is a byte image: a 30-byte header, fixed-width columns, and a
//! string table. Everything a segment answers is a function of its bytes;
//! the spec functions of this module say which.

use vstd::bytes::*;
use vstd::prelude::*;
use vstd::slice::*;
use vstd::string::*;

use crate::error::GraphError;
use crate::storage::{EdgeModel, EdgeRecord, NodeModel, NodeRecord};
use crate::storage::string_table::{
    stored_data, stored_offsets, stored_table, table_fits, text_at, StringTable,
};
use crate::text::text;

verus! {

/// The first four bytes of every segment: `SGRF`.
pub const MAGIC: [u8; 4] = [83u8, 71u8, 82u8, 70u8];

/// The format version that this library reads and writes.
pub const FORMAT_VERSION: u16 = 1;

/// The header's size in a file: 4 + 2 + 8 + 8 + 8 bytes, no padding.
pub const HEADER_SIZE_ON_DISK: usize = 30;

/// The header of a segment.
#[derive(Debug, Clone, Copy)]
pub struct SegmentHeader {
    pub magic: [u8; 4],
    pub version: u16,
    pub node_count: u64,
    pub edge_count: u64,
    pub string_table_offset: u64,
}

/// The magic bytes as a sequence.
pub open spec fn magic_bytes() -> Seq<u8> {
    seq![83u8, 71u8, 82u8, 70u8]
}

/// A header as it is stored: magic, version, node count, edge count and
/// string-table offset, integers little-endian.
pub open spec fn header_bytes(h: SegmentHeader) -> Seq<u8> {
    h.magic@ + spec_u16_to_le_bytes(h.version) + spec_u64_to_le_bytes(h.node_count)
        + spec_u64_to_le_bytes(h.edge_count) + spec_u64_to_le_bytes(h.string_table_offset)
}

/// The version that an image announces.
pub open spec fn stored_version(b: Seq<u8>) -> u16 {
    spec_u16_from_le_bytes(b.subrange(4, 6))
}

/// The node count that an image announces.
pub open spec fn stored_node_count(b: Seq<u8>) -> u64 {
    spec_u64_from_le_bytes(b.subrange(6, 14))
}

/// The edge count that an image announces.
pub open spec fn stored_edge_count(b: Seq<u8>) -> u64 {
    spec_u64_from_le_bytes(b.subrange(14, 22))
}

/// The string-table offset that an image announces.
pub open spec fn stored_table_offset(b: Seq<u8>) -> u64 {
    spec_u64_from_le_bytes(b.subrange(22, 30))
}

/// The image starts with a header of this format.
pub open spec fn header_ok(b: Seq<u8>) -> bool {
    &&& b.len() >= 30
    &&& b.subrange(0, 4) == magic_bytes()
    &&& stored_version(b) == FORMAT_VERSION
}

/// The image holds a string table that can be read.
pub open spec fn table_present(b: Seq<u8>) -> bool {
    &&& 0 < stored_table_offset(b) < b.len()
    &&& table_fits(b.subrange(stored_table_offset(b) as int, b.len() as int))
}

/// The text that the image's string table holds at `offset`.
pub open spec fn seg_text(b: Seq<u8>, offset: u32) -> Option<Seq<u8>> {
    if table_present(b) {
        let t = b.subrange(stored_table_offset(b) as int, b.len() as int);
        text_at(stored_data(t), stored_offsets(t), offset)
    } else {
        None
    }
}

/// The 32-bit little-endian integer at `at`.
pub open spec fn u32_at(b: Seq<u8>, at: int) -> u32 {
    spec_u32_from_le_bytes(b.subrange(at, at + 4))
}

/// The 128-bit little-endian integer at `at`.
pub open spec fn u128_at(b: Seq<u8>, at: int) -> u128 {
    spec_u128_from_le_bytes(b.subrange(at, at + 16))
}

// ---------------------------------------------------------------------
// The nodes image
// ---------------------------------------------------------------------

/// The bytes are a nodes image: a good header, and room for all eight
/// columns of the announced number of nodes (38 bytes a node).
pub open spec fn nodes_image_ok(b: Seq<u8>) -> bool {
    &&& header_ok(b)
    &&& 30 + 38 * stored_node_count(b) <= b.len()
}

/// Where each column of a nodes image starts.
pub open spec fn node_ids_at(b: Seq<u8>) -> int {
    30
}

pub open spec fn node_types_at(b: Seq<u8>) -> int {
    30 + 16 * stored_node_count(b)
}

pub open spec fn node_files_at(b: Seq<u8>) -> int {
    30 + 20 * stored_node_count(b)
}

pub open spec fn node_names_at(b: Seq<u8>) -> int {
    30 + 24 * stored_node_count(b)
}

pub open spec fn node_versions_at(b: Seq<u8>) -> int {
    30 + 28 * stored_node_count(b)
}

pub open spec fn node_exported_at(b: Seq<u8>) -> int {
    30 + 32 * stored_node_count(b)
}

pub open spec fn node_deleted_at(b: Seq<u8>) -> int {
    30 + 33 * stored_node_count(b)
}

pub open spec fn node_metadata_at(b: Seq<u8>) -> int {
    30 + 34 * stored_node_count(b)
}

/// The columns of node `i` of a nodes image.
pub open spec fn node_id(b: Seq<u8>, i: int) -> u128 {
    u128_at(b, node_ids_at(b) + 16 * i)
}

pub open spec fn node_type_offset(b: Seq<u8>, i: int) -> u32 {
    u32_at(b, node_types_at(b) + 4 * i)
}

pub open spec fn node_file_id(b: Seq<u8>, i: int) -> u32 {
    u32_at(b, node_files_at(b) + 4 * i)
}

pub open spec fn node_name_offset(b: Seq<u8>, i: int) -> u32 {
    u32_at(b, node_names_at(b) + 4 * i)
}

pub open spec fn node_version_offset(b: Seq<u8>, i: int) -> u32 {
    u32_at(b, node_versions_at(b) + 4 * i)
}

pub open spec fn node_exported(b: Seq<u8>, i: int) -> bool {
    b[node_exported_at(b) + i] != 0
}

pub open spec fn node_deleted(b: Seq<u8>, i: int) -> bool {
    b[node_deleted_at(b) + i] != 0
}

pub open spec fn node_metadata_offset(b: Seq<u8>, i: int) -> u32 {
    u32_at(b, node_metadata_at(b) + 4 * i)
}

/// The type of node `i`: offset 0 stands for no type.
pub open spec fn node_type(b: Seq<u8>, i: int) -> Option<Seq<u8>> {
    if node_type_offset(b, i) == 0 {
        None
    } else {
        seg_text(b, node_type_offset(b, i))
    }
}

/// The file of node `i`: the column holds the offset plus one, and 0 for no
/// file.
pub open spec fn node_file(b: Seq<u8>, i: int) -> Option<Seq<u8>> {
    if node_file_id(b, i) == 0 {
        None
    } else {
        seg_text(b, (node_file_id(b, i) - 1) as u32)
    }
}

/// The name of node `i`: the column holds the offset plus one, and 0 for no
/// name.
pub open spec fn node_name(b: Seq<u8>, i: int) -> Option<Seq<u8>> {
    if node_name_offset(b, i) == 0 {
        None
    } else {
        seg_text(b, (node_name_offset(b, i) - 1) as u32)
    }
}

/// The version of node `i`, by its raw offset.
pub open spec fn node_version(b: Seq<u8>, i: int) -> Option<Seq<u8>> {
    seg_text(b, node_version_offset(b, i))
}

/// The metadata of node `i`: offset 0 stands for none.
pub open spec fn node_metadata(b: Seq<u8>, i: int) -> Option<Seq<u8>> {
    if node_metadata_offset(b, i) == 0 {
        None
    } else {
        seg_text(b, node_metadata_offset(b, i))
    }
}

/// The version that a node without a readable version string is given.
pub open spec fn default_version() -> Seq<u8> {
    text("main"@)
}

/// Node `i` of a nodes image as a record. A version that cannot be read is
/// `main`; what a segment does not store (`replaces`) is absent.
pub open spec fn node_row(b: Seq<u8>, i: int) -> NodeModel {
    NodeModel {
        id: node_id(b, i),
        node_type: node_type(b, i),
        file_id: node_file_id(b, i),
        name_offset: node_name_offset(b, i),
        version: match node_version(b, i) {
            Some(v) => v,
            None => default_version(),
        },
        exported: node_exported(b, i),
        replaces: None,
        deleted: false,
        name: node_name(b, i),
        file: node_file(b, i),
        metadata: node_metadata(b, i),
    }
}

/// The first index among the first `n` nodes that holds `id`.
pub open spec fn first_index_of(b: Seq<u8>, id: u128, n: int) -> Option<int>
    decreases n,
{
    if n <= 0 {
        None
    } else {
        match first_index_of(b, id, n - 1) {
            Some(i) => Some(i),
            None => if node_id(b, n - 1) == id {
                Some(n - 1)
            } else {
                None
            },
        }
    }
}

/// The first index that holds an id stays the first when more nodes are
/// looked at.
pub proof fn lemma_first_index_found(b: Seq<u8>, id: u128, i: int, n: int)
    requires
        0 <= i < n,
        first_index_of(b, id, i).is_none(),
        node_id(b, i) == id,
    ensures
        first_index_of(b, id, n) == Some(i),
    decreases n - i,
{
    if n > i + 1 {
        lemma_first_index_found(b, id, i, n - 1);
    }
}

/// The index that `first_index_of` finds holds the id, and no earlier one
/// does; where it finds none, no index holds it.
pub proof fn lemma_first_index_of(b: Seq<u8>, id: u128, n: int)
    ensures
        first_index_of(b, id, n) matches Some(i) ==> 0 <= i < n && node_id(b, i) == id
            && forall|j: int| 0 <= j < i ==> node_id(b, j) != id,
        first_index_of(b, id, n).is_none() ==> forall|j: int| 0 <= j < n ==> node_id(b, j) != id,
    decreases n,
{
    if n > 0 {
        lemma_first_index_of(b, id, n - 1);
    }
}

/// Reads the header at the start of an image of at least 30 bytes.
pub fn read_header(b: &[u8]) -> (h: SegmentHeader)
    requires
        b@.len() >= 30,
    ensures
        h.magic@ == b@.subrange(0, 4),
        h.version == stored_version(b@),
        h.node_count == stored_node_count(b@),
        h.edge_count == stored_edge_count(b@),
        h.string_table_offset == stored_table_offset(b@),
{
    let magic: [u8; 4] = [b[0], b[1], b[2], b[3]];
    assert(magic@ =~= b@.subrange(0, 4));
    SegmentHeader {
        magic,
        version: u16_from_le_bytes(slice_subrange(b, 4, 6)),
        node_count: u64_from_le_bytes(slice_subrange(b, 6, 14)),
        edge_count: u64_from_le_bytes(slice_subrange(b, 14, 22)),
        string_table_offset: u64_from_le_bytes(slice_subrange(b, 22, 30)),
    }
}

/// Loads the string table of an image, if it holds one that can be read.
fn read_table(b: &[u8], h: &SegmentHeader) -> (r: Option<StringTable>)
    requires
        b@.len() >= 30,
        h.string_table_offset == stored_table_offset(b@),
    ensures
        r.is_some() == table_present(b@),
        r matches Some(t) ==> t.model() == stored_table(
            b@.subrange(stored_table_offset(b@) as int, b@.len() as int),
        ),
{
    if h.string_table_offset > 0 && h.string_table_offset < b.len() as u64 {
        let at: usize = h.string_table_offset as usize;
        match StringTable::load_from_mmap_slice(slice_subrange(b, at, b.len())) {
            Ok(t) => Some(t),
            Err(_) => None,
        }
    } else {
        None
    }
}

impl SegmentHeader {
    /// The header of a segment of the current format.
    pub fn new(node_count: u64, edge_count: u64, string_table_offset: u64) -> (h: Self)
        ensures
            h.magic@ == magic_bytes(),
            h.version == FORMAT_VERSION,
            h.node_count == node_count,
            h.edge_count == edge_count,
            h.string_table_offset == string_table_offset,
    {
        let h = SegmentHeader {
            magic: MAGIC,
            version: FORMAT_VERSION,
            node_count,
            edge_count,
            string_table_offset,
        };
        assert(h.magic@ =~= magic_bytes());
        h
    }

    /// The header is one of this format: the magic is `SGRF` and the
    /// version is the one this library reads.
    pub open spec fn is_valid(&self) -> bool {
        self.magic@ == magic_bytes() && self.version == FORMAT_VERSION
    }

    /// Accepts the header of a segment of the current format; any other
    /// header is rejected with `InvalidFormat`.
    pub fn validate(&self) -> (r: Result<(), GraphError>)
        ensures
            r.is_ok() == self.is_valid(),
            r matches Err(e) ==> e is InvalidFormat,
    {
        if self.magic[0] != 83u8 || self.magic[1] != 71u8 || self.magic[2] != 82u8
            || self.magic[3] != 70u8 {
            return Err(GraphError::InvalidFormat("Wrong magic number".to_owned()));
        }
        assert(self.magic@ =~= magic_bytes());
        if self.version != FORMAT_VERSION {
            return Err(GraphError::InvalidFormat("Unsupported format version".to_owned()));
        }
        Ok(())
    }
}

/// The nodes of a snapshot, read from their image.
pub struct NodesSegment {
    data: Vec<u8>,
    header: SegmentHeader,
    node_count: usize,
    ids_offset: usize,
    type_offsets_offset: usize,
    file_ids_offset: usize,
    name_offsets_offset: usize,
    version_offsets_offset: usize,
    exported_offset: usize,
    deleted_offset: usize,
    metadata_offsets_offset: usize,
    string_table: Option<StringTable>,
}

impl NodesSegment {
    /// The image.
    pub closed spec fn bytes(&self) -> Seq<u8> {
        self.data@
    }

    /// The number of nodes in the image, tombstoned ones included.
    pub open spec fn count(&self) -> int {
        stored_node_count(self.bytes()) as int
    }

    #[verifier::type_invariant]
    spec fn inv(&self) -> bool {
        let b = self.data@;
        &&& nodes_image_ok(b)
        &&& self.node_count == stored_node_count(b)
        &&& self.header.node_count == stored_node_count(b)
        &&& self.ids_offset == node_ids_at(b)
        &&& self.type_offsets_offset == node_types_at(b)
        &&& self.file_ids_offset == node_files_at(b)
        &&& self.name_offsets_offset == node_names_at(b)
        &&& self.version_offsets_offset == node_versions_at(b)
        &&& self.exported_offset == node_exported_at(b)
        &&& self.deleted_offset == node_deleted_at(b)
        &&& self.metadata_offsets_offset == node_metadata_at(b)
        &&& self.string_table.is_some() == table_present(b)
        &&& self.string_table matches Some(t) ==> t.model() == stored_table(
            b.subrange(stored_table_offset(b) as int, b.len() as int),
        )
    }

    /// Takes the image of a nodes segment. Fails with `InvalidFormat`
    /// exactly when the bytes are no nodes image: shorter than a header,
    /// wrong magic or version, or too short for the announced columns. A
    /// string table that cannot be read is no error: the segment then has
    /// no strings.
    pub fn open(data: Vec<u8>) -> (r: Result<Self, GraphError>)
        ensures
            r.is_ok() == nodes_image_ok(data@),
            r matches Ok(s) ==> s.bytes() == data@,
            r matches Err(e) ==> e is InvalidFormat,
    {
        if data.len() < HEADER_SIZE_ON_DISK {
            return Err(GraphError::InvalidFormat("File too small".to_owned()));
        }
        let header = read_header(data.as_slice());
        match header.validate() {
            Err(e) => {
                return Err(e);
            },
            Ok(_) => {},
        }
        if header.node_count > ((data.len() - HEADER_SIZE_ON_DISK) / 38) as u64 {
            return Err(GraphError::InvalidFormat("Truncated segment".to_owned()));
        }
        let node_count: usize = header.node_count as usize;
        let string_table = read_table(data.as_slice(), &header);
        Ok(
            NodesSegment {
                data,
                header,
                node_count,
                ids_offset: HEADER_SIZE_ON_DISK,
                type_offsets_offset: HEADER_SIZE_ON_DISK + 16 * node_count,
                file_ids_offset: HEADER_SIZE_ON_DISK + 20 * node_count,
                name_offsets_offset: HEADER_SIZE_ON_DISK + 24 * node_count,
                version_offsets_offset: HEADER_SIZE_ON_DISK + 28 * node_count,
                exported_offset: HEADER_SIZE_ON_DISK + 32 * node_count,
                deleted_offset: HEADER_SIZE_ON_DISK + 33 * node_count,
                metadata_offsets_offset: HEADER_SIZE_ON_DISK + 34 * node_count,
                string_table,
            },
        )
    }

    /// The number of nodes in the image, tombstoned ones included.
    pub fn node_count(&self) -> (r: usize)
        ensures
            r == self.count(),
            nodes_image_ok(self.bytes()),
    {
        proof {
            use_type_invariant(self);
        }
        self.node_count
    }

    fn read_u128_at(&self, offset: usize) -> (r: u128)
        requires
            offset + 16 <= self.bytes().len(),
        ensures
            r == u128_at(self.bytes(), offset as int),
    {
        let n: usize = self.data.len();
        u128_from_le_bytes(slice_subrange(self.data.as_slice(), offset, offset + 16))
    }

    fn read_u32_at(&self, offset: usize) -> (r: u32)
        requires
            offset + 4 <= self.bytes().len(),
        ensures
            r == u32_at(self.bytes(), offset as int),
    {
        let n: usize = self.data.len();
        u32_from_le_bytes(slice_subrange(self.data.as_slice(), offset, offset + 4))
    }

    /// The id of node `idx`.
    pub fn get_id(&self, idx: usize) -> (r: Option<u128>)
        ensures
            r == if idx < self.count() {
                Some(node_id(self.bytes(), idx as int))
            } else {
                None
            },
    {
        proof {
            use_type_invariant(self);
        }
        if idx >= self.node_count {
            return None;
        }
        Some(self.read_u128_at(self.ids_offset + idx * 16))
    }

    /// The string-table offset of the type of node `idx`.
    pub fn get_type_offset(&self, idx: usize) -> (r: Option<u32>)
        ensures
            r == if idx < self.count() {
                Some(node_type_offset(self.bytes(), idx as int))
            } else {
                None
            },
    {
        proof {
            use_type_invariant(self);
        }
        if idx >= self.node_count {
            return None;
        }
        Some(self.read_u32_at(self.type_offsets_offset + idx * 4))
    }

    /// The type of node `idx`.
    pub fn get_node_type(&self, idx: usize) -> (r: Option<&str>)
        ensures
            idx < self.count() ==> opt_str_text(r) == node_type(self.bytes(), idx as int),
            idx >= self.count() ==> r.is_none(),
    {
        match self.get_type_offset(idx) {
            Some(o) => if o == 0 {
                None
            } else {
                self.get_string(o)
            },
            None => None,
        }
    }

    /// The file column of node `idx`: the file's offset plus one, or 0.
    pub fn get_file_id(&self, idx: usize) -> (r: Option<u32>)
        ensures
            r == if idx < self.count() {
                Some(node_file_id(self.bytes(), idx as int))
            } else {
                None
            },
    {
        proof {
            use_type_invariant(self);
        }
        if idx >= self.node_count {
            return None;
        }
        Some(self.read_u32_at(self.file_ids_offset + idx * 4))
    }

    /// The name column of node `idx`: the name's offset plus one, or 0.
    pub fn get_name_offset(&self, idx: usize) -> (r: Option<u32>)
        ensures
            r == if idx < self.count() {
                Some(node_name_offset(self.bytes(), idx as int))
            } else {
                None
            },
    {
        proof {
            use_type_invariant(self);
        }
        if idx >= self.node_count {
            return None;
        }
        Some(self.read_u32_at(self.name_offsets_offset + idx * 4))
    }

    /// Whether node `idx` is tombstoned in the image; `false` beyond the
    /// last node.
    pub fn is_deleted(&self, idx: usize) -> (r: bool)
        ensures
            r == (idx < self.count() && node_deleted(self.bytes(), idx as int)),
    {
        proof {
            use_type_invariant(self);
        }
        if idx >= self.node_count {
            return false;
        }
        self.data[self.deleted_offset + idx] != 0
    }

    /// The indices of all nodes, tombstoned ones included.
    pub fn iter_indices(&self) -> (r: core::ops::Range<usize>)
        ensures
            r.start == 0,
            r.end == self.count(),
    {
        0..self.node_count()
    }

    /// The first index that holds `id`.
    pub fn find_index(&self, id: u128) -> (r: Option<usize>)
        ensures
            r matches Some(i) ==> first_index_of(self.bytes(), id, self.count()) == Some(i as int),
            r.is_none() ==> first_index_of(self.bytes(), id, self.count()).is_none(),
    {
        proof {
            use_type_invariant(self);
        }
        let mut idx: usize = 0;
        while idx < self.node_count
            invariant
                idx <= self.node_count,
                self.node_count == self.count(),
                first_index_of(self.bytes(), id, idx as int).is_none(),
            decreases self.node_count - idx,
        {
            if self.get_id(idx) == Some(id) {
                proof {
                    lemma_first_index_found(self.bytes(), id, idx as int, self.count());
                }
                return Some(idx);
            }
            idx += 1;
        }
        None
    }

    /// The string that the segment's table holds at `offset`.
    pub fn get_string(&self, offset: u32) -> (r: Option<&str>)
        ensures
            opt_str_text(r) == seg_text(self.bytes(), offset),
    {
        proof {
            use_type_invariant(self);
        }
        match &self.string_table {
            Some(t) => t.get(offset),
            None => None,
        }
    }

    /// The file of node `idx`.
    pub fn get_file_path(&self, idx: usize) -> (r: Option<&str>)
        ensures
            idx < self.count() ==> opt_str_text(r) == node_file(self.bytes(), idx as int),
            idx >= self.count() ==> r.is_none(),
    {
        match self.get_file_id(idx) {
            Some(f) => if f == 0 {
                None
            } else {
                self.get_string(f - 1)
            },
            None => None,
        }
    }

    /// The name of node `idx`.
    pub fn get_name(&self, idx: usize) -> (r: Option<&str>)
        ensures
            idx < self.count() ==> opt_str_text(r) == node_name(self.bytes(), idx as int),
            idx >= self.count() ==> r.is_none(),
    {
        match self.get_name_offset(idx) {
            Some(n) => if n == 0 {
                None
            } else {
                self.get_string(n - 1)
            },
            None => None,
        }
    }

    /// The string-table offset of the version of node `idx`.
    pub fn get_version_offset(&self, idx: usize) -> (r: Option<u32>)
        ensures
            r == if idx < self.count() {
                Some(node_version_offset(self.bytes(), idx as int))
            } else {
                None
            },
    {
        proof {
            use_type_invariant(self);
        }
        if idx >= self.node_count {
            return None;
        }
        Some(self.read_u32_at(self.version_offsets_offset + idx * 4))
    }

    /// The version of node `idx`.
    pub fn get_version(&self, idx: usize) -> (r: Option<&str>)
        ensures
            idx < self.count() ==> opt_str_text(r) == node_version(self.bytes(), idx as int),
            idx >= self.count() ==> r.is_none(),
    {
        match self.get_version_offset(idx) {
            Some(o) => self.get_string(o),
            None => None,
        }
    }

    /// The string-table offset of the metadata of node `idx`.
    pub fn get_metadata_offset(&self, idx: usize) -> (r: Option<u32>)
        ensures
            r == if idx < self.count() {
                Some(node_metadata_offset(self.bytes(), idx as int))
            } else {
                None
            },
    {
        proof {
            use_type_invariant(self);
        }
        if idx >= self.node_count {
            return None;
        }
        let n: usize = self.data.len();
        Some(self.read_u32_at(self.metadata_offsets_offset + idx * 4))
    }

    /// The metadata of node `idx`.
    pub fn get_metadata(&self, idx: usize) -> (r: Option<&str>)
        ensures
            idx < self.count() ==> opt_str_text(r) == node_metadata(self.bytes(), idx as int),
            idx >= self.count() ==> r.is_none(),
    {
        match self.get_metadata_offset(idx) {
            Some(o) => if o == 0 {
                None
            } else {
                self.get_string(o)
            },
            None => None,
        }
    }

    /// Whether node `idx` is exported.
    pub fn get_exported(&self, idx: usize) -> (r: Option<bool>)
        ensures
            r == if idx < self.count() {
                Some(node_exported(self.bytes(), idx as int))
            } else {
                None
            },
    {
        proof {
            use_type_invariant(self);
        }
        if idx >= self.node_count {
            return None;
        }
        Some(self.data[self.exported_offset + idx] != 0)
    }

    /// Node `idx` as a record.
    pub fn node_at(&self, idx: usize) -> (r: NodeRecord)
        requires
            idx < self.count(),
        ensures
            r@ == node_row(self.bytes(), idx as int),
    {
        let version = match self.get_version(idx) {
            Some(v) => v.to_owned(),
            None => "main".to_owned(),
        };
        NodeRecord {
            id: self.get_id(idx).unwrap(),
            node_type: own(self.get_node_type(idx)),
            file_id: self.get_file_id(idx).unwrap(),
            name_offset: self.get_name_offset(idx).unwrap(),
            version,
            exported: self.get_exported(idx).unwrap(),
            replaces: None,
            deleted: false,
            name: own(self.get_name(idx)),
            file: own(self.get_file_path(idx)),
            metadata: own(self.get_metadata(idx)),
        }
    }
}

// ---------------------------------------------------------------------
// The edges image
// ---------------------------------------------------------------------

/// The bytes are an edges image: a good header, and room for all five
/// columns of the announced number of edges (41 bytes an edge).
pub open spec fn edges_image_ok(b: Seq<u8>) -> bool {
    &&& header_ok(b)
    &&& 30 + 41 * stored_edge_count(b) <= b.len()
}

/// Where each column of an edges image starts.
pub open spec fn edge_srcs_at(b: Seq<u8>) -> int {
    30
}

pub open spec fn edge_dsts_at(b: Seq<u8>) -> int {
    30 + 16 * stored_edge_count(b)
}

pub open spec fn edge_types_at(b: Seq<u8>) -> int {
    30 + 32 * stored_edge_count(b)
}

pub open spec fn edge_metadata_at(b: Seq<u8>) -> int {
    30 + 36 * stored_edge_count(b)
}

pub open spec fn edge_deleted_at(b: Seq<u8>) -> int {
    30 + 40 * stored_edge_count(b)
}

/// The columns of edge `i` of an edges image.
pub open spec fn edge_src(b: Seq<u8>, i: int) -> u128 {
    u128_at(b, edge_srcs_at(b) + 16 * i)
}

pub open spec fn edge_dst(b: Seq<u8>, i: int) -> u128 {
    u128_at(b, edge_dsts_at(b) + 16 * i)
}

pub open spec fn edge_type_offset(b: Seq<u8>, i: int) -> u32 {
    u32_at(b, edge_types_at(b) + 4 * i)
}

pub open spec fn edge_metadata_offset(b: Seq<u8>, i: int) -> u32 {
    u32_at(b, edge_metadata_at(b) + 4 * i)
}

pub open spec fn edge_deleted(b: Seq<u8>, i: int) -> bool {
    b[edge_deleted_at(b) + i] != 0
}

/// The type of edge `i`: offset 0 stands for no type.
pub open spec fn edge_type(b: Seq<u8>, i: int) -> Option<Seq<u8>> {
    if edge_type_offset(b, i) == 0 {
        None
    } else {
        seg_text(b, edge_type_offset(b, i))
    }
}

/// The metadata of edge `i`: offset 0 stands for none.
pub open spec fn edge_metadata(b: Seq<u8>, i: int) -> Option<Seq<u8>> {
    if edge_metadata_offset(b, i) == 0 {
        None
    } else {
        seg_text(b, edge_metadata_offset(b, i))
    }
}

/// Edge `i` of an edges image as a record. A segment stores no version:
/// every edge of it is of version `main`.
pub open spec fn edge_row(b: Seq<u8>, i: int) -> EdgeModel {
    EdgeModel {
        src: edge_src(b, i),
        dst: edge_dst(b, i),
        edge_type: edge_type(b, i),
        version: default_version(),
        metadata: edge_metadata(b, i),
        deleted: false,
    }
}

/// The indices, in rising order, of the edges among the first `n` that
/// leave `src` and are not tombstoned.
pub open spec fn outgoing_indices(b: Seq<u8>, src: u128, n: int) -> Seq<usize>
    decreases n,
{
    if n <= 0 {
        Seq::empty()
    } else if edge_src(b, n - 1) == src && !edge_deleted(b, n - 1) {
        outgoing_indices(b, src, n - 1).push((n - 1) as usize)
    } else {
        outgoing_indices(b, src, n - 1)
    }
}

/// The indices, in rising order, of the edges among the first `n` that
/// enter `dst` and are not tombstoned.
pub open spec fn incoming_indices(b: Seq<u8>, dst: u128, n: int) -> Seq<usize>
    decreases n,
{
    if n <= 0 {
        Seq::empty()
    } else if edge_dst(b, n - 1) == dst && !edge_deleted(b, n - 1) {
        incoming_indices(b, dst, n - 1).push((n - 1) as usize)
    } else {
        incoming_indices(b, dst, n - 1)
    }
}

/// The edges of a snapshot, read from their image.
pub struct EdgesSegment {
    data: Vec<u8>,
    header: SegmentHeader,
    edge_count: usize,
    src_offset: usize,
    dst_offset: usize,
    edge_type_offsets_offset: usize,
    metadata_offsets_offset: usize,
    deleted_offset: usize,
    string_table: Option<StringTable>,
}

impl EdgesSegment {
    /// The image.
    pub closed spec fn bytes(&self) -> Seq<u8> {
        self.data@
    }

    /// The number of edges in the image, tombstoned ones included.
    pub open spec fn count(&self) -> int {
        stored_edge_count(self.bytes()) as int
    }

    #[verifier::type_invariant]
    spec fn inv(&self) -> bool {
        let b = self.data@;
        &&& edges_image_ok(b)
        &&& self.edge_count == stored_edge_count(b)
        &&& self.header.edge_count == stored_edge_count(b)
        &&& self.src_offset == edge_srcs_at(b)
        &&& self.dst_offset == edge_dsts_at(b)
        &&& self.edge_type_offsets_offset == edge_types_at(b)
        &&& self.metadata_offsets_offset == edge_metadata_at(b)
        &&& self.deleted_offset == edge_deleted_at(b)
        &&& self.string_table.is_some() == table_present(b)
        &&& self.string_table matches Some(t) ==> t.model() == stored_table(
            b.subrange(stored_table_offset(b) as int, b.len() as int),
        )
    }

    /// Takes the image of an edges segment. Fails with `InvalidFormat`
    /// exactly when the bytes are no edges image: shorter than a header,
    /// wrong magic or version, or too short for the announced columns. A
    /// string table that cannot be read is no error: the segment then has
    /// no strings.
    pub fn open(data: Vec<u8>) -> (r: Result<Self, GraphError>)
        ensures
            r.is_ok() == edges_image_ok(data@),
            r matches Ok(s) ==> s.bytes() == data@,
            r matches Err(e) ==> e is InvalidFormat,
    {
        if data.len() < HEADER_SIZE_ON_DISK {
            return Err(GraphError::InvalidFormat("File too small".to_owned()));
        }
        let header = read_header(data.as_slice());
        match header.validate() {
            Err(e) => {
                return Err(e);
            },
            Ok(_) => {},
        }
        if header.edge_count > ((data.len() - HEADER_SIZE_ON_DISK) / 41) as u64 {
            return Err(GraphError::InvalidFormat("Truncated segment".to_owned()));
        }
        let edge_count: usize = header.edge_count as usize;
        let string_table = read_table(data.as_slice(), &header);
        Ok(
            EdgesSegment {
                data,
                header,
                edge_count,
                src_offset: HEADER_SIZE_ON_DISK,
                dst_offset: HEADER_SIZE_ON_DISK + 16 * edge_count,
                edge_type_offsets_offset: HEADER_SIZE_ON_DISK + 32 * edge_count,
                metadata_offsets_offset: HEADER_SIZE_ON_DISK + 36 * edge_count,
                deleted_offset: HEADER_SIZE_ON_DISK + 40 * edge_count,
                string_table,
            },
        )
    }

    /// The number of edges in the image, tombstoned ones included.
    pub fn edge_count(&self) -> (r: usize)
        ensures
            r == self.count(),
            edges_image_ok(self.bytes()),
    {
        proof {
            use_type_invariant(self);
        }
        self.edge_count
    }

    fn read_u128_at(&self, offset: usize) -> (r: u128)
        requires
            offset + 16 <= self.bytes().len(),
        ensures
            r == u128_at(self.bytes(), offset as int),
    {
        let n: usize = self.data.len();
        u128_from_le_bytes(slice_subrange(self.data.as_slice(), offset, offset + 16))
    }

    fn read_u32_at(&self, offset: usize) -> (r: u32)
        requires
            offset + 4 <= self.bytes().len(),
        ensures
            r == u32_at(self.bytes(), offset as int),
    {
        let n: usize = self.data.len();
        u32_from_le_bytes(slice_subrange(self.data.as_slice(), offset, offset + 4))
    }

    /// The source of edge `idx`.
    pub fn get_src(&self, idx: usize) -> (r: Option<u128>)
        ensures
            r == if idx < self.count() {
                Some(edge_src(self.bytes(), idx as int))
            } else {
                None
            },
    {
        proof {
            use_type_invariant(self);
        }
        if idx >= self.edge_count {
            return None;
        }
        Some(self.read_u128_at(self.src_offset + idx * 16))
    }

    /// The target of edge `idx`.
    pub fn get_dst(&self, idx: usize) -> (r: Option<u128>)
        ensures
            r == if idx < self.count() {
                Some(edge_dst(self.bytes(), idx as int))
            } else {
                None
            },
    {
        proof {
            use_type_invariant(self);
        }
        if idx >= self.edge_count {
            return None;
        }
        Some(self.read_u128_at(self.dst_offset + idx * 16))
    }

    /// The string-table offset of the type of edge `idx`.
    pub fn get_edge_type_offset(&self, idx: usize) -> (r: Option<u32>)
        ensures
            r == if idx < self.count() {
                Some(edge_type_offset(self.bytes(), idx as int))
            } else {
                None
            },
    {
        proof {
            use_type_invariant(self);
        }
        if idx >= self.edge_count {
            return None;
        }
        Some(self.read_u32_at(self.edge_type_offsets_offset + idx * 4))
    }

    fn get_string(&self, offset: u32) -> (r: Option<&str>)
        ensures
            opt_str_text(r) == seg_text(self.bytes(), offset),
    {
        proof {
            use_type_invariant(self);
        }
        match &self.string_table {
            Some(t) => t.get(offset),
            None => None,
        }
    }

    /// The type of edge `idx`.
    pub fn get_edge_type(&self, idx: usize) -> (r: Option<&str>)
        ensures
            idx < self.count() ==> opt_str_text(r) == edge_type(self.bytes(), idx as int),
            idx >= self.count() ==> r.is_none(),
    {
        match self.get_edge_type_offset(idx) {
            Some(o) => if o == 0 {
                None
            } else {
                self.get_string(o)
            },
            None => None,
        }
    }

    /// The string-table offset of the metadata of edge `idx`.
    pub fn get_metadata_offset(&self, idx: usize) -> (r: Option<u32>)
        ensures
            r == if idx < self.count() {
                Some(edge_metadata_offset(self.bytes(), idx as int))
            } else {
                None
            },
    {
        proof {
            use_type_invariant(self);
        }
        if idx >= self.edge_count {
            return None;
        }
        Some(self.read_u32_at(self.metadata_offsets_offset + idx * 4))
    }

    /// The metadata of edge `idx`.
    pub fn get_metadata(&self, idx: usize) -> (r: Option<&str>)
        ensures
            idx < self.count() ==> opt_str_text(r) == edge_metadata(self.bytes(), idx as int),
            idx >= self.count() ==> r.is_none(),
    {
        match self.get_metadata_offset(idx) {
            Some(o) => if o == 0 {
                None
            } else {
                self.get_string(o)
            },
            None => None,
        }
    }

    /// Whether edge `idx` is tombstoned in the image; `false` beyond the
    /// last edge.
    pub fn is_deleted(&self, idx: usize) -> (r: bool)
        ensures
            r == (idx < self.count() && edge_deleted(self.bytes(), idx as int)),
    {
        proof {
            use_type_invariant(self);
        }
        if idx >= self.edge_count {
            return false;
        }
        let n: usize = self.data.len();
        self.data[self.deleted_offset + idx] != 0
    }

    /// The indices of the edges that leave `src_id` and are not tombstoned.
    pub fn find_outgoing(&self, src_id: u128) -> (r: Vec<usize>)
        ensures
            r@ == outgoing_indices(self.bytes(), src_id, self.count()),
    {
        let mut out: Vec<usize> = Vec::new();
        let n: usize = self.edge_count();
        let mut idx: usize = 0;
        while idx < n
            invariant
                idx <= n,
                n == self.count(),
                out@ == outgoing_indices(self.bytes(), src_id, idx as int),
            decreases n - idx,
        {
            if self.get_src(idx) == Some(src_id) && !self.is_deleted(idx) {
                out.push(idx);
            }
            idx += 1;
        }
        out
    }

    /// Edge `idx` as a record.
    pub fn edge_at(&self, idx: usize) -> (r: EdgeRecord)
        requires
            idx < self.count(),
        ensures
            r@ == edge_row(self.bytes(), idx as int),
    {
        EdgeRecord {
            src: self.get_src(idx).unwrap(),
            dst: self.get_dst(idx).unwrap(),
            edge_type: own(self.get_edge_type(idx)),
            version: "main".to_owned(),
            metadata: own(self.get_metadata(idx)),
            deleted: false,
        }
    }
}

/// The model of an optional string slice.
pub open spec fn opt_str_text(o: Option<&str>) -> Option<Seq<u8>> {
    match o {
        Some(s) => Some(text(s@)),
        None => None,
    }
}

/// An owned copy of an optional string slice.
pub fn own(o: Option<&str>) -> (r: Option<String>)
    ensures
        crate::text::opt_text(r) == opt_str_text(o),
{
    match o {
        Some(s) => Some(s.to_owned()),
        None => None,
    }
}

} // verus!
