//! Columnar binary storage: records, the delta log, the string table, and
//! the segment reader and writer.

pub mod delta;
pub mod round_trip;
pub mod segment;
pub mod string_table;
pub mod writer;

use vstd::prelude::*;
use vstd::string::*;

use crate::text::{opt_text, text};

pub use writer::{GraphMetadata, SegmentWriter};

verus! {

/// A node of the graph.
#[derive(Debug)]
pub struct NodeRecord {
    /// Deterministic id.
    pub id: u128,
    /// Node type, such as `FUNCTION`, `CLASS` or `http:route`.
    pub node_type: Option<String>,
    /// File id in the string table (assigned when a segment is written).
    pub file_id: u32,
    /// Name offset in the string table (assigned when a segment is written).
    pub name_offset: u32,
    /// Version, by convention `main` or `__local`.
    pub version: String,
    pub exported: bool,
    /// The id of the `main` node that a `__local` node stands in for.
    pub replaces: Option<u128>,
    /// Tombstone.
    pub deleted: bool,
    pub name: Option<String>,
    pub file: Option<String>,
    /// A JSON document, opaque to the storage layer.
    pub metadata: Option<String>,
}

/// What a node record holds, text as UTF-8 bytes.
pub ghost struct NodeModel {
    pub id: u128,
    pub node_type: Option<Seq<u8>>,
    pub file_id: u32,
    pub name_offset: u32,
    pub version: Seq<u8>,
    pub exported: bool,
    pub replaces: Option<u128>,
    pub deleted: bool,
    pub name: Option<Seq<u8>>,
    pub file: Option<Seq<u8>>,
    pub metadata: Option<Seq<u8>>,
}

impl View for NodeRecord {
    type V = NodeModel;

    open spec fn view(&self) -> NodeModel {
        NodeModel {
            id: self.id,
            node_type: opt_text(self.node_type),
            file_id: self.file_id,
            name_offset: self.name_offset,
            version: text(self.version@),
            exported: self.exported,
            replaces: self.replaces,
            deleted: self.deleted,
            name: opt_text(self.name),
            file: opt_text(self.file),
            metadata: opt_text(self.metadata),
        }
    }
}

/// A copy of an optional string.
pub fn copy_opt(o: &Option<String>) -> (r: Option<String>)
    ensures
        r == *o,
{
    match o {
        Some(s) => Some(s.clone()),
        None => None,
    }
}

impl Clone for NodeRecord {
    fn clone(&self) -> (r: Self)
        ensures
            r == *self,
    {
        NodeRecord {
            id: self.id,
            node_type: copy_opt(&self.node_type),
            file_id: self.file_id,
            name_offset: self.name_offset,
            version: self.version.clone(),
            exported: self.exported,
            replaces: self.replaces,
            deleted: self.deleted,
            name: copy_opt(&self.name),
            file: copy_opt(&self.file),
            metadata: copy_opt(&self.metadata),
        }
    }
}

/// An edge of the graph.
#[derive(Debug)]
pub struct EdgeRecord {
    pub src: u128,
    pub dst: u128,
    /// Edge type, such as `CALLS` or `http:routes_to`.
    pub edge_type: Option<String>,
    pub version: String,
    pub metadata: Option<String>,
    /// Tombstone.
    pub deleted: bool,
}

/// What an edge record holds, text as UTF-8 bytes.
pub ghost struct EdgeModel {
    pub src: u128,
    pub dst: u128,
    pub edge_type: Option<Seq<u8>>,
    pub version: Seq<u8>,
    pub metadata: Option<Seq<u8>>,
    pub deleted: bool,
}

impl View for EdgeRecord {
    type V = EdgeModel;

    open spec fn view(&self) -> EdgeModel {
        EdgeModel {
            src: self.src,
            dst: self.dst,
            edge_type: opt_text(self.edge_type),
            version: text(self.version@),
            metadata: opt_text(self.metadata),
            deleted: self.deleted,
        }
    }
}

impl Clone for EdgeRecord {
    fn clone(&self) -> (r: Self)
        ensures
            r == *self,
    {
        EdgeRecord {
            src: self.src,
            dst: self.dst,
            edge_type: copy_opt(&self.edge_type),
            version: self.version.clone(),
            metadata: copy_opt(&self.metadata),
            deleted: self.deleted,
        }
    }
}

/// The models of a sequence of node records.
pub open spec fn node_models(s: Seq<NodeRecord>) -> Seq<NodeModel> {
    s.map_values(|n: NodeRecord| n@)
}

/// The models of a sequence of edge records.
pub open spec fn edge_models(s: Seq<EdgeRecord>) -> Seq<EdgeModel> {
    s.map_values(|e: EdgeRecord| e@)
}

/// A filter on nodes. A field that is `None` admits every node; the fields
/// that are set must all hold.
#[derive(Debug)]
pub struct AttrQuery {
    pub version: Option<String>,
    /// A node type, or a prefix followed by `*`.
    pub node_type: Option<String>,
    pub file_id: Option<u32>,
    pub file: Option<String>,
    pub exported: Option<bool>,
    pub name: Option<String>,
}

/// What a query holds, text as UTF-8 bytes.
pub ghost struct QueryModel {
    pub version: Option<Seq<u8>>,
    pub node_type: Option<Seq<u8>>,
    pub file_id: Option<u32>,
    pub file: Option<Seq<u8>>,
    pub exported: Option<bool>,
    pub name: Option<Seq<u8>>,
}

impl View for AttrQuery {
    type V = QueryModel;

    open spec fn view(&self) -> QueryModel {
        QueryModel {
            version: opt_text(self.version),
            node_type: opt_text(self.node_type),
            file_id: self.file_id,
            file: opt_text(self.file),
            exported: self.exported,
            name: opt_text(self.name),
        }
    }
}

/// The query that admits every node.
pub open spec fn empty_query() -> QueryModel {
    QueryModel {
        version: None,
        node_type: None,
        file_id: None,
        file: None,
        exported: None,
        name: None,
    }
}

impl Clone for AttrQuery {
    fn clone(&self) -> (r: Self)
        ensures
            r == *self,
    {
        AttrQuery {
            version: copy_opt(&self.version),
            node_type: copy_opt(&self.node_type),
            file_id: self.file_id,
            file: copy_opt(&self.file),
            exported: self.exported,
            name: copy_opt(&self.name),
        }
    }
}

impl Default for AttrQuery {
    fn default() -> (r: Self)
        ensures
            r@ == empty_query(),
    {
        AttrQuery { version: None, node_type: None, file_id: None, file: None, exported: None, name: None }
    }
}

impl AttrQuery {
    /// The query that every node matches.
    pub fn new() -> (r: Self)
        ensures
            r@ == empty_query(),
    {
        AttrQuery { version: None, node_type: None, file_id: None, file: None, exported: None, name: None }
    }

    /// Asks for a version.
    pub fn version(self, v: &str) -> (r: Self)
        ensures
            r@ == (QueryModel { version: Some(text(v@)), ..self@ }),
    {
        let mut q = self;
        q.version = Some(v.to_owned());
        q
    }

    /// Asks for a type, or for every type that begins with what stands
    /// before a trailing `*`.
    pub fn node_type(self, t: &str) -> (r: Self)
        ensures
            r@ == (QueryModel { node_type: Some(text(t@)), ..self@ }),
    {
        let mut q = self;
        q.node_type = Some(t.to_owned());
        q
    }

    /// Asks for a file id.
    pub fn file_id(self, f: u32) -> (r: Self)
        ensures
            r@ == (QueryModel { file_id: Some(f), ..self@ }),
    {
        let mut q = self;
        q.file_id = Some(f);
        q
    }

    /// Asks for nodes that are exported, or for nodes that are not.
    pub fn exported(self, e: bool) -> (r: Self)
        ensures
            r@ == (QueryModel { exported: Some(e), ..self@ }),
    {
        let mut q = self;
        q.exported = Some(e);
        q
    }

    /// Asks for a name.
    pub fn name(self, n: &str) -> (r: Self)
        ensures
            r@ == (QueryModel { name: Some(text(n@)), ..self@ }),
    {
        let mut q = self;
        q.name = Some(n.to_owned());
        q
    }
}

} // verus!
