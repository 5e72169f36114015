//! The delta log: the mutations made since the last flush, in order.

use vstd::prelude::*;
use vstd::string::*;

use crate::storage::{EdgeModel, EdgeRecord, NodeModel, NodeRecord};
use crate::text::text;

verus! {

/// One mutation.
#[derive(Debug)]
pub enum Delta {
    AddNode(NodeRecord),
    DeleteNode { id: u128 },
    AddEdge(EdgeRecord),
    DeleteEdge { src: u128, dst: u128, edge_type: String },
    UpdateNodeVersion { id: u128, version: String },
}

/// What a mutation holds, text as UTF-8 bytes.
pub ghost enum DeltaModel {
    AddNode(NodeModel),
    DeleteNode { id: u128 },
    AddEdge(EdgeModel),
    DeleteEdge { src: u128, dst: u128, edge_type: Seq<u8> },
    UpdateNodeVersion { id: u128, version: Seq<u8> },
}

impl View for Delta {
    type V = DeltaModel;

    open spec fn view(&self) -> DeltaModel {
        match self {
            Delta::AddNode(n) => DeltaModel::AddNode(n@),
            Delta::DeleteNode { id } => DeltaModel::DeleteNode { id: *id },
            Delta::AddEdge(e) => DeltaModel::AddEdge(e@),
            Delta::DeleteEdge { src, dst, edge_type } => DeltaModel::DeleteEdge {
                src: *src,
                dst: *dst,
                edge_type: text(edge_type@),
            },
            Delta::UpdateNodeVersion { id, version } => DeltaModel::UpdateNodeVersion {
                id: *id,
                version: text(version@),
            },
        }
    }
}

impl Clone for Delta {
    fn clone(&self) -> (r: Self)
        ensures
            r == *self,
    {
        match self {
            Delta::AddNode(n) => Delta::AddNode(n.clone()),
            Delta::DeleteNode { id } => Delta::DeleteNode { id: *id },
            Delta::AddEdge(e) => Delta::AddEdge(e.clone()),
            Delta::DeleteEdge { src, dst, edge_type } => Delta::DeleteEdge {
                src: *src,
                dst: *dst,
                edge_type: edge_type.clone(),
            },
            Delta::UpdateNodeVersion { id, version } => Delta::UpdateNodeVersion {
                id: *id,
                version: version.clone(),
            },
        }
    }
}

/// The mutations since the last flush, oldest first.
#[derive(Debug)]
pub struct DeltaLog {
    operations: Vec<Delta>,
}

impl View for DeltaLog {
    type V = Seq<Delta>;

    closed spec fn view(&self) -> Seq<Delta> {
        self.operations@
    }
}

impl Default for DeltaLog {
    fn default() -> (r: Self)
        ensures
            r@ == Seq::<Delta>::empty(),
    {
        DeltaLog { operations: Vec::new() }
    }
}

impl DeltaLog {
    /// An empty log.
    pub fn new() -> (r: Self)
        ensures
            r@ == Seq::<Delta>::empty(),
    {
        DeltaLog { operations: Vec::new() }
    }

    /// Records an operation behind those recorded before.
    pub fn push(&mut self, delta: Delta)
        ensures
            final(self)@ == old(self)@.push(delta),
    {
        self.operations.push(delta);
    }

    /// The number of operations recorded.
    pub fn len(&self) -> (r: usize)
        ensures
            r == self@.len(),
    {
        self.operations.len()
    }

    /// Whether nothing is recorded.
    pub fn is_empty(&self) -> (r: bool)
        ensures
            r == (self@.len() == 0),
    {
        self.operations.len() == 0
    }

    /// Forgets every operation.
    pub fn clear(&mut self)
        ensures
            final(self)@ == Seq::<Delta>::empty(),
    {
        self.operations.clear();
    }

    /// The operations, oldest first.
    pub fn iter(&self) -> (r: &[Delta])
        ensures
            r@ == self@,
    {
        self.operations.as_slice()
    }

    /// Takes every operation out of the log, oldest first.
    pub fn drain(&mut self) -> (r: Vec<Delta>)
        ensures
            r@ == old(self)@,
            final(self)@ == Seq::<Delta>::empty(),
    {
        let mut out: Vec<Delta> = Vec::new();
        out.append(&mut self.operations);
        assert(out@ =~= old(self)@);
        out
    }
}

} // verus!
