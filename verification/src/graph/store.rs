//! What a graph store offers, whatever stands behind it.

use vstd::prelude::*;
use vstd::string::*;

use crate::error::GraphError;
use crate::graph::engine::{
    empty_graph, opt_type_texts, upsert_all, with_edge_deleted, with_edges, with_node_deleted,
    GraphEngine, Snapshot,
};
use crate::graph::model::{forward_step, identifier_of, type_texts, GraphModel};
use crate::graph::tally::{clipped, counts_model, opt_pattern_texts};
use crate::graph::traversal::spec_bfs;
use crate::storage::{
    edge_models, empty_query, node_models, AttrQuery, EdgeRecord, NodeRecord, QueryModel,
};
use crate::storage::writer::{edges_encodable, encode_edges, encode_nodes, nodes_encodable};
use crate::text::text;

verus! {

/// A graph store: nodes and edges that can be added, deleted, looked up
/// and walked, and flushed to segments.
pub trait GraphStore {
    /// The store is in a state in which it can be used.
    spec fn store_wf(&self) -> bool;

    /// What the store holds.
    spec fn model(&self) -> GraphModel;

    /// Whether there is anything to flush.
    spec fn pending(&self) -> bool;

    /// Adds nodes, in order; a node of a known id takes the place of the
    /// one before it.
    fn add_nodes(&mut self, nodes: Vec<NodeRecord>)
        requires
            old(self).store_wf(),
        ensures
            final(self).store_wf(),
            final(self).model() == (GraphModel {
                delta_nodes: upsert_all(
                    old(self).model().delta_nodes,
                    node_models(nodes@),
                    nodes@.len() as int,
                ),
                ..old(self).model()
            }),
    ;

    /// Deletes a node.
    fn delete_node(&mut self, id: u128)
        requires
            old(self).store_wf(),
        ensures
            final(self).store_wf(),
            final(self).model() == with_node_deleted(old(self).model(), id),
    ;

    /// The node of this id that reads see.
    fn get_node(&self, id: u128) -> (r: Option<NodeRecord>)
        requires
            self.store_wf(),
        ensures
            r.is_some() == self.model().get_node(id).is_some(),
            r matches Some(n) ==> Some(n@) == self.model().get_node(id),
    ;

    /// Whether reads see a node of this id.
    fn node_exists(&self, id: u128) -> (r: bool)
        requires
            self.store_wf(),
        ensures
            r == self.model().get_node(id).is_some(),
    ;

    /// The readable identifier of the node of this id.
    fn get_node_identifier(&self, id: u128) -> (r: Option<String>)
        requires
            self.store_wf(),
        ensures
            r.is_some() == self.model().get_node(id).is_some(),
            r matches Some(s) ==> text(s@) == identifier_of(self.model().get_node(id)->0),
    ;

    /// The ids of the nodes that match the query.
    fn find_by_attr(&self, query: &AttrQuery) -> (r: Vec<u128>)
        requires
            self.store_wf(),
        ensures
            r@ == self.model().find(query@),
    ;

    /// The ids of the nodes of a type; a type that ends in `*` stands for
    /// every type that begins with what stands before the `*`.
    fn find_by_type(&self, node_type: &str) -> (r: Vec<u128>)
        requires
            self.store_wf(),
        ensures
            r@ == self.model().find(
                QueryModel { node_type: Some(text(node_type@)), ..empty_query() },
            ),
    ;

    /// Adds edges, in order; unless validation is skipped, an edge one of
    /// whose ends reads do not see is dropped.
    fn add_edges(&mut self, edges: Vec<EdgeRecord>, skip_validation: bool)
        requires
            old(self).store_wf(),
        ensures
            final(self).store_wf(),
            final(self).model() == with_edges(
                old(self).model(),
                edge_models(edges@),
                skip_validation,
                edges@.len() as int,
            ),
    ;

    /// Deletes the edges of the delta with this source, target and type.
    fn delete_edge(&mut self, src: u128, dst: u128, edge_type: &str)
        requires
            old(self).store_wf(),
        ensures
            final(self).store_wf(),
            final(self).model() == (GraphModel {
                delta_edges: with_edge_deleted(
                    old(self).model().delta_edges,
                    src,
                    dst,
                    text(edge_type@),
                ),
                ..old(self).model()
            }),
    ;

    /// The targets of the edges that leave `id`.
    fn neighbors(&self, id: u128, edge_types: &[&str]) -> (r: Vec<u128>)
        requires
            self.store_wf(),
        ensures
            r@ == self.model().neighbors(id, type_texts(edge_types@)),
    ;

    /// The edges that leave `node_id`.
    fn get_outgoing_edges(&self, node_id: u128, edge_types: Option<&[&str]>) -> (r: Vec<EdgeRecord>)
        requires
            self.store_wf(),
        ensures
            edge_models(r@) == self.model().outgoing_edges(node_id, opt_type_texts(edge_types)),
    ;

    /// The edges that enter `node_id`.
    fn get_incoming_edges(&self, node_id: u128, edge_types: Option<&[&str]>) -> (r: Vec<EdgeRecord>)
        requires
            self.store_wf(),
        ensures
            edge_models(r@) == self.model().incoming_edges(node_id, opt_type_texts(edge_types)),
    ;

    /// Every edge, one for each source, target and type.
    fn get_all_edges(&self) -> (r: Vec<EdgeRecord>)
        requires
            self.store_wf(),
        ensures
            edge_models(r@) == self.model().distinct_edges(),
    ;

    /// The number of visible nodes of each type.
    fn count_nodes_by_type(&self, types: Option<&[String]>) -> (r: Vec<(String, usize)>)
        requires
            self.store_wf(),
        ensures
            counts_model(r@) == clipped(self.model().node_counts(opt_pattern_texts(types))),
    ;

    /// The number of edges of each type.
    fn count_edges_by_type(&self, edge_types: Option<&[String]>) -> (r: Vec<(String, usize)>)
        requires
            self.store_wf(),
        ensures
            counts_model(r@) == clipped(self.model().edge_counts(opt_pattern_texts(edge_types))),
    ;

    /// The nodes within `max_depth` steps of `start`, in the order of a
    /// breadth-first walk.
    fn bfs(&self, start: &[u128], max_depth: usize, edge_types: &[&str]) -> (r: Vec<u128>)
        requires
            self.store_wf(),
        ensures
            r@ == spec_bfs(
                forward_step(self.model(), type_texts(edge_types@)),
                start@,
                max_depth as nat,
            ),
    ;

    /// Consolidates segments and delta into one snapshot, and hands back
    /// the images to write. Without anything to flush nothing is handed
    /// back.
    fn flush(&mut self) -> (r: Result<Option<Snapshot>, GraphError>)
        requires
            old(self).store_wf(),
        ensures
            final(self).store_wf(),
            !old(self).pending() ==> (r matches Ok(None)) && final(self).model() == old(self).model(),
            old(self).pending() ==> {
                &&& r.is_ok() == (nodes_encodable(old(self).model().flush_nodes())
                    && edges_encodable(old(self).model().flush_edges()))
                &&& r matches Ok(s) ==> s matches Some(s) && s.nodes@ == encode_nodes(
                    old(self).model().flush_nodes(),
                ) && s.edges@ == encode_edges(old(self).model().flush_edges()) && final(self).model() == (GraphModel {
                    seg_nodes: Some(s.nodes@),
                    seg_edges: Some(s.edges@),
                    ..empty_graph()
                })
                &&& r matches Err(e) ==> e is InvalidFormat && final(self).model() == old(self).model()
            },
    ;

    /// The same as `flush`.
    fn compact(&mut self) -> (r: Result<Option<Snapshot>, GraphError>)
        requires
            old(self).store_wf(),
        ensures
            final(self).store_wf(),
            !old(self).pending() ==> (r matches Ok(None)) && final(self).model() == old(self).model(),
            old(self).pending() ==> {
                &&& r.is_ok() == (nodes_encodable(old(self).model().flush_nodes())
                    && edges_encodable(old(self).model().flush_edges()))
                &&& r matches Ok(s) ==> s matches Some(s) && s.nodes@ == encode_nodes(
                    old(self).model().flush_nodes(),
                ) && s.edges@ == encode_edges(old(self).model().flush_edges()) && final(self).model() == (GraphModel {
                    seg_nodes: Some(s.nodes@),
                    seg_edges: Some(s.edges@),
                    ..empty_graph()
                })
                &&& r matches Err(e) ==> e is InvalidFormat && final(self).model() == old(self).model()
            },
    ;

    /// The number of nodes held, tombstoned and shadowed ones included;
    /// the largest number that fits where the number does not.
    fn node_count(&self) -> (r: usize)
        requires
            self.store_wf(),
        ensures
            r == if self.model().seg_node_rows().len() + self.model().delta_nodes.len()
                <= usize::MAX {
                (self.model().seg_node_rows().len() + self.model().delta_nodes.len()) as usize
            } else {
                usize::MAX
            },
    ;

    /// The number of edges held, tombstoned ones included.
    fn edge_count(&self) -> (r: usize)
        requires
            self.store_wf(),
        ensures
            r == self.model().all_edges().len(),
    ;
}

impl GraphStore for GraphEngine {
    open spec fn store_wf(&self) -> bool {
        self.wf()
    }

    open spec fn model(&self) -> GraphModel {
        self@
    }

    open spec fn pending(&self) -> bool {
        self.log().len() > 0
    }

    fn add_nodes(&mut self, nodes: Vec<NodeRecord>) {
        GraphEngine::add_nodes(self, nodes)
    }

    fn delete_node(&mut self, id: u128) {
        GraphEngine::delete_node(self, id)
    }

    fn get_node(&self, id: u128) -> (r: Option<NodeRecord>) {
        GraphEngine::get_node(self, id)
    }

    fn node_exists(&self, id: u128) -> (r: bool) {
        GraphEngine::node_exists(self, id)
    }

    fn get_node_identifier(&self, id: u128) -> (r: Option<String>) {
        GraphEngine::get_node_identifier(self, id)
    }

    fn find_by_attr(&self, query: &AttrQuery) -> (r: Vec<u128>) {
        GraphEngine::find_by_attr(self, query)
    }

    fn find_by_type(&self, node_type: &str) -> (r: Vec<u128>) {
        GraphEngine::find_by_type(self, node_type)
    }

    fn add_edges(&mut self, edges: Vec<EdgeRecord>, skip_validation: bool) {
        GraphEngine::add_edges(self, edges, skip_validation)
    }

    fn delete_edge(&mut self, src: u128, dst: u128, edge_type: &str) {
        GraphEngine::delete_edge(self, src, dst, edge_type)
    }

    fn neighbors(&self, id: u128, edge_types: &[&str]) -> (r: Vec<u128>) {
        GraphEngine::neighbors(self, id, edge_types)
    }

    fn get_outgoing_edges(&self, node_id: u128, edge_types: Option<&[&str]>) -> (r: Vec<
        EdgeRecord,
    >) {
        GraphEngine::get_outgoing_edges(self, node_id, edge_types)
    }

    fn get_incoming_edges(&self, node_id: u128, edge_types: Option<&[&str]>) -> (r: Vec<
        EdgeRecord,
    >) {
        GraphEngine::get_incoming_edges(self, node_id, edge_types)
    }

    fn get_all_edges(&self) -> (r: Vec<EdgeRecord>) {
        GraphEngine::get_all_edges(self)
    }

    fn count_nodes_by_type(&self, types: Option<&[String]>) -> (r: Vec<(String, usize)>) {
        GraphEngine::count_nodes_by_type(self, types)
    }

    fn count_edges_by_type(&self, edge_types: Option<&[String]>) -> (r: Vec<(String, usize)>) {
        GraphEngine::count_edges_by_type(self, edge_types)
    }

    fn bfs(&self, start: &[u128], max_depth: usize, edge_types: &[&str]) -> (r: Vec<u128>) {
        GraphEngine::bfs(self, start, max_depth, edge_types)
    }

    fn flush(&mut self) -> (r: Result<Option<Snapshot>, GraphError>) {
        GraphEngine::flush(self)
    }

    fn compact(&mut self) -> (r: Result<Option<Snapshot>, GraphError>) {
        GraphEngine::compact(self)
    }

    fn node_count(&self) -> (r: usize) {
        GraphEngine::node_count(self)
    }

    fn edge_count(&self) -> (r: usize) {
        GraphEngine::edge_count(self)
    }
}

} // verus!
