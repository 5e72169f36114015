//! An embedded graph store for code-analysis artifacts.
//!
//! Nodes and edges live in two columnar segments plus an in-memory delta log.
//! The engine answers attribute lookups, neighbour queries and bounded
//! reachability, and evaluates a small rule language over the live graph.
//!
//! Text is specified by its UTF-8 bytes throughout: the model of a `String`
//! `s` is `encode_utf8(s@)`.
//!
//! The library does no I/O. A segment is a byte image: `storage` encodes and
//! decodes it, the engine in `graph` is opened over images and hands new
//! images back from a flush, and the caller reads and writes the files.
//! `wire` and `worker` say how a request of the socket protocol and a command
//! for a worker thread are answered from an engine; `session` and `analysis`
//! hold what a host language binding keeps and asks.

pub mod analysis;
pub mod datalog;
pub mod error;
pub mod graph;
pub mod index;
pub mod session;
pub mod storage;
pub mod text;
pub mod wire;
pub mod worker;

pub use error::GraphError;
pub use graph::{compute_node_id, string_id_to_u128, GraphEngine, GraphStore};
pub use storage::{AttrQuery, EdgeRecord, NodeRecord};
