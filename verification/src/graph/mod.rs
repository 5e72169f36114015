//! The graph: identifiers, traversal, and the engine.

pub mod db_path;
pub mod engine;
pub mod id_gen;
pub mod model;
pub mod reach;
pub mod store;
pub mod tally;
pub mod theorems;
pub mod traversal;

pub use db_path::normalize_db_path;
pub use engine::{AutoFlush, GraphEngine, Snapshot};
pub use id_gen::{compute_node_id, compute_stable_id, string_id_to_u128};
pub use store::GraphStore;
