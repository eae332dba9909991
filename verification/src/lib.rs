//! Verified core of a graph database: the byte layout of storage keys,
//! secondary-index naming, an in-memory model of the graph store with its
//! traversal steps, batch-ingest rules, the query analyzer's return-type
//! checks, and command-line decisions.

pub mod errors;
pub mod storage_keys;
pub mod indexing;
pub mod analyzer;
pub mod value;
pub mod items;
pub mod graph;
pub mod traversal;
pub mod traversal_mut;
pub mod batch_types;
pub mod batch_props;
pub mod batch_apply;
pub mod cli;
