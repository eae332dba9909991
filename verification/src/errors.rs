use vstd::prelude::*;

verus! {

/// Errors of the graph engine.
#[derive(Debug)]
pub enum GraphError {
    /// An error described by its message.
    New(String),
    /// Stored bytes could not be turned back into a value.
    ConversionError(String),
    /// The storage engine refused an operation.
    StorageError(String),
    /// No node has the id that was asked for.
    NodeNotFound,
}

} // verus!
