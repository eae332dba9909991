use vstd::prelude::*;
use vstd::string::*;
use crate::errors::GraphError;

verus! {

/// Prefix of the storage name of every edge secondary index.
pub const EDGE_SECONDARY_INDEX_DB_PREFIX: &'static str = "eidx::";

/// The storage name of the edge secondary index over property `index`.
pub fn edge_secondary_index_db_name(index: &str) -> (name: String)
    ensures
        name@ == EDGE_SECONDARY_INDEX_DB_PREFIX@ + index@,
{
    let mut name = String::from_str(EDGE_SECONDARY_INDEX_DB_PREFIX);
    name.append(index);
    name
}

/// The text of the error for a missing node secondary index.
pub open spec fn secondary_index_not_found_text(index: Seq<char>) -> Seq<char> {
    "Secondary Index "@ + index + " not found"@
}

/// The text of the error for a missing edge secondary index.
pub open spec fn edge_secondary_index_not_found_text(index: Seq<char>) -> Seq<char> {
    "Edge Secondary Index "@ + index + " not found"@
}

/// The error reported when no node secondary index is named `index`.
pub fn secondary_index_not_found(index: &str) -> (err: GraphError)
    ensures
        err matches GraphError::New(msg) && msg@ == secondary_index_not_found_text(index@),
{
    let mut msg = String::from_str("Secondary Index ");
    msg.append(index);
    msg.append(" not found");
    GraphError::New(msg)
}

/// The error reported when no edge secondary index is named `index`.
pub fn edge_secondary_index_not_found(index: &str) -> (err: GraphError)
    ensures
        err matches GraphError::New(msg) && msg@ == edge_secondary_index_not_found_text(index@),
{
    let mut msg = String::from_str("Edge Secondary Index ");
    msg.append(index);
    msg.append(" not found");
    GraphError::New(msg)
}

} // verus!
