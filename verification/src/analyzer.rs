//! Semantic analysis of HelixQL queries: parameter checks, the scope of
//! variables, and the shape of every value a query returns.

pub mod types;
pub mod text;
pub mod scope;
pub mod return_types;
pub mod object_literal;
pub mod query_validation;
