//! Typed metadata about a single CQL query and the columns of its table.
pub mod annotation;
pub mod decimal;
pub mod query_metadata;
pub mod schema;
pub mod table_metadata;
