//! What is known of one query: its text, the columns it uses, its kind and
//! its annotations.
use vstd::prelude::*;

use crate::annotation::{Timeout, Timestamp, Ttl};
use crate::table_metadata::ColumnType;

verus! {

/// Metadata of a query.
#[derive(Debug, PartialEq, Clone)]
pub struct QueryMetadata {
    /// The query that is sent to the server.
    pub query: String,
    /// The columns that the query uses, in the order in which they appear.
    pub extracted_columns: Vec<ColumnInQuery>,
    /// The values bound to the query's `?` placeholders, in their order.
    pub parameterized_columns_types: Vec<ParameterizedColumnType>,
    pub query_type: QueryType,
    /// The name of the type generated for the query.
    pub struct_name: String,
    pub table_name: String,
    /// Only true if the query is limited.
    pub limited: bool,
    /// The TTL of the query, if it has one.
    pub ttl: Option<Ttl>,
    /// The timestamp of the query, if it has one (milliseconds since the UNIX epoch).
    pub timestamp: Option<Timestamp>,
    /// The timeout of the query, if it has one (a CQL duration such as `5ms` or `1h`).
    pub timeout: Option<Timeout>,
}

/// The type of a value bound to a placeholder, and where the value comes from.
#[derive(Debug, PartialEq, Clone)]
pub struct ParameterizedColumnType {
    pub column_type: ColumnType,
    pub value: ParameterizedValue,
}

/// Where the value for a placeholder comes from.
#[derive(Debug, PartialEq, Clone)]
pub enum ParameterizedValue {
    ExtractedColumn(ColumnInQuery),
    UsingTtl,
    Limit,
}

/// The different types of a query.
#[derive(Debug, PartialEq, Eq, Structural, Copy, Clone)]
pub enum QueryType {
    /// Selects multiple rows.
    SelectMultiple,
    /// Selects a single row because it ends with `limit 1`.
    SelectUniqueByLimit,
    /// Selects a single row by its full primary key.
    SelectUnique,
    /// Selects a count.
    SelectCount,
    /// Updates a row, always by its full primary key.
    UpdateUnique,
    /// Deletes multiple rows.
    DeleteMultiple,
    /// Deletes a single row.
    DeleteUnique,
    /// Inserts a single row.
    InsertUnique,
    /// Truncates a table.
    Truncate,
}

/// A column that is used in a query.
#[derive(Debug, PartialEq, Clone)]
pub struct ColumnInQuery {
    pub column_name: String,
    /// True if the column is given a placeholder (`... where a = ?`), false
    /// if it is given a fixed value (`... where a = 1`).
    pub parameterized: bool,
    /// Only true if the column is compared with an IN value (`... where a in ?`).
    pub uses_in_value: bool,
    /// Only true if the column is used in the where clause; false if it is,
    /// for instance, part of the select clause.
    pub is_part_of_where_clause: bool,
}

impl ColumnInQuery {
    /// An IN comparison is bound to a placeholder and stands in the where clause.
    pub open spec fn wf(&self) -> bool {
        self.uses_in_value ==> self.parameterized && self.is_part_of_where_clause
    }

    pub fn is_consistent(&self) -> (r: bool)
        ensures
            r == self.wf(),
    {
        !self.uses_in_value || (self.parameterized && self.is_part_of_where_clause)
    }
}

impl QueryMetadata {
    /// A truncation uses no columns and has no TTL and no timestamp, and each
    /// column usage is consistent.
    pub open spec fn wf(&self) -> bool {
        &&& self.query_type is Truncate ==> self.extracted_columns@.len() == 0
            && self.ttl is None && self.timestamp is None
        &&& forall|i: int|
            0 <= i < self.extracted_columns@.len() ==> (#[trigger] self.extracted_columns@[i]).wf()
    }

    /// Checks the invariants that whoever builds the metadata must uphold.
    pub fn is_valid(&self) -> (r: bool)
        ensures
            r == self.wf(),
            r ==> (self.query_type is Truncate ==> self.extracted_columns@.len() == 0
                && self.ttl is None && self.timestamp is None),
    {
        if let QueryType::Truncate = self.query_type {
            if self.extracted_columns.len() != 0 || self.ttl.is_some()
                || self.timestamp.is_some() {
                return false;
            }
        }
        let n = self.extracted_columns.len();
        let mut i: usize = 0;
        while i < n
            invariant
                0 <= i <= n,
                n == self.extracted_columns@.len(),
                forall|k: int| 0 <= k < i ==> (#[trigger] self.extracted_columns@[k]).wf(),
            decreases n - i,
        {
            if !self.extracted_columns[i].is_consistent() {
                return false;
            }
            i = i + 1;
        }
        true
    }
}

} // verus!
