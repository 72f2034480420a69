//! Reading a table's column definitions from the schema catalog.
use vstd::prelude::*;

use crate::table_metadata::{ordered_columns, sort_columns, ColumnInTable};

verus! {

/// Why the columns of a table could not be read.
#[derive(Debug, PartialEq, Clone)]
pub enum CatalogError {
    /// The active keyspace is not configured.
    ConfigurationMissing,
    /// The catalog could not be reached or queried; the text says why.
    CatalogUnavailable(String),
}

/// What `str::to_lowercase` makes of a text.
pub uninterp spec fn lower_of(s: Seq<char>) -> Seq<char>;

/// Relies on `str::to_lowercase`: its result is a function of the characters alone.
#[verifier::external_body]
fn lowercase(s: &str) -> (r: String)
    ensures
        r@ == lower_of(s@),
{
    s.to_lowercase()
}

/// The catalog query that lists the columns of `table` in `keyspace`.
pub open spec fn columns_query_text(keyspace: Seq<char>, table: Seq<char>) -> Seq<char> {
    "select column_name, kind, position, type as data_type from system_schema.columns where keyspace_name = '"@
        + keyspace + "' and table_name = '"@ + table + "'"@
}

/// Builds the catalog query for the columns of `table` in `keyspace`; both
/// names are written into the text as they are.
pub fn columns_query(keyspace: &str, table: &str) -> (r: String)
    ensures
        r@ == columns_query_text(keyspace@, table@),
{
    let mut q = String::from_str(
        "select column_name, kind, position, type as data_type from system_schema.columns where keyspace_name = '",
    );
    q.append(keyspace);
    q.append("' and table_name = '");
    q.append(table);
    q.append("'");
    q
}

/// `r` is what the catalog's answer `raw` becomes: its columns in catalog
/// order, or its error unchanged.
pub open spec fn columns_result(
    raw: Result<Vec<ColumnInTable>, CatalogError>,
    r: Result<Vec<ColumnInTable>, CatalogError>,
) -> bool {
    match raw {
        Ok(v) => r matches Ok(c) && c@ == ordered_columns(v@),
        Err(e) => r == Err::<Vec<ColumnInTable>, CatalogError>(e),
    }
}

/// Reads the columns of `table` in `keyspace`: `execute` runs the catalog
/// query for the lower-cased table name, and the columns that it returns are
/// put in catalog order. An error of `execute` is returned as it is.
pub fn query_columns<F>(table: &str, keyspace: &str, execute: F) -> (r: Result<
    Vec<ColumnInTable>,
    CatalogError,
>) where F: FnOnce(String) -> Result<Vec<ColumnInTable>, CatalogError>
    requires
        forall|q: String| execute.requires((q,)),
    ensures
        exists|q: String, raw: Result<Vec<ColumnInTable>, CatalogError>|
            q@ == columns_query_text(keyspace@, lower_of(table@)) && #[trigger] execute.ensures(
                (q,),
                raw,
            ) && columns_result(raw, r),
{
    let lowered = lowercase(table);
    let query = columns_query(keyspace, lowered.as_str());
    let raw = execute(query);
    let ghost raw_answer = raw;
    match raw {
        Ok(mut collected) => {
            sort_columns(&mut collected);
            let r = Ok(collected);
            assert(columns_result(raw_answer, r));
            r
        },
        Err(e) => Err(e),
    }
}

/// Two calls whose catalog answers hold the same columns in the same order
/// return the same columns in the same order.
pub proof fn lemma_same_answer_same_order(
    raw1: Result<Vec<ColumnInTable>, CatalogError>,
    raw2: Result<Vec<ColumnInTable>, CatalogError>,
    r1: Result<Vec<ColumnInTable>, CatalogError>,
    r2: Result<Vec<ColumnInTable>, CatalogError>,
)
    requires
        columns_result(raw1, r1),
        columns_result(raw2, r2),
        raw1 is Ok,
        raw2 is Ok,
        raw1->Ok_0@ == raw2->Ok_0@,
    ensures
        r1 is Ok,
        r2 is Ok,
        r1->Ok_0@ == r2->Ok_0@,
{
}

/// The catalog query for a table depends on its name only through the name
/// in lower case.
pub proof fn lemma_query_ignores_case(keyspace: Seq<char>, t1: Seq<char>, t2: Seq<char>)
    requires
        lower_of(t1) == lower_of(t2),
    ensures
        columns_query_text(keyspace, lower_of(t1)) == columns_query_text(keyspace, lower_of(t2)),
{
}

} // verus!
