use std::cell::RefCell;

use catalytic::schema::{columns_query, query_columns, CatalogError};
use catalytic::table_metadata::{sort_columns, ColumnInTable, ColumnKind};

fn col(name: &str, kind: ColumnKind, position: i32) -> ColumnInTable {
    ColumnInTable {
        column_name: name.to_string(),
        kind,
        position,
        data_type: "text".to_string(),
    }
}

fn catalog_rows() -> Vec<ColumnInTable> {
    vec![
        col("email", ColumnKind::Regular, -1),
        col("created", ColumnKind::Clustering, 1),
        col("id", ColumnKind::PartitionKey, 0),
        col("note", ColumnKind::Static, -1),
        col("age", ColumnKind::Regular, -1),
        col("bucket", ColumnKind::Clustering, 0),
        col("region", ColumnKind::PartitionKey, 1),
    ]
}

fn names(columns: &[ColumnInTable]) -> Vec<String> {
    columns.iter().map(|c| c.column_name.clone()).collect()
}

#[test]
fn introspection_query_text() {
    assert_eq!(
        columns_query("ks", "users"),
        "select column_name, kind, position, type as data_type from system_schema.columns where keyspace_name = 'ks' and table_name = 'users'"
    );
}

#[test]
fn columns_are_ordered_by_kind_then_position_stably() {
    let mut rows = catalog_rows();
    sort_columns(&mut rows);
    assert_eq!(names(&rows), vec!["id", "region", "bucket", "created", "note", "email", "age"]);
}

#[test]
fn sorting_nothing_gives_nothing() {
    let mut rows: Vec<ColumnInTable> = vec![];
    sort_columns(&mut rows);
    assert!(rows.is_empty());
}

#[test]
fn query_columns_lowers_the_table_and_orders_the_answer() {
    let seen = RefCell::new(Vec::new());
    let run = |q: String| {
        seen.borrow_mut().push(q);
        Ok(catalog_rows())
    };
    let upper = query_columns("Users", "ks", &run).unwrap();
    let lower = query_columns("users", "ks", &run).unwrap();
    let seen = seen.into_inner();
    assert_eq!(seen.len(), 2);
    assert_eq!(seen[0], columns_query("ks", "users"));
    assert_eq!(seen[0], seen[1]);
    assert_eq!(upper, lower);
    assert_eq!(names(&upper), vec!["id", "region", "bucket", "created", "note", "email", "age"]);
}

#[test]
fn repeated_calls_give_the_same_order() {
    let first = query_columns("person", "ks", |_q: String| Ok(catalog_rows())).unwrap();
    let second = query_columns("person", "ks", |_q: String| Ok(catalog_rows())).unwrap();
    assert_eq!(first, second);
}

#[test]
fn catalog_errors_are_returned_unchanged() {
    let r = query_columns("person", "ks", |_q: String| Err(CatalogError::CatalogUnavailable("no host".to_string())));
    assert_eq!(r, Err(CatalogError::CatalogUnavailable("no host".to_string())));
    let r = query_columns("person", "ks", |_q: String| Err(CatalogError::ConfigurationMissing));
    assert_eq!(r, Err(CatalogError::ConfigurationMissing));
}

#[test]
fn column_kinds_from_catalog_text() {
    assert_eq!(ColumnKind::from_catalog("partition_key"), Some(ColumnKind::PartitionKey));
    assert_eq!(ColumnKind::from_catalog("clustering"), Some(ColumnKind::Clustering));
    assert_eq!(ColumnKind::from_catalog("static"), Some(ColumnKind::Static));
    assert_eq!(ColumnKind::from_catalog("regular"), Some(ColumnKind::Regular));
    assert_eq!(ColumnKind::from_catalog("Regular"), None);
    assert_eq!(ColumnKind::from_catalog(""), None);
}

#[test]
fn order_does_not_depend_on_arrival_when_places_differ() {
    let rows = vec![
        col("created", ColumnKind::Clustering, 1),
        col("id", ColumnKind::PartitionKey, 0),
        col("note", ColumnKind::Static, -1),
        col("email", ColumnKind::Regular, -1),
        col("bucket", ColumnKind::Clustering, 0),
    ];
    let mut forward = rows.clone();
    let mut backward: Vec<ColumnInTable> = rows.into_iter().rev().collect();
    sort_columns(&mut forward);
    sort_columns(&mut backward);
    assert_eq!(forward, backward);
    assert_eq!(names(&forward), vec!["id", "bucket", "created", "note", "email"]);
}
