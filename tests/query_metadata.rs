use catalytic::annotation::{Timeout, Timestamp, Ttl};
use catalytic::query_metadata::{ColumnInQuery, ParameterizedColumnType, ParameterizedValue, QueryMetadata, QueryType};
use catalytic::table_metadata::ColumnType;

fn column(name: &str, parameterized: bool, uses_in_value: bool, in_where: bool) -> ColumnInQuery {
    ColumnInQuery {
        column_name: name.to_string(),
        parameterized,
        uses_in_value,
        is_part_of_where_clause: in_where,
    }
}

fn metadata(query_type: QueryType, columns: Vec<ColumnInQuery>) -> QueryMetadata {
    QueryMetadata {
        query: "truncate person".to_string(),
        extracted_columns: columns,
        parameterized_columns_types: vec![],
        query_type,
        struct_name: "TruncatePerson".to_string(),
        table_name: "person".to_string(),
        limited: false,
        ttl: None,
        timestamp: None,
        timeout: None,
    }
}

#[test]
fn truncate_without_columns_or_annotations_is_valid() {
    let mut m = metadata(QueryType::Truncate, vec![]);
    assert!(m.is_valid());
    m.timeout = Some(Timeout::Fixed("5ms".to_string()));
    assert!(m.is_valid());
}

#[test]
fn truncate_with_columns_is_invalid() {
    let m = metadata(QueryType::Truncate, vec![column("name", true, false, true)]);
    assert!(!m.is_valid());
}

#[test]
fn truncate_with_ttl_or_timestamp_is_invalid() {
    let mut m = metadata(QueryType::Truncate, vec![]);
    m.ttl = Some(Ttl::Fixed(10));
    assert!(!m.is_valid());
    let mut m = metadata(QueryType::Truncate, vec![]);
    m.timestamp = Some(Timestamp::Parameterized);
    assert!(!m.is_valid());
}

#[test]
fn in_value_must_be_parameterized_in_where_clause() {
    assert!(column("a", true, true, true).is_consistent());
    assert!(!column("a", false, true, true).is_consistent());
    assert!(!column("a", true, true, false).is_consistent());
    assert!(column("a", false, false, false).is_consistent());
    let m = metadata(QueryType::SelectMultiple, vec![column("a", true, false, true), column("b", false, true, true)]);
    assert!(!m.is_valid());
}

#[test]
fn select_with_columns_and_annotations_is_valid() {
    let a = column("id", true, false, true);
    let mut m = metadata(QueryType::UpdateUnique, vec![a.clone(), column("name", true, false, false)]);
    m.ttl = Some(Ttl::Parameterized);
    m.timestamp = Some(Timestamp::Fixed(1));
    m.parameterized_columns_types = vec![
        ParameterizedColumnType { column_type: ColumnType { cql_type: "int".to_string() }, value: ParameterizedValue::UsingTtl },
        ParameterizedColumnType { column_type: ColumnType { cql_type: "uuid".to_string() }, value: ParameterizedValue::ExtractedColumn(a) },
    ];
    assert!(m.is_valid());
    assert_eq!(m.clone(), m);
}
