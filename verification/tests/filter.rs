use csv_managed::filter::{evaluate_text_condition, filter_column_index, parse_filter, parse_filters, ComparisonOperator};
use csv_managed::schema::{ColumnMeta, ColumnType, Schema};

#[test]
fn parse_filters_rejects_empty_filter_string() {
    let filters = vec!["".to_string()];
    let err = parse_filters(&filters).expect_err("empty filter should fail");
    assert!(err.contains("Empty filter"), "Expected 'Empty filter' error, got: {err}");
}

#[test]
fn parse_filters_rejects_missing_operator() {
    let filters = vec!["column_without_operator".to_string()];
    let err = parse_filters(&filters).expect_err("missing operator should fail");
    assert!(err.contains("parse filter"), "Expected parse error, got: {err}");
}

#[test]
fn parse_filters_accepts_valid_operators() {
    let cases = vec![
        "col = value",
        "col != value",
        "col > 10",
        "col >= 10",
        "col < 10",
        "col <= 10",
        "col contains needle",
        "col startswith pre",
        "col endswith suf",
    ];
    for case in cases {
        let result = parse_filters(&[case.to_string()]);
        assert!(result.is_ok(), "Expected success for '{case}', got: {result:?}");
    }
}

#[test]
fn parse_filter_splits_column_operator_and_value() {
    let c = parse_filter("amount >= 10").unwrap();
    assert_eq!(c.column, "amount");
    assert_eq!(c.operator, ComparisonOperator::Ge);
    assert_eq!(c.raw_value, "10");
    let c = parse_filter("name != \"Bob\"").unwrap();
    assert_eq!(c.column, "name");
    assert_eq!(c.operator, ComparisonOperator::NotEq);
    assert_eq!(c.raw_value, "Bob");
}

#[test]
fn parse_filters_keeps_order() {
    let filters = vec!["a = 1".to_string(), "b contains x".to_string()];
    let parsed = parse_filters(&filters).unwrap();
    assert_eq!(parsed.len(), 2);
    assert_eq!(parsed[0].column, "a");
    assert_eq!(parsed[1].operator, ComparisonOperator::Contains);
}

#[test]
fn filter_column_index_prefers_schema_names_then_headers() {
    let schema = Schema {
        columns: vec![ColumnMeta {
            name: "Amount".to_string(),
            datatype: ColumnType::Integer,
            rename: Some("amount".to_string()),
            value_replacements: Vec::new(),
            datatype_mappings: Vec::new(),
        }],
        schema_version: None,
        has_headers: true,
    };
    let headers = vec!["Amount".to_string(), "extra".to_string()];
    assert_eq!(filter_column_index(&schema, &headers, "amount"), Ok(0));
    assert_eq!(filter_column_index(&schema, &headers, "extra"), Ok(1));
    assert_eq!(filter_column_index(&schema, &headers, "nope").unwrap_err(), "Column 'nope' not found for filter");
}

#[test]
fn text_conditions_match_substrings() {
    let c = parse_filter("name contains li").unwrap();
    assert_eq!(evaluate_text_condition(&c, Some("alice")), Some(true));
    assert_eq!(evaluate_text_condition(&c, Some("bob")), Some(false));
    let c = parse_filter("name startswith al").unwrap();
    assert_eq!(evaluate_text_condition(&c, Some("alice")), Some(true));
    assert_eq!(evaluate_text_condition(&c, None), Some(false));
    let c = parse_filter("name endswith ce").unwrap();
    assert_eq!(evaluate_text_condition(&c, Some("alice")), Some(true));
    let c = parse_filter("n > 3").unwrap();
    assert_eq!(evaluate_text_condition(&c, Some("5")), None);
}
