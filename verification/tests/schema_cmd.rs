use csv_managed::schema::{ColumnMeta, ColumnType, Schema};
use csv_managed::schema_cmd::{
    apply_default_name_mappings, apply_overrides, apply_replacements, compute_schema_signature,
    mapping_rows,
    parse_columns, summarize_histogram_value, to_lower_snake_case, truncate_sample,
};

fn specs(values: &[&str]) -> Vec<String> {
    values.iter().map(|v| v.to_string()).collect()
}

fn column(name: &str, datatype: ColumnType, rename: Option<&str>) -> ColumnMeta {
    ColumnMeta {
        name: name.to_string(),
        datatype,
        rename: rename.map(|r| r.to_string()),
        value_replacements: Vec::new(),
        datatype_mappings: Vec::new(),
    }
}

#[test]
fn schema_cmd_parse_columns_accepts_comma_and_repeats() {
    let columns = parse_columns(&specs(&["id:integer,name:string", "amount:float"])).expect("parsed");
    assert_eq!(columns.len(), 3);
    assert_eq!(columns[0].name, "id");
    assert_eq!(columns[1].name, "name");
    assert_eq!(columns[2].name, "amount");
    assert_eq!(columns[0].datatype, ColumnType::Integer);
    assert_eq!(columns[1].datatype, ColumnType::String);
    assert_eq!(columns[2].datatype, ColumnType::Float);
}

#[test]
fn schema_cmd_duplicate_columns_are_rejected() {
    let err = parse_columns(&specs(&["id:integer,id:string"])).unwrap_err();
    assert!(err.contains("Duplicate column name"));
}

#[test]
fn schema_cmd_missing_type_is_rejected() {
    let err = parse_columns(&specs(&["id"])).unwrap_err();
    assert!(err.contains("must use the form"));
}

#[test]
fn schema_cmd_parse_columns_supports_output_rename() {
    let columns = parse_columns(&specs(&["id:integer->Identifier,name:string"])).expect("parsed");
    assert_eq!(columns.len(), 2);
    assert_eq!(columns[0].rename.as_deref(), Some("Identifier"));
    assert!(columns[1].rename.is_none());
}

#[test]
fn schema_cmd_duplicate_output_names_are_rejected() {
    let err = parse_columns(&specs(&["id:integer->Identifier", "code:string->Identifier"])).unwrap_err();
    assert!(err.contains("Duplicate output column name"));
}

#[test]
fn schema_cmd_replacements_apply_to_columns() {
    let mut columns = parse_columns(&specs(&["status:string"])).expect("parsed");
    apply_replacements(&mut columns, &specs(&["status=pending->shipped"])).expect("applied");
    assert_eq!(columns[0].value_replacements.len(), 1);
    assert_eq!(columns[0].value_replacements[0].from, "pending");
    assert_eq!(columns[0].value_replacements[0].to, "shipped");
}

#[test]
fn schema_cmd_replacements_validate_column_names() {
    let mut columns = parse_columns(&specs(&["status:string"])).expect("parsed");
    let err = apply_replacements(&mut columns, &specs(&["missing=pending->shipped"])).unwrap_err();
    assert!(err.contains("unknown column"));
}

#[test]
fn to_lower_snake_case_converts_names() {
    assert_eq!(to_lower_snake_case("OrderDate"), "order_date");
    assert_eq!(to_lower_snake_case("customer-name"), "customer_name");
    assert_eq!(to_lower_snake_case("customer  name"), "customer_name");
    assert_eq!(to_lower_snake_case("APIKey"), "api_key");
    assert_eq!(to_lower_snake_case("HTTPStatus"), "http_status");
}

#[test]
fn snake_case_conversion_handles_various_tokens() {
    assert_eq!(to_lower_snake_case("OrderDate"), "order_date");
    assert_eq!(to_lower_snake_case("customer-name"), "customer_name");
    assert_eq!(to_lower_snake_case("customer  name"), "customer_name");
    assert_eq!(to_lower_snake_case("APIKey"), "api_key");
    assert_eq!(to_lower_snake_case("HTTPStatus"), "http_status");
}

#[test]
fn schema_cmd_apply_overrides_updates_types() {
    let mut schema = Schema {
        columns: vec![column("amount", ColumnType::Float, None)],
        schema_version: None,
        has_headers: true,
    };
    let applied = apply_overrides(&mut schema, &specs(&["amount:integer", ""])).expect("overrides applied");
    assert_eq!(schema.columns[0].datatype, ColumnType::Integer);
    assert!(applied.contains(&"amount".to_string()));
}

#[test]
fn apply_overrides_rejects_unknown_column() {
    let mut schema = Schema {
        columns: vec![column("amount", ColumnType::Float, None)],
        schema_version: None,
        has_headers: true,
    };
    let err = apply_overrides(&mut schema, &specs(&["price:integer"])).unwrap_err();
    assert!(err.contains("unknown column"));
    assert_eq!(schema.columns[0].datatype, ColumnType::Float);
}

#[test]
fn apply_default_name_mappings_returns_suggested_set() {
    let mut schema = Schema {
        columns: vec![
            column("OrderID", ColumnType::Integer, None),
            column("CustomerName", ColumnType::String, Some("customer_name")),
        ],
        schema_version: None,
        has_headers: true,
    };
    let suggested = apply_default_name_mappings(&mut schema);
    assert_eq!(suggested.len(), 1);
    assert_eq!(suggested[0].0, "OrderID");
    assert_eq!(suggested[0].1, "order_id");
    assert_eq!(schema.columns[0].rename.as_deref(), Some("order_id"));
    assert_eq!(schema.columns[1].rename.as_deref(), Some("customer_name"));
}

#[test]
fn truncate_sample_limits_long_values() {
    let long = "x".repeat(40);
    let shown = truncate_sample(&long);
    assert_eq!(shown.chars().count(), 33);
    assert!(shown.ends_with('…'));
    assert_eq!(truncate_sample("short"), "short");
}

#[test]
fn summarize_histogram_value_flattens_and_truncates() {
    assert_eq!(summarize_histogram_value("short"), "short");
    assert_eq!(summarize_histogram_value("a\nb\tc\rd"), "a b c d");
    let long = "y".repeat(50);
    assert_eq!(summarize_histogram_value(&long).chars().count(), 33);
}

#[test]
fn compute_schema_signature_is_hex_digest_and_depends_on_columns() {
    let a = Schema {
        columns: vec![column("id", ColumnType::Integer, None)],
        schema_version: None,
        has_headers: true,
    };
    let b = Schema {
        columns: vec![column("id", ColumnType::String, None)],
        schema_version: None,
        has_headers: true,
    };
    let sa = compute_schema_signature(&a);
    let sb = compute_schema_signature(&b);
    assert_eq!(sa.len(), 64);
    assert!(sa.chars().all(|c| c.is_ascii_hexdigit()));
    assert_ne!(sa, sb);
    assert_eq!(sa, compute_schema_signature(&a.clone()));
}

#[test]
fn mapping_rows_show_name_type_and_template() {
    let schema = Schema {
        columns: vec![
            column("Order Id", ColumnType::Integer, None),
            column(
                "Total",
                ColumnType::Decimal(csv_managed::schema::DecimalSpec { precision: 12, scale: 3 }),
                Some("total"),
            ),
        ],
        schema_version: None,
        has_headers: true,
    };
    let rows = mapping_rows(&schema);
    assert_eq!(rows.len(), 2);
    assert_eq!(rows[0], specs(&["1", "Order Id", "integer", "Order Id:integer->"]));
    assert_eq!(
        rows[1],
        specs(&["2", "Total", "decimal(precision=12,scale=3)", "Total:decimal(12,3)->"])
    );
}
