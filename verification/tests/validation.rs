use csv_managed::schema::{ColumnMeta, ColumnType, DecimalSpec, Schema};
use csv_managed::validation::{format_violation, row_violations, validate_record, validate_value};

fn strings(values: &[&str]) -> Vec<String> {
    values.iter().map(|v| v.to_string()).collect()
}

fn column(name: &str, datatype: ColumnType) -> ColumnMeta {
    ColumnMeta {
        name: name.to_string(),
        datatype,
        rename: None,
        value_replacements: Vec::new(),
        datatype_mappings: Vec::new(),
    }
}

#[test]
fn validate_value_accepts_empty_and_typed_cells() {
    assert!(validate_value("", &ColumnType::Integer).is_ok());
    assert!(validate_value("12", &ColumnType::Integer).is_ok());
    assert_eq!(validate_value("x", &ColumnType::Integer).unwrap_err(), "Failed to parse 'x' as integer");
    assert!(validate_value("maybe", &ColumnType::Boolean).is_err());
    assert!(validate_value("12.345", &ColumnType::Decimal(DecimalSpec::new(6, 2).unwrap())).is_err());
    assert!(validate_value("anything", &ColumnType::String).is_ok());
}

#[test]
fn row_violations_lists_bad_cells_in_order() {
    let schema = Schema {
        columns: vec![column("id", ColumnType::Integer), column("when", ColumnType::Date), column("ok", ColumnType::Boolean)],
        schema_version: None,
        has_headers: true,
    };
    let decoded = strings(&["x", "2024-01-02", "N/A"]);
    let transformed = strings(&["x", "2024-01-02", ""]);
    let v = row_violations(&schema, &decoded, &transformed);
    assert_eq!(v.len(), 1);
    assert_eq!(v[0].column, 0);
    assert_eq!(v[0].reason, "Failed to parse 'x' as integer");
    // A short row counts its missing cells as empty.
    assert!(row_violations(&schema, &strings(&["1"]), &strings(&["1"])).is_empty());
}

#[test]
fn format_violation_mentions_normalized_value_when_it_differs() {
    assert_eq!(
        format_violation(2, "id", "x", "x", "bad"),
        "Row 2 column 'id': value \"x\"\nReason: bad"
    );
    assert_eq!(
        format_violation(3, "id", "a", "b", "bad"),
        "Row 3 column 'id': value \"a\" (normalized \"b\")\nReason: bad"
    );
}

#[test]
fn validate_record_names_the_first_bad_cell() {
    let mut amount = column("Amount", ColumnType::Integer);
    amount.rename = Some("amount".to_string());
    let schema = Schema {
        columns: vec![column("id", ColumnType::Integer), amount, column("ok", ColumnType::Boolean)],
        schema_version: None,
        has_headers: true,
    };
    assert!(validate_record(&schema, &strings(&["1", "2", "true"]), 2).is_ok());
    assert!(validate_record(&schema, &strings(&["", "", ""]), 2).is_ok());
    assert!(validate_record(&schema, &strings(&["7"]), 3).is_ok());
    assert_eq!(
        validate_record(&schema, &strings(&["1", "x", "maybe"]), 4).unwrap_err(),
        "Row 4 column 'amount': Failed to parse 'x' as integer"
    );
}
