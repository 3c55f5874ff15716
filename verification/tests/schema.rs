use csv_managed::schema::{
    parse_decimal_type, ColumnMeta, ColumnType, DatatypeMapping, DecimalSpec, OptionValue, Schema,
    ValueReplacement,
};

fn column(name: &str, datatype: ColumnType, rename: Option<&str>) -> ColumnMeta {
    ColumnMeta {
        name: name.to_string(),
        datatype,
        rename: rename.map(|r| r.to_string()),
        value_replacements: Vec::new(),
        datatype_mappings: Vec::new(),
    }
}

fn schema(columns: Vec<ColumnMeta>) -> Schema {
    Schema { columns, schema_version: None, has_headers: true }
}

fn strings(values: &[&str]) -> Vec<String> {
    values.iter().map(|v| v.to_string()).collect()
}

#[test]
fn parse_decimal_type_supports_positional_syntax() {
    let parsed = ColumnType::from_str("decimal(18,4)").expect("parse decimal positional");
    match parsed {
        ColumnType::Decimal(spec) => {
            assert_eq!(spec.precision, 18);
            assert_eq!(spec.scale, 4);
        }
        other => panic!("expected decimal column, got {other:?}"),
    }
}

#[test]
fn parse_decimal_type_supports_named_syntax() {
    let parsed = ColumnType::from_str("decimal(precision=20, scale=6)").expect("parse decimal named");
    let spec = parsed.decimal_spec().expect("decimal spec present after parsing");
    assert_eq!(spec.precision, 20);
    assert_eq!(spec.scale, 6);
}

#[test]
fn parse_decimal_type_rejects_missing_scale() {
    let err = ColumnType::from_str("decimal(10)").expect_err("missing scale error");
    assert!(err.contains("Decimal type requires a scale value"));
}

#[test]
fn schema_parsing_rejects_decimal_precision_overflow() {
    let err = ColumnType::from_str("decimal(29,2)").expect_err("precision overflow should fail");
    assert!(err.contains("Decimal precision must be <="));
    assert!(parse_decimal_type("decimal(29,2)").is_err());
}

#[test]
fn decimal_cli_token_formats_precision_and_scale() {
    let parsed = ColumnType::from_str("decimal(28,9)").expect("parse decimal for cli token");
    assert_eq!(parsed.cli_token(), "decimal(28,9)");
    assert_eq!(parsed.signature_token(), "decimal(28,9)");
    assert_eq!(parsed.describe(), "decimal(precision=28,scale=9)");
}

#[test]
fn column_type_names_and_aliases() {
    assert_eq!(ColumnType::from_str(" INT ").unwrap(), ColumnType::Integer);
    assert_eq!(ColumnType::from_str("double").unwrap(), ColumnType::Float);
    assert_eq!(ColumnType::from_str("bool").unwrap(), ColumnType::Boolean);
    assert_eq!(ColumnType::from_str("timestamp").unwrap(), ColumnType::DateTime);
    assert_eq!(ColumnType::from_str("uuid").unwrap(), ColumnType::Guid);
    assert!(ColumnType::from_str("geography").is_err());
    assert_eq!(ColumnType::Currency.as_str(), "currency");
    assert_eq!(ColumnType::variants().len(), 10);
}

#[test]
fn column_type_tokens_read_back() {
    let all = [
        ColumnType::String,
        ColumnType::Integer,
        ColumnType::Float,
        ColumnType::Boolean,
        ColumnType::Date,
        ColumnType::DateTime,
        ColumnType::Time,
        ColumnType::Guid,
        ColumnType::Currency,
        ColumnType::Decimal(DecimalSpec::new(10, 3).unwrap()),
    ];
    for t in all {
        assert_eq!(ColumnType::from_str(&t.signature_token()).unwrap(), t);
        assert_eq!(ColumnType::from_str(&t.yaml_token()).unwrap(), t);
    }
}

#[test]
fn decimal_spec_validation_errors() {
    assert_eq!(DecimalSpec::new(0, 0).unwrap_err(), "Decimal precision must be positive");
    assert_eq!(DecimalSpec::new(29, 0).unwrap_err(), "Decimal precision must be <= 28");
    assert!(DecimalSpec::new(4, 5).unwrap_err().contains("cannot exceed precision"));
    let spec = DecimalSpec::new(12, 4).unwrap();
    assert_eq!(spec.signature(), "decimal(12,4)");
    assert_eq!(spec.describe(), "decimal(precision=12,scale=4)");
    assert!(spec.ensure_valid().is_ok());
}

#[test]
fn column_meta_output_name_and_header_matching() {
    let plain = column("id", ColumnType::Integer, None);
    assert_eq!(plain.output_name(), "id");
    let renamed = column("OrderID", ColumnType::Integer, Some("order_id"));
    assert_eq!(renamed.output_name(), "order_id");
    assert!(renamed.matches_header("OrderID"));
    assert!(renamed.matches_header("order_id"));
    assert!(!renamed.matches_header("other"));
    let blank = column("x", ColumnType::String, Some(""));
    assert_eq!(blank.output_name(), "x");
    assert!(!blank.has_mappings());
}

#[test]
fn normalize_value_applies_first_matching_replacement() {
    let mut c = column("status", ColumnType::String, None);
    c.value_replacements = vec![
        ValueReplacement { from: "NA".to_string(), to: "".to_string() },
        ValueReplacement { from: "NA".to_string(), to: "second".to_string() },
    ];
    assert_eq!(c.normalize_value("NA"), "");
    assert_eq!(c.normalize_value("ok"), "ok");
}

#[test]
fn schema_from_headers_and_lookups() {
    let s = Schema::from_headers(&strings(&["a", "b"]));
    assert_eq!(s.headers(), strings(&["a", "b"]));
    assert_eq!(s.column_index("b"), Some(1));
    assert_eq!(s.column_index("c"), None);
    assert!(s.expects_headers());
    assert!(Schema::default_has_headers());
    assert!(!s.has_transformations());
}

#[test]
fn schema_output_headers_use_renames() {
    let s = schema(vec![column("a", ColumnType::String, Some("alpha")), column("b", ColumnType::String, None)]);
    assert_eq!(s.output_headers(), strings(&["alpha", "b"]));
    assert_eq!(s.column_index("alpha"), Some(0));
}

#[test]
fn apply_replacements_to_row_rewrites_matching_cells() {
    let mut c = column("status", ColumnType::String, None);
    c.value_replacements = vec![ValueReplacement { from: "pending".to_string(), to: "open".to_string() }];
    let s = schema(vec![c, column("other", ColumnType::String, None)]);
    let mut row = strings(&["pending", "pending"]);
    s.apply_replacements_to_row(&mut row);
    assert_eq!(row, strings(&["open", "pending"]));
    // Replacements are not datatype mappings.
    assert!(!s.has_transformations());
}

#[test]
fn validate_headers_reports_length_and_name_mismatches() {
    let s = schema(vec![column("a", ColumnType::String, Some("alpha")), column("b", ColumnType::String, None)]);
    assert!(s.validate_headers(&strings(&["a", "b"])).is_ok());
    assert!(s.validate_headers(&strings(&["alpha", "b"])).is_ok());
    assert_eq!(
        s.validate_headers(&strings(&["a"])).unwrap_err(),
        "Header length mismatch: schema expects 2 column(s) but file contains 1"
    );
    assert_eq!(
        s.validate_headers(&strings(&["x", "b"])).unwrap_err(),
        "Header mismatch at position 1: expected 'a' (or mapped 'alpha') but found 'x'"
    );
    let mut headerless = s.clone();
    headerless.has_headers = false;
    assert!(headerless.validate_headers(&strings(&["x"])).is_ok());
}

#[test]
fn validate_datatype_mappings_accepts_chain_ending_in_column_type() {
    let mut c = column("when", ColumnType::Date, None);
    c.datatype_mappings = vec![DatatypeMapping {
        from: ColumnType::String,
        to: ColumnType::Date,
        strategy: None,
        options: vec![("format".to_string(), OptionValue::Text("%Y-%m-%d".to_string()))],
    }];
    let s = schema(vec![c]);
    assert!(s.validate_datatype_mappings().is_ok());
    assert!(s.columns[0].has_mappings());
}

#[test]
fn validate_datatype_mappings_rejects_wrong_terminal_type() {
    let mut c = column("when", ColumnType::Integer, None);
    c.datatype_mappings = vec![DatatypeMapping {
        from: ColumnType::String,
        to: ColumnType::Date,
        strategy: None,
        options: Vec::new(),
    }];
    let s = schema(vec![c]);
    let err = s.validate_datatype_mappings().unwrap_err();
    assert!(err.contains("mappings terminate at"));
}

#[test]
fn validate_decimal_specs_checks_every_column() {
    let good = schema(vec![column("d", ColumnType::Decimal(DecimalSpec { precision: 10, scale: 2 }), None)]);
    assert!(good.validate_decimal_specs().is_ok());
    let bad = schema(vec![column("d", ColumnType::Decimal(DecimalSpec { precision: 40, scale: 2 }), None)]);
    assert!(bad.validate_decimal_specs().is_err());
}

#[test]
fn decimal_spec_new_reports_each_problem() {
    assert_eq!(DecimalSpec::new(10, 2), Ok(DecimalSpec { precision: 10, scale: 2 }));
    assert_eq!(DecimalSpec::new(0, 0).unwrap_err(), "Decimal precision must be positive");
    assert_eq!(DecimalSpec::new(29, 2).unwrap_err(), "Decimal precision must be <= 28");
    assert_eq!(DecimalSpec::new(5, 6).unwrap_err(), "Decimal scale (6) cannot exceed precision (5)");
}

#[test]
fn type_names_read_back_in_any_case() {
    assert_eq!(ColumnType::from_str(" INTEGER\t"), Ok(ColumnType::Integer));
    assert_eq!(ColumnType::from_str(&ColumnType::Guid.describe()), Ok(ColumnType::Guid));
    let decimal = ColumnType::Decimal(DecimalSpec { precision: 12, scale: 3 });
    assert_eq!(ColumnType::from_str(&decimal.cli_token()), Ok(decimal));
    assert_eq!(ColumnType::from_str(&decimal.describe()), Ok(decimal));
}
