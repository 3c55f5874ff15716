use csv_managed::commands::{
    column_listing_rows,
    highlight_red, is_supported_datatype, parse_key_list, parse_report_invalid_options,
    resolve_columns, same_type, InvalidReportOptions, SortDirective,
};
use csv_managed::derive::{parse_derived_columns, DerivedColumn};
use csv_managed::schema::{ColumnMeta, ColumnType, DecimalSpec, Schema};

fn strings(values: &[&str]) -> Vec<String> {
    values.iter().map(|v| v.to_string()).collect()
}

fn column(name: &str, datatype: ColumnType) -> ColumnMeta {
    ColumnMeta {
        name: name.to_string(),
        datatype,
        rename: None,
        value_replacements: Vec::new(),
        datatype_mappings: Vec::new(),
    }
}

#[test]
fn sort_directive_parses_direction() {
    let d = SortDirective::parse("amount:desc").unwrap();
    assert_eq!(d.column, "amount");
    assert!(!d.ascending);
    let d = SortDirective::parse(" name ").unwrap();
    assert_eq!(d.column, "name");
    assert!(d.ascending);
    assert_eq!(SortDirective::parse("x:DESC").unwrap().ascending, false);
    assert_eq!(SortDirective::parse(":asc").unwrap_err(), "Sort directive is missing a column");
    assert_eq!(SortDirective::parse("x:up").unwrap_err(), "Unknown sort direction 'up'");
}

#[test]
fn parse_key_list_trims_and_drops_empty_parts() {
    assert_eq!(parse_key_list(" id , ,region").unwrap(), strings(&["id", "region"]));
    assert_eq!(parse_key_list(" , ").unwrap_err(), "Join key list cannot be empty");
}

#[test]
fn join_key_types_match_integer_with_float() {
    assert!(same_type(&ColumnType::Integer, &ColumnType::Float));
    assert!(same_type(&ColumnType::Float, &ColumnType::Integer));
    assert!(same_type(&ColumnType::String, &ColumnType::String));
    assert!(!same_type(&ColumnType::String, &ColumnType::Integer));
}

#[test]
fn stats_types_are_numeric_and_temporal() {
    assert!(is_supported_datatype(&ColumnType::Integer));
    assert!(is_supported_datatype(&ColumnType::Decimal(DecimalSpec { precision: 4, scale: 2 })));
    assert!(!is_supported_datatype(&ColumnType::String));
    assert!(!is_supported_datatype(&ColumnType::Boolean));
}

#[test]
fn resolve_columns_defaults_and_errors() {
    let schema = Schema {
        columns: vec![column("id", ColumnType::Integer), column("name", ColumnType::String)],
        schema_version: None,
        has_headers: true,
    };
    assert_eq!(resolve_columns(&schema, &[], false).unwrap(), vec![0]);
    assert_eq!(resolve_columns(&schema, &[], true).unwrap(), vec![0, 1]);
    assert_eq!(resolve_columns(&schema, &strings(&["name"]), true).unwrap(), vec![1]);
    assert_eq!(
        resolve_columns(&schema, &strings(&["missing"]), false).unwrap_err(),
        "Column 'missing' not found in schema"
    );
    assert!(resolve_columns(&schema, &strings(&["name"]), false)
        .unwrap_err()
        .contains("cannot be profiled for statistics"));
}

#[test]
fn report_invalid_options_combine_flags_and_limit() {
    assert_eq!(
        parse_report_invalid_options(&[]).unwrap(),
        InvalidReportOptions { show_detail: false, show_summary: true, limit: None }
    );
    assert_eq!(
        parse_report_invalid_options(&strings(&["detail", "5"])).unwrap(),
        InvalidReportOptions { show_detail: true, show_summary: false, limit: Some(5) }
    );
    assert_eq!(
        parse_report_invalid_options(&strings(&["Summary"])).unwrap(),
        InvalidReportOptions { show_detail: false, show_summary: true, limit: None }
    );
    assert!(parse_report_invalid_options(&strings(&["bogus"])).unwrap_err().contains("Invalid value 'bogus'"));
}

#[test]
fn highlight_red_wraps_in_ansi_codes() {
    assert_eq!(highlight_red("bad"), "\u{1b}[31mbad\u{1b}[0m");
}

#[test]
fn derived_column_parse_splits_on_first_equals() {
    let d = DerivedColumn::parse(" total = price * qty ").unwrap();
    assert_eq!(d.name, "total");
    assert_eq!(d.expression, "price * qty");
    let d = DerivedColumn::parse("flag=a == b").unwrap();
    assert_eq!(d.expression, "a == b");
    assert_eq!(DerivedColumn::parse("=x").unwrap_err(), "Derived column is missing a name");
    assert_eq!(DerivedColumn::parse("total").unwrap_err(), "Derived column 'total' is missing an expression");
    assert_eq!(DerivedColumn::parse("total=  ").unwrap_err(), "Derived column 'total' is missing an expression");
}

#[test]
fn parse_derived_columns_keeps_order_and_stops_at_first_error() {
    let parsed = parse_derived_columns(&strings(&["a=1", "b=2"])).unwrap();
    assert_eq!(parsed.len(), 2);
    assert_eq!(parsed[1].name, "b");
    assert!(parse_derived_columns(&strings(&["a=1", "oops"])).is_err());
}

#[test]
fn column_listing_rows_number_columns_and_show_renames() {
    let mut renamed = column("Amount", ColumnType::Decimal(DecimalSpec { precision: 10, scale: 2 }));
    renamed.rename = Some("amount_usd".to_string());
    let schema = Schema {
        columns: vec![column("id", ColumnType::Integer), renamed],
        schema_version: None,
        has_headers: true,
    };
    let rows = column_listing_rows(&schema);
    assert_eq!(rows.len(), 2);
    assert_eq!(rows[0], strings(&["1", "id", "integer", ""]));
    assert_eq!(
        rows[1],
        strings(&["2", "Amount", "decimal(precision=10,scale=2)", "amount_usd"])
    );
}
