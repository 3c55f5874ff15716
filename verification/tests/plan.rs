use csv_managed::cli::BooleanFormat;
use csv_managed::commands::SortDirective;
use csv_managed::data::TypedCell;
use csv_managed::derive::DerivedColumn;
use csv_managed::index::{CsvIndex, IndexVariant, SortDirection};
use csv_managed::plan::{
    build_emitted_schema, build_sort_plan, mappings_apply, output_settings, reconcile_schema_with_headers,
    resolve_column_key, select_index_variant, sort_signature, split_list, OutputField, OutputPlan,
    OutputSettings, SortInstruction,
};
use csv_managed::schema::{ColumnMeta, ColumnType, Schema};

fn strings(values: &[&str]) -> Vec<String> {
    values.iter().map(|v| v.to_string()).collect()
}

fn column(name: &str, datatype: ColumnType, rename: Option<&str>) -> ColumnMeta {
    ColumnMeta {
        name: name.to_string(),
        datatype,
        rename: rename.map(|r| r.to_string()),
        value_replacements: Vec::new(),
        datatype_mappings: Vec::new(),
    }
}

fn sample_schema() -> Schema {
    Schema {
        columns: vec![
            column("id", ColumnType::Integer, None),
            column("Name", ColumnType::String, Some("name")),
            column("flag", ColumnType::Boolean, None),
        ],
        schema_version: Some("1".to_string()),
        has_headers: true,
    }
}

#[test]
fn resolve_column_key_uses_headers_and_renames() {
    let schema = sample_schema();
    let headers = strings(&["id", "Name", "flag"]);
    assert_eq!(resolve_column_key(&headers, &schema, "Name"), Some(1));
    assert_eq!(resolve_column_key(&headers, &schema, "name"), Some(1));
    assert_eq!(resolve_column_key(&headers, &schema, "missing"), None);
    // A later column takes a name over from an earlier one.
    let headers = strings(&["a", "a"]);
    let schema = Schema::from_headers(&headers);
    assert_eq!(resolve_column_key(&headers, &schema, "a"), Some(1));
}

#[test]
fn reconcile_fills_empty_schema_or_checks_headers() {
    let mut empty = Schema { columns: Vec::new(), schema_version: None, has_headers: true };
    reconcile_schema_with_headers(&mut empty, &strings(&["x", "y"])).unwrap();
    assert_eq!(empty.headers(), strings(&["x", "y"]));
    let mut schema = sample_schema();
    assert!(reconcile_schema_with_headers(&mut schema, &strings(&["id", "name", "flag"])).is_ok());
    assert!(reconcile_schema_with_headers(&mut schema, &strings(&["id"])).is_err());
}

#[test]
fn sort_plan_resolves_keys_or_reports_missing() {
    let schema = sample_schema();
    let headers = strings(&["id", "Name", "flag"]);
    let directives = vec![
        SortDirective::parse("name:desc").unwrap(),
        SortDirective::parse("id").unwrap(),
    ];
    assert_eq!(
        build_sort_plan(&directives, &schema, &headers).unwrap(),
        vec![SortInstruction { index: 1, ascending: false }, SortInstruction { index: 0, ascending: true }]
    );
    let missing = vec![SortDirective::parse("nope").unwrap()];
    assert_eq!(build_sort_plan(&missing, &schema, &headers).unwrap_err(), "Sort column 'nope' not found");
}

#[test]
fn output_plan_orders_row_number_columns_and_derived() {
    let schema = sample_schema();
    let headers = strings(&["id", "Name", "flag"]);
    let derived = vec![DerivedColumn::parse("double=id*2").unwrap()];
    let plan = OutputPlan::new(&headers, &schema, &strings(&["flag", "Name"]), &derived, true, BooleanFormat::OneZero)
        .unwrap();
    assert_eq!(plan.headers(), &strings(&["row_number", "flag", "name", "double"])[..]);
    assert_eq!(
        plan.fields,
        vec![OutputField::RowNumber, OutputField::ExistingColumn(2), OutputField::ExistingColumn(1), OutputField::Derived(0)]
    );
    let all = OutputPlan::new(&headers, &schema, &[], &[], false, BooleanFormat::Original).unwrap();
    assert_eq!(all.headers, strings(&["id", "name", "flag"]));
    let err = OutputPlan::new(&headers, &schema, &strings(&["nope"]), &[], false, BooleanFormat::Original).unwrap_err();
    assert_eq!(err, "Requested column 'nope' not found");
}

#[test]
fn format_existing_value_rewrites_only_booleans() {
    let schema = sample_schema();
    let headers = strings(&["id", "Name", "flag"]);
    let plan = OutputPlan::new(&headers, &schema, &[], &[], false, BooleanFormat::TrueFalse).unwrap();
    assert_eq!(plan.format_existing_value("Y", Some(&TypedCell::Boolean(true))), "true");
    assert_eq!(plan.format_existing_value("n", Some(&TypedCell::Boolean(false))), "false");
    assert_eq!(plan.format_existing_value("7", Some(&TypedCell::Integer(7))), "7");
    let plan = OutputPlan::new(&headers, &schema, &[], &[], false, BooleanFormat::Original).unwrap();
    assert_eq!(plan.format_existing_value("Y", Some(&TypedCell::Boolean(true))), "Y");
}

#[test]
fn emitted_schema_describes_output_columns() {
    let schema = sample_schema();
    let headers = strings(&["id", "Name", "flag"]);
    let derived = vec![DerivedColumn::parse("double=id*2").unwrap()];
    let plan = OutputPlan::new(&headers, &schema, &strings(&["Name"]), &derived, true, BooleanFormat::Original).unwrap();
    let emitted = build_emitted_schema(&schema, &derived, &plan);
    assert_eq!(emitted.headers(), strings(&["row_number", "name", "double"]));
    assert_eq!(emitted.columns[0].datatype, ColumnType::Integer);
    assert_eq!(emitted.columns[1].datatype, ColumnType::String);
    assert_eq!(emitted.columns[2].datatype, ColumnType::String);
    assert!(emitted.columns.iter().all(|c| c.rename.is_none()));
    assert_eq!(emitted.schema_version.as_deref(), Some("1"));
    assert!(emitted.has_headers);
}

#[test]
fn split_list_flattens_comma_separated_options() {
    assert_eq!(
        split_list(&strings(&["a, b", " ", "c,,d "])),
        strings(&["a", "b", "c", "d"])
    );
    assert!(split_list(&[]).is_empty());
}

#[test]
fn sort_signature_follows_directives() {
    let sorts = vec![
        SortDirective { column: "a".to_string(), ascending: true },
        SortDirective { column: "b".to_string(), ascending: false },
    ];
    assert_eq!(
        sort_signature(&sorts),
        vec![("a".to_string(), SortDirection::Asc), ("b".to_string(), SortDirection::Desc)]
    );
}

fn sample_index() -> CsvIndex {
    let by_a = IndexVariant::from_parts(
        strings(&["a"]),
        vec![SortDirection::Asc],
        vec![ColumnType::String],
        vec![vec![0]],
        Some("by_a".to_string()),
    );
    let by_ab = IndexVariant::from_parts(
        strings(&["a", "b"]),
        vec![SortDirection::Asc, SortDirection::Desc],
        vec![ColumnType::String, ColumnType::Integer],
        vec![vec![0]],
        None,
    );
    CsvIndex::from_parts(strings(&["a", "b"]), vec![by_a, by_ab], 1)
}

#[test]
fn index_variant_selection_prefers_named_then_best() {
    let index = sample_index();
    let sig = vec![("a".to_string(), SortDirection::Asc), ("b".to_string(), SortDirection::Desc)];
    let best = select_index_variant(Some(&index), None, &sig, "label").unwrap().unwrap();
    assert_eq!(best.columns().len(), 2);
    let named = select_index_variant(Some(&index), Some(" by_a "), &sig, "label").unwrap().unwrap();
    assert_eq!(named.name(), Some("by_a"));
    assert!(select_index_variant(Some(&index), None, &[], "label").unwrap().is_none());
    assert!(select_index_variant(None, None, &sig, "label").unwrap().is_none());
}

#[test]
fn index_variant_selection_reports_problems() {
    let index = sample_index();
    let sig = vec![("b".to_string(), SortDirection::Asc)];
    assert_eq!(
        select_index_variant(None, Some("x"), &sig, "None").unwrap_err(),
        "An index variant was specified but no index file was provided"
    );
    assert_eq!(
        select_index_variant(Some(&index), Some("by_a"), &[], "l").unwrap_err(),
        "Selecting an index variant requires at least one --sort directive"
    );
    assert_eq!(
        select_index_variant(Some(&index), Some("nope"), &sig, "Some(\"x.idx\")").unwrap_err(),
        "Index variant 'nope' not found in Some(\"x.idx\")"
    );
    assert_eq!(
        select_index_variant(Some(&index), Some("by_a"), &sig, "l").unwrap_err(),
        "Index variant 'by_a' does not match the requested sort order"
    );
}

#[test]
fn output_settings_follow_preview_and_table_flags() {
    assert_eq!(
        output_settings(true, false, true, false, None),
        Ok(OutputSettings { use_table_output: true, limit: Some(10) })
    );
    assert_eq!(
        output_settings(false, true, false, true, Some(3)),
        Ok(OutputSettings { use_table_output: false, limit: Some(3) })
    );
    assert_eq!(
        output_settings(false, false, true, true, None),
        Ok(OutputSettings { use_table_output: true, limit: None })
    );
    assert_eq!(
        output_settings(true, true, false, false, None).unwrap_err(),
        "--preview cannot be combined with --output"
    );
}

#[test]
fn mappings_apply_unless_skipped() {
    assert_eq!(mappings_apply(false, false, true), Ok(true));
    assert_eq!(mappings_apply(true, false, false), Ok(false));
    assert_eq!(mappings_apply(false, true, true), Ok(false));
    assert_eq!(
        mappings_apply(true, true, true).unwrap_err(),
        "--apply-mappings and --skip-mappings cannot be used together"
    );
}
