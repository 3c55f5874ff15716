use csv_managed::index::{CsvIndex, IndexDefinition, IndexVariant, SortDirection};
use csv_managed::schema::ColumnType;

#[test]
fn index_parse_index_spec_supports_mixed_directions() {
    let spec = IndexDefinition::parse("col1:desc,col2:asc,col3").unwrap();
    assert_eq!(spec.columns, vec!["col1", "col2", "col3"]);
    assert_eq!(
        spec.directions,
        vec![SortDirection::Desc, SortDirection::Asc, SortDirection::Asc]
    );
    assert!(spec.name.is_none());
}

#[test]
fn index_parse_index_spec_supports_named_variants() {
    let spec = IndexDefinition::parse("top=col1:desc,col2").unwrap();
    assert_eq!(spec.name.as_deref(), Some("top"));
    assert_eq!(spec.columns, vec!["col1", "col2"]);
    assert_eq!(spec.directions, vec![SortDirection::Desc, SortDirection::Asc]);
}

#[test]
fn index_parse_index_spec_requires_column_name() {
    let err = IndexDefinition::parse("col1,,col2").expect_err("spec with missing column should fail");
    assert!(err.contains("missing a column name"));
}

#[test]
fn index_parse_index_spec_rejects_unknown_direction() {
    let err = IndexDefinition::parse("col1:sideways").expect_err("unknown direction should fail");
    assert!(err.contains("Unknown sort direction"));
}

#[test]
fn index_index_definition_from_columns_rejects_empty() {
    let err = IndexDefinition::from_columns(vec![" ".to_string()])
        .expect_err("empty column list should fail");
    assert!(err.contains("At least one column"));
}

#[test]
fn index_expand_covering_spec_generates_prefix_variants() {
    let variants = IndexDefinition::expand_covering_spec("col1:asc|desc,col2:asc").unwrap();
    assert_eq!(variants.len(), 4);
    let coverings: Vec<(Vec<String>, Vec<SortDirection>, String)> = variants
        .into_iter()
        .map(|definition| (definition.columns, definition.directions, definition.name.unwrap()))
        .collect();
    assert!(coverings.iter().any(|(cols, dirs, _)| {
        cols == &vec!["col1".to_string()] && dirs == &vec![SortDirection::Asc]
    }));
    assert!(coverings.iter().any(|(cols, dirs, _)| {
        cols == &vec!["col1".to_string()] && dirs == &vec![SortDirection::Desc]
    }));
    assert!(coverings.iter().any(|(cols, dirs, name)| {
        cols == &vec!["col1".to_string(), "col2".to_string()]
            && dirs == &vec![SortDirection::Asc, SortDirection::Asc]
            && name.contains("col1-asc")
    }));
}

#[test]
fn index_expand_covering_spec_honors_name_prefix() {
    let variants =
        IndexDefinition::expand_covering_spec("geo=country:asc|desc,region:asc|desc").unwrap();
    assert!(variants.len() >= 4);
    for definition in variants {
        let name = definition.name.unwrap();
        assert!(name.starts_with("geo_"));
        assert_eq!(definition.columns[0], "country");
    }
}

#[test]
fn expand_covering_spec_rejects_empty_spec() {
    let err = IndexDefinition::expand_covering_spec("").expect_err("empty covering spec should fail");
    assert!(
        err.contains("column") || err.contains("missing") || err.contains("empty"),
        "Expected descriptive error, got: {err}"
    );
}

#[test]
fn expand_covering_spec_rejects_missing_columns_after_name() {
    let err = IndexDefinition::expand_covering_spec("prefix=")
        .expect_err("spec missing columns should fail");
    assert!(err.contains("missing column"), "Expected 'missing column' error, got: {err}");
}

#[test]
fn expand_covering_spec_counts_every_prefix_and_direction() {
    // Two directions on the first column, one on the second: 2 + 2 * 1.
    let variants = IndexDefinition::expand_covering_spec("a:asc|desc,b:asc").unwrap();
    assert_eq!(variants.len(), 4);
    // Three columns with two directions each: 2 + 4 + 8.
    let variants = IndexDefinition::expand_covering_spec("a:asc|desc,b:asc|desc,c:asc|desc").unwrap();
    assert_eq!(variants.len(), 14);
}

fn variant(name: Option<&str>, columns: &[&str], directions: &[SortDirection], groups: Vec<Vec<u64>>) -> IndexVariant {
    IndexVariant::from_parts(
        columns.iter().map(|c| c.to_string()).collect(),
        directions.to_vec(),
        columns.iter().map(|_| ColumnType::String).collect(),
        groups,
        name.map(|n| n.to_string()),
    )
}

fn sample_index() -> CsvIndex {
    let short = variant(Some("short"), &["a"], &[SortDirection::Asc], vec![vec![10], vec![20, 30]]);
    let long = variant(
        Some("long"),
        &["a", "b"],
        &[SortDirection::Asc, SortDirection::Asc],
        vec![vec![30], vec![20], vec![10]],
    );
    CsvIndex::from_parts(vec!["a".to_string(), "b".to_string(), "c".to_string()], vec![short, long], 3)
}

#[test]
fn best_match_selects_longest_prefix_variant() {
    let index = sample_index();
    let matched = index
        .best_match(&[
            ("a".to_string(), SortDirection::Asc),
            ("b".to_string(), SortDirection::Asc),
            ("c".to_string(), SortDirection::Asc),
        ])
        .expect("should find a matching variant");
    assert_eq!(matched.name(), Some("long"));
    assert_eq!(matched.columns().len(), 2);
}

#[test]
fn best_match_rejects_direction_mismatch() {
    let index = sample_index();
    assert!(index.best_match(&[("a".to_string(), SortDirection::Desc)]).is_none());
    assert!(index.best_match(&[("c".to_string(), SortDirection::Asc)]).is_none());
}

#[test]
fn variant_by_name_finds_named_variant() {
    let index = sample_index();
    assert_eq!(index.variant_by_name("short").unwrap().columns().len(), 1);
    assert!(index.variant_by_name("missing").is_none());
    assert_eq!(index.row_count(), 3);
    assert_eq!(index.variants().len(), 2);
}

#[test]
fn ordered_offsets_flatten_groups_in_order() {
    let index = sample_index();
    let short = index.variant_by_name("short").unwrap();
    assert_eq!(short.ordered_offsets(), vec![10, 20, 30]);
    let long = index.variant_by_name("long").unwrap();
    assert_eq!(long.ordered_offsets(), vec![30, 20, 10]);
}

#[test]
fn variant_matches_requires_prefix_of_directives() {
    let index = sample_index();
    let long = index.variant_by_name("long").unwrap();
    assert!(!long.matches(&[("a".to_string(), SortDirection::Asc)]));
    assert!(long.matches(&[
        ("a".to_string(), SortDirection::Asc),
        ("b".to_string(), SortDirection::Asc),
    ]));
}

#[test]
fn sort_direction_reports_ascending() {
    assert!(SortDirection::Asc.is_ascending());
    assert!(!SortDirection::Desc.is_ascending());
}

#[test]
fn load_rejects_incompatible_index_version() {
    let current = CsvIndex::with_version(csv_managed::index::INDEX_VERSION, vec!["a".to_string()], Vec::new(), 0);
    assert!(current.check_version().is_ok());
    let future = CsvIndex::with_version(csv_managed::index::INDEX_VERSION + 99, vec!["a".to_string()], Vec::new(), 0);
    let msg = future.check_version().unwrap_err();
    assert!(msg.contains("Unsupported index version"), "got: {msg}");
}
