use csv_managed::inference::{analyze_numeric_token, format_hint_for, NumericKind, TypeCandidate};
use csv_managed::sampling::{
    apply_placeholder_replacements, InferenceAccumulator, InferenceStats, PlaceholderPolicy,
    PlaceholderSummary, RawField,
};
use csv_managed::schema::{ColumnType, DecimalSpec, Schema};

fn infer(headers: &[&str], rows: &[&[&str]]) -> (Schema, InferenceStats) {
    let headers: Vec<String> = headers.iter().map(|h| h.to_string()).collect();
    let mut acc = InferenceAccumulator::new(&headers, 0);
    for row in rows {
        let fields: Vec<RawField> = row
            .iter()
            .map(|v| if v.is_empty() { RawField::Empty } else { RawField::Text(v.to_string()) })
            .collect();
        acc.observe_row(&fields);
    }
    acc.finish(true)
}

#[test]
fn infer_schema_with_stats_captures_samples() {
    let (schema, stats) = infer(
        &["id", "date", "value"],
        &[&["1", "2024-01-01T08:30:00Z", "$12.34"], &["2", "2024-01-02T09:45:00Z", "$56.78"]],
    );
    assert_eq!(schema.columns.len(), 3);
    assert_eq!(stats.sample_value(1), Some("2024-01-01T08:30:00Z"));
    assert_eq!(stats.sample_value(2), Some("$12.34"));
    assert_eq!(stats.rows_read(), 2);
    assert_eq!(stats.decode_errors(), 0);
}

#[test]
fn infer_schema_identifies_currency_columns() {
    let (schema, _) = infer(&["amount", "name"], &[&["$12.34", "alpha"], &["56.7800", "beta"]]);
    assert_eq!(schema.columns[0].datatype, ColumnType::Currency);
    assert_eq!(schema.columns[1].datatype, ColumnType::String);
}

#[test]
fn infer_schema_promotes_currency_when_symbol_ratio_met() {
    let (schema, _) = infer(&["amount"], &[&["$12.00"], &["14"], &["15"]]);
    assert_eq!(schema.columns[0].datatype, ColumnType::Currency);
}

#[test]
fn infer_schema_prefers_decimal_when_fraction_present() {
    let (schema, _) = infer(&["amount"], &[&["1"], &["2"], &["3.5"]]);
    assert_eq!(schema.columns[0].datatype, ColumnType::Decimal(DecimalSpec::new(2, 1).unwrap()));
}

#[test]
fn infer_schema_supports_scientific_notation_as_decimal() {
    let (schema, _) = infer(&["value"], &[&["1e3"], &["2.5e-1"]]);
    assert_eq!(schema.columns[0].datatype, ColumnType::Decimal(DecimalSpec::new(6, 2).unwrap()));
}

#[test]
fn infer_schema_treats_leading_zero_integers_as_string() {
    let (schema, _) = infer(&["code"], &[&["001"], &["002"], &["003"]]);
    assert_eq!(schema.columns[0].datatype, ColumnType::String);
}

#[test]
fn infer_schema_prioritizes_decimal_over_currency_without_symbols() {
    let (schema, _) = infer(&["amount"], &[&["12.34"], &["45.67"]]);
    assert_eq!(schema.columns[0].datatype, ColumnType::Decimal(DecimalSpec::new(4, 2).unwrap()));
}

#[test]
fn infer_schema_prefers_majority_integer() {
    let (schema, _) = infer(&["id", "name"], &[&["1", "alpha"], &["2", "beta"], &["unknown", "gamma"]]);
    assert_eq!(schema.columns[0].datatype, ColumnType::Integer);
    assert_eq!(schema.columns[1].datatype, ColumnType::String);
}

#[test]
fn infer_schema_prefers_majority_boolean() {
    let (schema, _) = infer(&["flag"], &[&["true"], &["false"], &["unknown"]]);
    assert_eq!(schema.columns[0].datatype, ColumnType::Boolean);
}

#[test]
fn infer_schema_collects_na_placeholders() {
    let (_, stats) = infer(&["value"], &[&["NA"], &["#N/A"], &["42"]]);
    let summary = stats.placeholder_summary(0).expect("placeholder summary");
    let entries = summary.entries();
    assert_eq!(entries.len(), 2);
    assert!(entries.iter().any(|(token, count)| token == "NA" && *count == 1));
    assert!(entries.iter().any(|(token, count)| token == "#N/A" && *count == 1));
}

#[test]
fn placeholders_do_not_count_as_values() {
    let (schema, _) = infer(&["value"], &[&["NA"], &["n/a"], &["7"], &["8"]]);
    assert_eq!(schema.columns[0].datatype, ColumnType::Integer);
}

#[test]
fn column_without_values_is_string() {
    let (schema, stats) = infer(&["empty"], &[&[""], &[""]]);
    assert_eq!(schema.columns[0].datatype, ColumnType::String);
    assert_eq!(stats.sample_value(0), None);
}

#[test]
fn apply_placeholder_replacements_respects_policy() {
    let (schema, stats) = infer(&["value"], &[&["NA"], &["#NA"], &["7"]]);
    assert!(stats.placeholder_entries_fit());

    let mut schema_empty = schema.clone();
    let policy = PlaceholderPolicy::default_policy();
    let added_empty = apply_placeholder_replacements(&mut schema_empty, &stats, &policy);
    assert_eq!(added_empty, 2);
    assert!(schema_empty.columns[0].value_replacements.iter().any(|r| r.from == "NA" && r.to.is_empty()));
    assert!(schema_empty.columns[0].value_replacements.iter().any(|r| r.from == "#NA" && r.to.is_empty()));

    let mut schema_fill = schema.clone();
    let fill_policy = PlaceholderPolicy::FillWith("NULL".to_string());
    let added_fill = apply_placeholder_replacements(&mut schema_fill, &stats, &fill_policy);
    assert_eq!(added_fill, 2);
    assert!(schema_fill.columns[0].value_replacements.iter().all(|r| r.to == "NULL"));

    let after_fill = schema_fill.columns[0].value_replacements.clone();
    let added_duplicate = apply_placeholder_replacements(&mut schema_fill, &stats, &fill_policy);
    assert_eq!(added_duplicate, 0);
    assert_eq!(schema_fill.columns[0].value_replacements, after_fill);
}

#[test]
fn analyze_numeric_token_handles_scientific_notation() {
    let observation = analyze_numeric_token("1e3").expect("scientific notation should be recognized");
    assert!(matches!(observation.kind, NumericKind::Decimal));
}

#[test]
fn analyze_numeric_token_handles_scientific_with_fraction() {
    let observation =
        analyze_numeric_token("2.5e-1").expect("scientific notation with fraction should be recognized");
    assert!(matches!(observation.kind, NumericKind::Decimal));
    assert_eq!(observation.scale, 2);
    assert_eq!(observation.precision, 2);
}

#[test]
fn analyze_numeric_token_classifies_plain_tokens() {
    let int = analyze_numeric_token("1234").unwrap();
    assert!(matches!(int.kind, NumericKind::Integer));
    assert_eq!(int.integer_digits, 4);
    let money = analyze_numeric_token("$1,234.50").unwrap();
    assert!(money.has_currency_symbol);
    assert!(money.fits_currency_scale);
    assert_eq!(money.scale, 2);
    assert!(analyze_numeric_token("abc").is_none());
    assert!(analyze_numeric_token("").is_none());
}

#[test]
fn format_hint_detects_common_patterns() {
    assert_eq!(format_hint_for(&ColumnType::Date, Some("2024/01/30")).as_deref(), Some("Slash-separated date"));
    assert_eq!(
        format_hint_for(&ColumnType::Float, Some("\u{20AC}1,234.50")).as_deref(),
        Some("Currency symbol detected")
    );
    assert_eq!(
        format_hint_for(&ColumnType::Guid, Some("{ABCDEF12-3456-7890-ABCD-EF1234567890}")).as_deref(),
        Some("GUID with braces")
    );
    assert_eq!(format_hint_for(&ColumnType::String, None), None);
}

#[test]
fn type_candidate_counts_and_decides() {
    let mut candidate = TypeCandidate::new();
    for v in ["true", "false", "yes"] {
        candidate.update(v);
    }
    assert_eq!(candidate.non_empty, 3);
    assert_eq!(candidate.boolean_matches, 3);
    assert_eq!(candidate.decide(), ColumnType::Boolean);
    assert_eq!(TypeCandidate::new().decide(), ColumnType::String);
}

#[test]
fn placeholder_summary_counts_each_token() {
    let mut summary = PlaceholderSummary::new();
    assert!(summary.is_empty());
    summary.record("NA");
    summary.record("NA");
    summary.record("#N/A");
    let entries = summary.entries();
    let total: usize = entries.iter().map(|(_, c)| *c).sum();
    assert_eq!(total, 3);
    assert!(entries.iter().any(|(t, c)| t == "NA" && *c == 2));
    assert!(!summary.is_empty());
}

#[test]
fn placeholder_record_raises_only_its_count() {
    let mut summary = PlaceholderSummary::new();
    summary.record(" NA ");
    summary.record("-");
    summary.record("   ");
    assert_eq!(summary.entries(), vec![("-".to_string(), 1), ("NA".to_string(), 1)]);
    summary.record("NA");
    assert_eq!(summary.entries(), vec![("-".to_string(), 1), ("NA".to_string(), 2)]);
    assert!(summary.entries().iter().all(|(_, c)| *c >= 1));
}

#[test]
fn recorded_summary_lists_each_value_once_in_order() {
    let mut summary = PlaceholderSummary::new();
    for value in ["n/a", " NA", "", "#N/A", "NA ", "n/a", "\t", "-"] {
        summary.record(value);
    }
    assert_eq!(
        summary.entries(),
        vec![
            ("#N/A".to_string(), 1),
            ("-".to_string(), 1),
            ("NA".to_string(), 2),
            ("n/a".to_string(), 2),
        ]
    );
    assert_eq!(summary.entries().is_empty(), summary.is_empty());
}

#[test]
fn each_counted_value_lands_in_one_kind() {
    let mut candidate = TypeCandidate::new();
    candidate.update("2024-01-05");
    assert_eq!((candidate.non_empty, candidate.date_matches), (1, 1));
    candidate.update("12:30:00");
    assert_eq!((candidate.non_empty, candidate.time_matches), (2, 1));
    candidate.update("hello");
    assert_eq!((candidate.non_empty, candidate.unclassified), (3, 1));
    candidate.update("42");
    assert_eq!(candidate.non_empty, 4);
    assert_eq!(
        candidate.date_matches + candidate.datetime_matches + candidate.time_matches + candidate.guid_matches
            + candidate.unclassified,
        3
    );
    candidate.update(" NA ");
    assert_eq!(candidate.non_empty, 4);
}
