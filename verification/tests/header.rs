use csv_managed::header::{
    build_header_aliases, generate_field_names, header_tokens_match_dictionary, infer_has_header,
    layout_from_sample, row_looks_like_header, token_is_common_header, value_is_data_like,
    value_is_header_like,
};

fn strings(values: &[&str]) -> Vec<String> {
    values.iter().map(|v| v.to_string()).collect()
}

#[test]
fn generate_field_names_numbers_from_zero() {
    assert_eq!(generate_field_names(3), strings(&["field_0", "field_1", "field_2"]));
    assert!(generate_field_names(0).is_empty());
}

#[test]
fn data_like_values_are_recognized() {
    for v in ["42", "-3.5", "$12.00", "yes", "2024-01-02", "12:30:00"] {
        assert!(value_is_data_like(v), "{v} should look like data");
    }
    assert!(!value_is_data_like("name"));
    assert!(!value_is_data_like("   "));
}

#[test]
fn header_like_values_have_letters_and_are_not_data() {
    assert!(value_is_header_like("customer_name"));
    assert!(!value_is_header_like("42"));
    assert!(!value_is_header_like("true"));
    assert!(!value_is_header_like(""));
}

#[test]
fn common_header_tokens_are_matched_after_normalizing() {
    assert!(token_is_common_header("id"));
    assert!(token_is_common_header(" Name "));
    assert!(!token_is_common_header(""));
    assert!(header_tokens_match_dictionary(&strings(&["id", "name", "zzz"])));
    assert!(!header_tokens_match_dictionary(&strings(&["id", "zzz"])));
}

#[test]
fn infer_has_header_distinguishes_header_rows() {
    let first = strings(&["id", "value"]);
    let rest = vec![strings(&["1", "2"]), strings(&["3", "4"])];
    assert!(infer_has_header(&first, &rest));
    let first = strings(&["100", "200"]);
    assert!(!infer_has_header(&first, &rest));
}

#[test]
fn layout_from_sample_names_headerless_columns() {
    let rows = vec![strings(&["1", "2"]), strings(&["3", "4"])];
    let layout = layout_from_sample(&rows);
    assert!(!layout.has_headers);
    assert_eq!(layout.headers, strings(&["field_0", "field_1"]));
    assert_eq!(layout.field_count(), 2);

    let rows = vec![strings(&["id", "name"]), strings(&["1", "alice"])];
    let layout = layout_from_sample(&rows);
    assert!(layout.has_headers);
    assert_eq!(layout.headers, strings(&["id", "name"]));
}

#[test]
fn header_aliases_include_lowercase_and_last_segment() {
    let aliases = build_header_aliases("Order_ID");
    assert!(aliases.contains(&"order_id".to_string()));
    assert!(aliases.contains(&"id".to_string()));
    assert!(build_header_aliases("   ").is_empty());
}

#[test]
fn repeated_header_row_is_recognized() {
    let aliases: Vec<Vec<String>> =
        ["id", "name", "city", "zip"].iter().map(|h| build_header_aliases(h)).collect();
    assert!(row_looks_like_header(&strings(&["ID", "Name", "CITY", "Zip"]), &aliases));
    assert!(!row_looks_like_header(&strings(&["1", "alice", "paris", "75000"]), &aliases));
    // Fewer than four matching fields is not enough.
    assert!(!row_looks_like_header(&strings(&["ID", "Name", "", ""]), &aliases));
}
