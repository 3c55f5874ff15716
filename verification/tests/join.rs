use csv_managed::join::{build_output_headers, column_indices, validate_key_types};
use csv_managed::schema::{ColumnMeta, ColumnType, Schema};

fn strings(values: &[&str]) -> Vec<String> {
    values.iter().map(|v| v.to_string()).collect()
}

fn schema(columns: &[(&str, ColumnType)]) -> Schema {
    Schema {
        columns: columns
            .iter()
            .map(|(name, datatype)| ColumnMeta {
                name: name.to_string(),
                datatype: *datatype,
                rename: None,
                value_replacements: Vec::new(),
                datatype_mappings: Vec::new(),
            })
            .collect(),
        schema_version: None,
        has_headers: true,
    }
}

#[test]
fn output_headers_skip_right_keys_and_rename_clashes() {
    let (headers, kept) = build_output_headers(
        &strings(&["id", "name", "amount"]),
        &strings(&["customer_id", "name", "region"]),
        &[0],
    );
    assert_eq!(headers, strings(&["id", "name", "amount", "right_name_1", "region"]));
    assert_eq!(kept, vec![1, 2]);
}

#[test]
fn output_headers_take_the_first_free_counter() {
    let (headers, kept) = build_output_headers(
        &strings(&["a", "right_a_1", "right_a_2"]),
        &strings(&["a", "a"]),
        &[],
    );
    assert_eq!(
        headers,
        strings(&["a", "right_a_1", "right_a_2", "right_a_3", "right_a_4"])
    );
    assert_eq!(kept, vec![0, 1]);
}

#[test]
fn output_headers_without_clashes_append_right_names() {
    let (headers, kept) = build_output_headers(&strings(&["x"]), &strings(&["k", "y", "z"]), &[0, 2]);
    assert_eq!(headers, strings(&["x", "y"]));
    assert_eq!(kept, vec![1]);
}

#[test]
fn key_columns_are_found_or_reported() {
    let s = schema(&[("id", ColumnType::Integer), ("name", ColumnType::String)]);
    assert_eq!(column_indices(&s, &strings(&["name", "id"])), Ok(vec![1, 0]));
    assert_eq!(
        column_indices(&s, &strings(&["id", "missing"])),
        Err("Column 'missing' not found in schema".to_string())
    );
}

#[test]
fn key_types_must_be_comparable() {
    let left = schema(&[("id", ColumnType::Integer), ("when", ColumnType::Date)]);
    let right = schema(&[("id", ColumnType::Float), ("when", ColumnType::String)]);
    assert_eq!(validate_key_types(&left, &right, &[0], &[0]), Ok(()));
    assert_eq!(
        validate_key_types(&left, &right, &[0, 1], &[0, 1]),
        Err("Type mismatch for join keys: left Date vs right String".to_string())
    );
}
