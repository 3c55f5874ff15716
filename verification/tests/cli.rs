use csv_managed::cli::{parse_delimiter, preprocess_cli_args, printable_delimiter};
use csv_managed::io_utils::{is_dash, resolve_encoding, resolve_input_delimiter, resolve_output_delimiter};

fn strings(values: &[&str]) -> Vec<String> {
    values.iter().map(|v| v.to_string()).collect()
}

#[test]
fn lib_preprocess_cli_args_expands_report_invalid_segments() {
    let processed = preprocess_cli_args(&strings(&[
        "csv-managed",
        "--report-invalid:stats:counts",
        "--dry-run",
    ]));
    assert_eq!(
        processed,
        vec!["csv-managed", "--report-invalid", "stats", "counts", "--dry-run"]
    );
}

#[test]
fn preprocess_cli_args_splits_report_invalid_segments_examples() {
    for segments in [vec!["a"], vec!["detail", "summary", "10"], vec!["x_1", "y-2"]] {
        let mut arg = String::from("--report-invalid");
        for segment in &segments {
            arg.push(':');
            arg.push_str(segment);
        }
        let processed = preprocess_cli_args(&strings(&["csv-managed", &arg]));
        assert_eq!(processed[0], "csv-managed");
        assert_eq!(processed[1], "--report-invalid");
        for (idx, segment) in segments.iter().enumerate() {
            assert_eq!(processed[idx + 2], *segment);
        }
        assert_eq!(processed.len(), segments.len() + 2);
    }
}

#[test]
fn preprocess_cli_args_drops_empty_segments_and_keeps_others() {
    let processed = preprocess_cli_args(&strings(&["--report-invalid::a::", "--report-invalid", "x"]));
    assert_eq!(processed, vec!["--report-invalid", "a", "--report-invalid", "x"]);
}

#[test]
fn parse_delimiter_accepts_names_and_single_characters() {
    assert_eq!(parse_delimiter("tab"), Ok(b'\t'));
    assert_eq!(parse_delimiter("comma"), Ok(b','));
    assert_eq!(parse_delimiter("pipe"), Ok(b'|'));
    assert_eq!(parse_delimiter("semicolon"), Ok(b';'));
    assert_eq!(parse_delimiter(":"), Ok(b':'));
}

#[test]
fn parse_delimiter_rejects_bad_input() {
    assert_eq!(parse_delimiter(""), Err("Delimiter cannot be empty".to_string()));
    assert_eq!(parse_delimiter("ab"), Err("Delimiter must be a single character".to_string()));
    assert_eq!(parse_delimiter("é"), Err("Delimiter must be ASCII".to_string()));
}

#[test]
fn printable_delimiter_escapes_whitespace() {
    assert_eq!(printable_delimiter(b','), ",");
    assert_eq!(printable_delimiter(b'\t'), "\\t");
    assert_eq!(printable_delimiter(b'\n'), "\\n");
    assert_eq!(printable_delimiter(b'|'), "|");
}

#[test]
fn delimiters_follow_extension_unless_given() {
    assert!(is_dash("-"));
    assert!(!is_dash("data.csv"));
    assert_eq!(resolve_input_delimiter("data.tsv", None), b'\t');
    assert_eq!(resolve_input_delimiter("data.csv", None), b',');
    assert_eq!(resolve_input_delimiter("data.tsv", Some(b';')), b';');
    assert_eq!(resolve_output_delimiter(Some("out.tsv"), None, b','), b'\t');
    assert_eq!(resolve_output_delimiter(None, None, b'|'), b'|');
    assert_eq!(resolve_output_delimiter(Some("out.csv"), Some(b';'), b','), b';');
}

#[test]
fn encodings_resolve_from_labels() {
    assert_eq!(resolve_encoding(None).unwrap().name(), "UTF-8");
    assert_eq!(resolve_encoding(Some(" latin1 ")).unwrap().name(), "windows-1252");
    assert_eq!(resolve_encoding(Some("UTF-16LE")).unwrap().name(), "UTF-16LE");
    assert_eq!(
        resolve_encoding(Some("klingon")).unwrap_err(),
        "Unknown encoding 'klingon'"
    );
}
