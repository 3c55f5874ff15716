use csv_managed::commands::InvalidReportOptions;
use csv_managed::report::InvalidReport;
use csv_managed::schema::ColumnType;
use csv_managed::table::render_table;

fn strings(values: &[&str]) -> Vec<String> {
    values.iter().map(|v| v.to_string()).collect()
}

fn options(show_detail: bool, show_summary: bool, limit: Option<usize>) -> InvalidReportOptions {
    InvalidReportOptions { show_detail, show_summary, limit }
}

#[test]
fn summary_report_lists_columns_in_name_order() {
    let mut report = InvalidReport::new(options(false, true, None));
    report.record(2, "qty", ColumnType::Integer, "x", "x", "bad");
    report.record(3, "amount", ColumnType::Float, "y", "y", "bad");
    report.record(4, "qty", ColumnType::Integer, "z", "z", "bad");
    assert_eq!(report.total(), 3);
    let table = render_table(
        &strings(&["column", "datatype", "errors"]),
        &[strings(&["amount", "float", "1"]), strings(&["qty", "integer", "2"])],
    );
    assert_eq!(
        report.report_text("data.csv"),
        format!("\nColumns with schema violations:\n{table}\n")
    );
}

#[test]
fn detail_report_keeps_up_to_the_limit() {
    let mut report = InvalidReport::new(options(true, false, Some(1)));
    report.record(2, "qty", ColumnType::Integer, " 7x", "7x", "Failed to parse '7x' as integer");
    report.record(5, "qty", ColumnType::Integer, "q", "q", "Failed to parse 'q' as integer");
    let table = render_table(
        &strings(&["row", "column", "raw", "value", "datatype", "reason"]),
        &[strings(&[
            "2",
            "qty",
            " 7x",
            "\u{1b}[31m7x\u{1b}[0m",
            "integer",
            "Failed to parse '7x' as integer",
        ])],
    );
    assert_eq!(
        report.report_text("in.csv"),
        format!("\nInvalid rows in in.csv:\n{table}\nDisplayed 1 of 2 invalid row(s) (limit: 1).\n\n")
    );
}

#[test]
fn detail_report_without_samples_gives_a_hint() {
    let mut report = InvalidReport::new(options(true, true, Some(0)));
    report.record(2, "when", ColumnType::Date, "soon", "soon", "bad date");
    let summary = render_table(
        &strings(&["column", "datatype", "errors"]),
        &[strings(&["when", "date", "1"])],
    );
    assert_eq!(
        report.report_text("f.csv"),
        format!(
            "\nInvalid rows in f.csv:\nNo sample rows captured; use '--report-invalid:detail <LIMIT>' with a higher LIMIT to display examples.\n\nDisplayed 0 of 1 invalid row(s) (limit: 0).\n\nColumns with schema violations:\n{summary}\n"
        )
    );
}

#[test]
fn detail_report_with_all_rows_shown() {
    let mut report = InvalidReport::new(options(true, false, None));
    report.record(9, "ok", ColumnType::Boolean, "maybe", "maybe", "no");
    let table = render_table(
        &strings(&["row", "column", "raw", "value", "datatype", "reason"]),
        &[strings(&["9", "ok", "maybe", "\u{1b}[31mmaybe\u{1b}[0m", "boolean", "no"])],
    );
    assert_eq!(report.report_text("b.csv"), format!("\nInvalid rows in b.csv:\n{table}\n"));
}
