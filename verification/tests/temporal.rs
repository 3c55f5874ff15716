use csv_managed::temporal::{
    date_add, date_diff_days, date_format, date_sub, datetime_add_seconds, datetime_diff_seconds,
    datetime_format, datetime_to_date, datetime_to_time, days_delta_ok, seconds_delta_ok, time_add_seconds,
    time_diff_seconds,
};

#[test]
fn date_add_and_diff_work() {
    assert_eq!(date_add("2024-01-01", 5), Ok("2024-01-06".to_string()));
    assert_eq!(date_sub("2024-03-01", 1), Ok("2024-02-29".to_string()));
    assert_eq!(date_diff_days("2024-01-10", "2024-01-01"), Ok(9));
    assert_eq!(date_diff_days("01/01/2024", "2024-01-10"), Ok(-9));
    assert_eq!(date_add("not a date", 1), Err("Failed to parse 'not a date' as date".to_string()));
    assert_eq!(date_add("2024-01-01", 1_000_000_000), Err("date_add overflow".to_string()));
}

#[test]
fn datetime_helpers_work() {
    assert_eq!(
        datetime_add_seconds("2024-01-01 23:59:30", 45),
        Ok("2024-01-02 00:00:15".to_string())
    );
    assert_eq!(datetime_diff_seconds("2024-01-01 00:01:00", "2024-01-01 00:00:00"), Ok(60));
    assert_eq!(datetime_to_date("2024-05-06T07:08:09"), Ok("2024-05-06".to_string()));
    assert_eq!(datetime_to_time("2024-05-06 07:08:09"), Ok("07:08:09".to_string()));
    assert_eq!(datetime_to_date("x"), Err("Failed to parse 'x' as datetime".to_string()));
}

#[test]
fn time_helpers_work() {
    assert_eq!(time_add_seconds("10:00:00", 90), Ok("10:01:30".to_string()));
    assert_eq!(time_add_seconds("23:59:59", 2), Err("time_add_seconds overflow".to_string()));
    assert_eq!(time_diff_seconds("10:00:00", "09:59:00"), Ok(60));
    assert_eq!(time_diff_seconds("10:00", "noon"), Err("Failed to parse 'noon' as time".to_string()));
}

#[test]
fn formats_follow_chrono() {
    assert_eq!(date_format("2024-02-03", "%d.%m.%Y"), Some(Ok("03.02.2024".to_string())));
    assert_eq!(datetime_format("2024-02-03 04:05:06", "%H%M"), Some(Ok("0405".to_string())));
    assert_eq!(date_format("2024-02-03", "%H"), None);
    assert_eq!(date_format("bad", "%Y"), Some(Err("Failed to parse 'bad' as date".to_string())));
}

#[test]
fn duration_ranges_match_chrono() {
    assert!(days_delta_ok(106_751_991_167));
    assert!(!days_delta_ok(106_751_991_168));
    assert!(seconds_delta_ok(i64::MAX / 1000));
    assert!(!seconds_delta_ok(i64::MAX / 1000 + 1));
    assert!(!days_delta_ok(i64::MIN));
}
