use csv_managed::schema::{ColumnType, DecimalSpec};
use csv_managed::data::{
    normalize_column_name, parse_typed_value, CurrencyValue, FixedDecimalValue, TypedCell, parse_currency_decimal, parse_decimal_literal, parse_guid,
    parse_naive_date, parse_naive_datetime, parse_naive_time, CivilDate, CivilDateTime, CivilTime,
    DecimalValue,
};

fn date(year: i32, month: u32, day: u32) -> CivilDate {
    CivilDate { year, month, day }
}

fn time(hour: u32, minute: u32, second: u32) -> CivilTime {
    CivilTime { hour, minute, second, nanosecond: 0 }
}

#[test]
fn data_normalize_column_name_replaces_non_alphanumeric() {
    assert_eq!(normalize_column_name("Order ID"), "order_id");
    assert_eq!(normalize_column_name("$Percent%"), "_percent_");
    assert_eq!(normalize_column_name("123Metric"), "_123metric");
    assert_eq!(normalize_column_name(""), "column");
}

#[test]
fn normalize_column_name_is_idempotent_on_examples() {
    for raw in ["Order ID", "$Percent%", "123Metric", "", "already_ok", "Ünïcode Name"] {
        let once = normalize_column_name(raw);
        assert_eq!(normalize_column_name(&once), once);
    }
}

#[test]
fn data_parse_naive_date_supports_multiple_formats() {
    let expected = date(2024, 5, 6);
    assert_eq!(parse_naive_date("2024-05-06").unwrap(), expected);
    assert_eq!(parse_naive_date("06/05/2024").unwrap(), expected);
    assert_eq!(parse_naive_date("2024/05/06").unwrap(), expected);
}

#[test]
fn data_parse_naive_datetime_supports_multiple_formats() {
    let expected = CivilDateTime { date: date(2024, 5, 6), time: time(14, 30, 0) };
    assert_eq!(parse_naive_datetime("2024-05-06T14:30:00").unwrap(), expected);
    assert_eq!(parse_naive_datetime("06/05/2024 14:30:00").unwrap(), expected);
    assert_eq!(parse_naive_datetime("2024-05-06 14:30").unwrap(), expected);
}

#[test]
fn data_parse_naive_time_supports_multiple_formats() {
    let expected = time(14, 30, 0);
    assert_eq!(parse_naive_time("14:30:00").unwrap(), expected);
    assert_eq!(parse_naive_time("14:30").unwrap(), expected);
    assert!(parse_naive_time("24:61").is_err());
}

#[test]
fn parse_naive_date_rejects_invalid_input() {
    assert!(parse_naive_date("not-a-date").is_err());
    assert!(parse_naive_date("2024-13-01").is_err());
    assert!(parse_naive_date("").is_err());
}

#[test]
fn parse_naive_datetime_rejects_invalid_input() {
    assert!(parse_naive_datetime("not-a-datetime").is_err());
    assert!(parse_naive_datetime("2024-01-01 25:00:00").is_err());
    assert!(parse_naive_datetime("").is_err());
}

#[test]
fn parse_guid_accepts_plain_and_braced_forms() {
    let plain = parse_guid("550e8400-e29b-41d4-a716-446655440000").unwrap();
    assert_eq!(plain, 0x550e8400_e29b_41d4_a716_446655440000u128);
    let braced = parse_guid("{550e8400-e29b-41d4-a716-446655440000}").unwrap();
    assert_eq!(braced, plain);
    assert!(parse_guid("not-a-guid").is_none());
}

#[test]
fn data_parse_decimal_literal_supports_parentheses_and_separators() {
    let parsed = parse_decimal_literal("(1,234.50)").expect("parse negative grouped decimal");
    assert_eq!(parsed, DecimalValue { mantissa: -123450, scale: 2, negative: true });
}

#[test]
fn data_parse_decimal_literal_supports_positive_sign_and_underscores() {
    let parsed = parse_decimal_literal(" +7_654.321 ").expect("parse underscored decimal");
    assert_eq!(parsed, DecimalValue { mantissa: 7654321, scale: 3, negative: false });
}

#[test]
fn data_parse_decimal_literal_rejects_invalid_characters() {
    assert!(parse_decimal_literal("12a.34").is_err());
    assert!(parse_decimal_literal("#42.0").is_err());
}

#[test]
fn data_parse_decimal_literal_rejects_multiple_decimal_points() {
    assert!(parse_decimal_literal("1.2.3").is_err());
}

#[test]
fn parse_decimal_literal_rejects_empty_input() {
    assert!(parse_decimal_literal("   ").is_err());
    assert!(parse_decimal_literal("()").is_err());
}

#[test]
fn parse_currency_accepts_all_supported_symbols() {
    for (raw, expected) in [("$100.00", "100.00"), ("€200.50", "200.50"), ("£300.75", "300.75"), ("¥400.25", "400.25")] {
        let parsed = CurrencyValue::parse(raw).unwrap_or_else(|_| panic!("should parse '{raw}'"));
        assert_eq!(parsed.to_string_fixed(), expected, "symbol input '{raw}'");
    }
}

#[test]
fn parse_currency_accepts_parentheses_negative() {
    let parsed = CurrencyValue::parse("($500.00)").expect("parse parenthesized currency");
    assert_eq!(parsed.to_string_fixed(), "-500.00");
    let raw = parse_currency_decimal("($1,234.56)").expect("negative currency");
    assert_eq!(raw, DecimalValue { mantissa: -123456, scale: 2, negative: true });
}

#[test]
fn data_parse_currency_rejects_embedded_letters() {
    let err = parse_currency_decimal("12a.34").expect_err("embedded letters rejected");
    assert!(err.contains("contains unsupported character"));
}

fn decimal(raw: &str) -> DecimalValue {
    parse_decimal_literal(raw).expect("valid decimal literal")
}

#[test]
fn data_parse_currency_values_accepts_two_and_four_decimals() {
    let two = CurrencyValue::parse("$1,234.56").unwrap();
    let four = CurrencyValue::parse("123.4567").unwrap();
    assert_eq!(two.scale(), 2);
    assert_eq!(two.to_string_fixed(), "1234.56");
    assert_eq!(four.scale(), 4);
    assert_eq!(four.to_string_fixed(), "123.4567");
}

#[test]
fn data_parse_currency_rejects_invalid_precision() {
    assert_eq!(CurrencyValue::parse("1.234").unwrap_err(), "Parsing '1.234' as currency");
    assert!(CurrencyValue::parse("abc").is_err());
}

#[test]
fn currency_parse_rejects_embedded_letters_with_message() {
    let err = CurrencyValue::parse("12a.34").unwrap_err();
    assert!(err.contains("contains unsupported character"));
}

#[test]
fn data_currency_quantize_rounds_half_away_from_zero() {
    let value = CurrencyValue::quantize(decimal("10.005"), 2, None).expect("round currency");
    assert_eq!(value.to_string_fixed(), "10.01");
    let value = CurrencyValue::quantize(decimal("-10.005"), 2, Some("round")).expect("round currency");
    assert_eq!(value.to_string_fixed(), "-10.01");
}

#[test]
fn data_currency_quantize_truncates_values() {
    let value = CurrencyValue::quantize(decimal("7.899"), 2, Some("truncate")).expect("truncate currency");
    assert_eq!(value.to_string_fixed(), "7.89");
}

#[test]
fn data_currency_quantize_truncates_four_decimal_precision() {
    let value = CurrencyValue::quantize(decimal("1.234567"), 4, Some("truncate")).expect("truncate currency");
    assert_eq!(value.to_string_fixed(), "1.2345");
}

#[test]
fn data_currency_quantize_rejects_invalid_strategy() {
    assert_eq!(
        CurrencyValue::quantize(decimal("1.00"), 2, Some("ceil")).unwrap_err(),
        "Unsupported currency rounding strategy 'ceil'"
    );
}

#[test]
fn data_currency_quantize_rejects_invalid_scale() {
    assert_eq!(CurrencyValue::quantize(decimal("1.00"), 3, None).unwrap_err(), "Currency scale must be 2 or 4");
}

#[test]
fn data_currency_to_string_fixed_pads_fractional_zeros() {
    let value = CurrencyValue::parse("42").expect("parse integer currency");
    assert_eq!(value.to_string_fixed(), "42.00");
    assert_eq!(value.scale(), 2);
}

#[test]
fn currency_from_decimal_reports_found_scale() {
    assert_eq!(
        CurrencyValue::from_decimal(decimal("1.5")).unwrap_err(),
        "Currency values must have 2 or 4 decimal places (found 1)"
    );
    assert_eq!(CurrencyValue::from_decimal(decimal("1.2345")).unwrap().amount(), decimal("1.2345"));
}

#[test]
fn data_fixed_decimal_value_truncate_strategy_respects_scale() {
    let spec = DecimalSpec::new(8, 2).expect("valid decimal spec");
    let value = FixedDecimalValue::from_decimal(decimal("123.456"), &spec, Some("truncate")).expect("truncate decimal");
    assert_eq!(value.to_string_fixed(), "123.45");
    assert_eq!(value.scale(), 2);
}

#[test]
fn data_fixed_decimal_value_round_strategy_respects_scale() {
    let spec = DecimalSpec::new(10, 3).expect("valid decimal spec");
    let value = FixedDecimalValue::from_decimal(decimal("-87.6549"), &spec, Some("round")).expect("round decimal");
    assert_eq!(value.to_string_fixed(), "-87.655");
    assert_eq!(value.scale(), 3);
}

#[test]
fn data_fixed_decimal_value_rejects_precision_overflow() {
    let spec = DecimalSpec::new(6, 2).expect("valid decimal spec");
    let err = FixedDecimalValue::from_decimal(decimal("12345.67"), &spec, None).expect_err("precision overflow");
    assert!(err.contains("must not exceed"));
    assert_eq!(err, "Decimal values must not exceed 4 digit(s) to the left of the decimal point");
}

#[test]
fn data_fixed_decimal_value_rescales_short_fractional_parts() {
    let spec = DecimalSpec::new(12, 4).expect("valid decimal spec");
    let value = FixedDecimalValue::from_decimal(decimal("42"), &spec, None).expect("rescale decimal");
    assert_eq!(value.to_string_fixed(), "42.0000");
    assert_eq!(value.scale(), 4);
    assert_eq!(value.precision(), 12);
}

#[test]
fn fixed_decimal_value_rejects_excess_scale_and_unknown_strategy() {
    let spec = DecimalSpec::new(6, 2).expect("valid decimal spec");
    assert_eq!(
        FixedDecimalValue::from_decimal(decimal("1.234"), &spec, None).unwrap_err(),
        "Decimal values must not exceed scale 2 (found 3)"
    );
    assert_eq!(
        FixedDecimalValue::from_decimal(decimal("1.2"), &spec, Some("ceil")).unwrap_err(),
        "Unsupported decimal rounding strategy 'ceil'"
    );
    assert_eq!(FixedDecimalValue::from_decimal(decimal("0.5"), &spec, None).unwrap().to_string_fixed(), "0.50");
}

#[test]
fn data_parse_decimal_values_enforce_precision_and_scale() {
    let spec = DecimalSpec::new(10, 4).expect("valid decimal spec");
    let value = FixedDecimalValue::parse("123.4567", &spec).expect("parse decimal");
    assert_eq!(value.scale(), 4);
    assert_eq!(value.precision(), 10);
    assert_eq!(value.to_string_fixed(), "123.4567");

    let narrow = DecimalSpec::new(6, 2).expect("valid decimal spec");
    assert!(FixedDecimalValue::parse("123.456", &narrow).is_err());
    assert!(FixedDecimalValue::parse("1234567", &narrow).is_err());
}

#[test]
fn parse_literal_error_messages_name_the_value() {
    assert_eq!(parse_decimal_literal("").unwrap_err(), "Decimal value is empty");
    assert_eq!(parse_currency_decimal(" ").unwrap_err(), "Currency value is empty");
    assert_eq!(parse_decimal_literal("1.2.3").unwrap_err(), "Decimal value '1.2.3' contains multiple decimal points");
    assert_eq!(parse_decimal_literal("#42").unwrap_err(), "Decimal value '#42' contains unsupported character '#'");
    assert_eq!(parse_currency_decimal("$").unwrap_err(), "Currency value '$' does not contain digits");
}

#[test]
fn data_parse_typed_value_handles_empty_and_boolean_inputs() {
    assert!(parse_typed_value("", &ColumnType::Integer).unwrap().is_none());
    assert!(matches!(parse_typed_value("Yes", &ColumnType::Boolean).unwrap(), Some(TypedCell::Boolean(true))));
    assert!(matches!(parse_typed_value("0", &ColumnType::Boolean).unwrap(), Some(TypedCell::Boolean(false))));
    assert!(parse_typed_value("maybe", &ColumnType::Boolean).is_err());
}

#[test]
fn data_parse_typed_value_supports_guid_inputs() {
    let raw = "550e8400-e29b-41d4-a716-446655440000";
    match parse_typed_value(raw, &ColumnType::Guid).unwrap().unwrap() {
        TypedCell::Guid(g) => assert_eq!(g, 0x550e8400_e29b_41d4_a716_446655440000u128),
        other => panic!("Expected GUID value, got {other:?}"),
    }
    let braced = "{550e8400-e29b-41d4-a716-446655440000}";
    assert!(matches!(parse_typed_value(braced, &ColumnType::Guid).unwrap(), Some(TypedCell::Guid(_))));
    assert_eq!(
        parse_typed_value("not-a-guid", &ColumnType::Guid).unwrap_err(),
        "Failed to parse 'not-a-guid' as GUID"
    );
}

#[test]
fn parse_boolean_accepts_all_six_truthy_formats() {
    for input in ["true", "True", "t", "T", "yes", "Yes", "y", "Y", "1"] {
        let result = parse_typed_value(input, &ColumnType::Boolean).unwrap();
        assert!(matches!(result, Some(TypedCell::Boolean(true))), "input '{input}' should be true");
    }
}

#[test]
fn parse_boolean_accepts_all_six_falsy_formats() {
    for input in ["false", "False", "f", "F", "no", "No", "n", "N", "0"] {
        let result = parse_typed_value(input, &ColumnType::Boolean).unwrap();
        assert!(matches!(result, Some(TypedCell::Boolean(false))), "input '{input}' should be false");
    }
}

#[test]
fn parse_typed_value_reads_each_type() {
    assert!(matches!(parse_typed_value("-42", &ColumnType::Integer).unwrap(), Some(TypedCell::Integer(-42))));
    assert_eq!(parse_typed_value("4x", &ColumnType::Integer).unwrap_err(), "Failed to parse '4x' as integer");
    match parse_typed_value("1.5e3", &ColumnType::Float).unwrap().unwrap() {
        TypedCell::Float(text) => assert_eq!(text.parse::<f64>().unwrap(), 1500.0),
        other => panic!("expected float, got {other:?}"),
    }
    assert_eq!(parse_typed_value("abc", &ColumnType::Float).unwrap_err(), "Failed to parse 'abc' as float");
    assert!(matches!(
        parse_typed_value("2024-05-06", &ColumnType::Date).unwrap(),
        Some(TypedCell::Date(CivilDate { year: 2024, month: 5, day: 6 }))
    ));
    assert_eq!(parse_typed_value("nope", &ColumnType::Time).unwrap_err(), "Failed to parse 'nope' as time");
    assert!(matches!(parse_typed_value(" text ", &ColumnType::String).unwrap(), Some(TypedCell::String(s)) if s == " text "));
    match parse_typed_value("$1,234.56", &ColumnType::Currency).unwrap().unwrap() {
        TypedCell::Currency(c) => assert_eq!(c.to_string_fixed(), "1234.56"),
        other => panic!("expected currency, got {other:?}"),
    }
    let decimal_type = ColumnType::Decimal(DecimalSpec::new(10, 4).unwrap());
    match parse_typed_value("123.4567", &decimal_type).unwrap().unwrap() {
        TypedCell::Decimal(d) => {
            assert_eq!(d.scale(), 4);
            assert_eq!(d.precision(), 10);
            assert_eq!(d.to_string_fixed(), "123.4567");
        }
        other => panic!("expected decimal, got {other:?}"),
    }
}
