use csv_managed::data::{parse_decimal_literal, CivilDate};
use csv_managed::mapping::{
    apply_string_strategy, default_currency_scale, explicit_currency_scale, mapping_pair_supported, normalized_strategy, parse_string_to_date,
    parse_string_to_datetime, parse_string_to_time, resolve_scale, should_round_float, unsupported_mapping_message,
};
use csv_managed::schema::{ColumnType, DatatypeMapping, DecimalSpec, OptionValue};

fn mapping(from: ColumnType, to: ColumnType, strategy: Option<&str>, options: Vec<(&str, OptionValue)>) -> DatatypeMapping {
    DatatypeMapping {
        from,
        to,
        strategy: strategy.map(|s| s.to_string()),
        options: options.into_iter().map(|(k, v)| (k.to_string(), v)).collect(),
    }
}

#[test]
fn strategy_is_trimmed_and_lowercased() {
    let m = mapping(ColumnType::String, ColumnType::String, Some("  Trim "), vec![]);
    assert_eq!(normalized_strategy(&m).as_deref(), Some("trim"));
    let blank = mapping(ColumnType::String, ColumnType::String, Some("   "), vec![]);
    assert_eq!(normalized_strategy(&blank), None);
}

#[test]
fn float_rounding_follows_strategy_or_float_to_float() {
    let ff = mapping(ColumnType::Float, ColumnType::Float, None, vec![]);
    assert!(should_round_float(&ff, None));
    assert!(!should_round_float(&ff, Some("truncate")));
    let sf = mapping(ColumnType::String, ColumnType::Float, None, vec![]);
    assert!(!should_round_float(&sf, None));
    assert!(should_round_float(&sf, Some("round")));
}

#[test]
fn scale_option_defaults_to_four() {
    assert_eq!(resolve_scale(&mapping(ColumnType::Float, ColumnType::Float, None, vec![])), 4);
    assert_eq!(resolve_scale(&mapping(ColumnType::Float, ColumnType::Float, None, vec![("scale", OptionValue::Unsigned(2))])), 2);
    assert_eq!(resolve_scale(&mapping(ColumnType::Float, ColumnType::Float, None, vec![("scale", OptionValue::Signed(-3))])), 0);
}

#[test]
fn currency_scale_option_is_checked() {
    let none = mapping(ColumnType::String, ColumnType::Currency, None, vec![]);
    assert_eq!(explicit_currency_scale(&none), Ok(None));
    let four = mapping(ColumnType::String, ColumnType::Currency, None, vec![("scale", OptionValue::Unsigned(4))]);
    assert_eq!(explicit_currency_scale(&four), Ok(Some(4)));
    let three = mapping(ColumnType::String, ColumnType::Currency, None, vec![("scale", OptionValue::Unsigned(3))]);
    assert_eq!(explicit_currency_scale(&three).unwrap_err(), "Currency scale must be 2 or 4");
    let neg = mapping(ColumnType::String, ColumnType::Currency, None, vec![("scale", OptionValue::Signed(-2))]);
    assert_eq!(explicit_currency_scale(&neg).unwrap_err(), "Currency scale must be non-negative");
    let text = mapping(ColumnType::String, ColumnType::Currency, None, vec![("scale", OptionValue::Text("2".to_string()))]);
    assert_eq!(explicit_currency_scale(&text).unwrap_err(), "Currency scale must be numeric");
}

#[test]
fn default_currency_scale_follows_amount() {
    assert_eq!(default_currency_scale(parse_decimal_literal("12").unwrap()), 2);
    assert_eq!(default_currency_scale(parse_decimal_literal("1.2345").unwrap()), 4);
    assert_eq!(default_currency_scale(parse_decimal_literal("1.23456").unwrap()), 4);
    assert_eq!(default_currency_scale(parse_decimal_literal("1.5").unwrap()), 2);
    assert_eq!(default_currency_scale(parse_decimal_literal("1.123").unwrap()), 2);
}

#[test]
fn calendar_values_use_explicit_format_when_given() {
    let plain = mapping(ColumnType::String, ColumnType::Date, None, vec![]);
    assert_eq!(parse_string_to_date(" 2024-05-06 ", &plain).unwrap(), CivilDate { year: 2024, month: 5, day: 6 });
    let fmt = mapping(ColumnType::String, ColumnType::Date, None, vec![("format", OptionValue::Text("%d.%m.%Y".to_string()))]);
    assert_eq!(parse_string_to_date("06.05.2024", &fmt).unwrap(), CivilDate { year: 2024, month: 5, day: 6 });
    assert_eq!(
        parse_string_to_date("2024-05-06", &fmt).unwrap_err(),
        "Parsing '2024-05-06' with format '%d.%m.%Y'"
    );
    let dt = mapping(ColumnType::String, ColumnType::DateTime, None, vec![]);
    assert!(parse_string_to_datetime("2024-05-06 10:00", &dt).is_ok());
    let t = mapping(ColumnType::String, ColumnType::Time, None, vec![("format", OptionValue::Text("%H.%M".to_string()))]);
    assert_eq!(parse_string_to_time("10.30", &t).unwrap().minute, 30);
}

#[test]
fn string_strategies_trim_and_change_case() {
    assert_eq!(apply_string_strategy("  Ab c ", None), Ok("  Ab c ".to_string()));
    assert_eq!(apply_string_strategy("  Ab c ", Some("trim")), Ok("Ab c".to_string()));
    assert_eq!(apply_string_strategy("Ab-Ç", Some("lowercase")), Ok("ab-Ç".to_string()));
    assert_eq!(apply_string_strategy("Ab-ç", Some("uppercase")), Ok("AB-ç".to_string()));
    assert_eq!(
        apply_string_strategy("x", Some("round")),
        Err("Strategy 'round' is not valid for string -> string mappings".to_string())
    );
}

#[test]
fn currency_scale_is_taken_as_given() {
    let m = mapping(
        ColumnType::String,
        ColumnType::Currency,
        None,
        vec![("scale", OptionValue::Unsigned(4_294_967_298))],
    );
    assert_eq!(explicit_currency_scale(&m), Err("Currency scale must be 2 or 4".to_string()));
    let m = mapping(ColumnType::String, ColumnType::Currency, None, vec![("scale", OptionValue::Unsigned(4))]);
    assert_eq!(explicit_currency_scale(&m), Ok(Some(4)));
}

#[test]
fn mapping_pairs_follow_the_target_type() {
    let dec = ColumnType::Decimal(DecimalSpec { precision: 10, scale: 2 });
    assert!(mapping_pair_supported(&ColumnType::String, &ColumnType::Guid));
    assert!(mapping_pair_supported(&ColumnType::Integer, &ColumnType::Currency));
    assert!(mapping_pair_supported(&dec, &ColumnType::Float));
    assert!(mapping_pair_supported(&ColumnType::Date, &ColumnType::DateTime));
    assert!(mapping_pair_supported(&ColumnType::Time, &ColumnType::DateTime));
    assert!(mapping_pair_supported(&ColumnType::Guid, &ColumnType::String));
    assert!(!mapping_pair_supported(&ColumnType::Integer, &ColumnType::Boolean));
    assert!(!mapping_pair_supported(&ColumnType::DateTime, &ColumnType::Date));
    assert!(!mapping_pair_supported(&ColumnType::Boolean, &ColumnType::Integer));
    assert!(!mapping_pair_supported(&ColumnType::Date, &ColumnType::Time));
}

#[test]
fn unsupported_mapping_names_both_types() {
    let m = mapping(ColumnType::Boolean, ColumnType::Date, None, vec![]);
    assert_eq!(unsupported_mapping_message(&m), "Datatype mapping 'boolean' -> 'date' is not supported");
    let d = mapping(ColumnType::Integer, ColumnType::Decimal(DecimalSpec { precision: 8, scale: 3 }), None, vec![]);
    assert_eq!(
        unsupported_mapping_message(&d),
        "Datatype mapping 'integer' -> 'decimal(precision=8,scale=3)' is not supported"
    );
}
