//! The option readings of datatype mappings: the strategy, the scales used
//! for floats and currency, and the explicit formats used for calendar
//! values.
use vstd::prelude::*;

use crate::data::{
    chrono_date, chrono_datetime, chrono_time, currency_scale_allowed, date_formats,
    date_with_format, datetime_formats, datetime_with_format, first_date, first_datetime,
    first_time, parse_naive_date, parse_naive_datetime, parse_naive_time, time_formats,
    time_with_format, CivilDate, CivilDateTime, CivilTime, DecimalValue,
};
use crate::schema::{find_option, option_lookup, type_description, ColumnType, DatatypeMapping, OptionValue};
use crate::text::{ascii_lower, cat3, cat5, chars_of, lower_seq, string_of, trim, trim_chars};

verus! {

/// A mapping's strategy trimmed and lowercased, when anything is left.
pub open spec fn strategy_of(m: DatatypeMapping) -> Option<Seq<char>> {
    match m.strategy {
        None => None,
        Some(s) => if trim(s@).len() == 0 {
            None
        } else {
            Some(lower_seq(trim(s@)))
        },
    }
}

pub fn normalized_strategy(mapping: &DatatypeMapping) -> (r: Option<String>)
    ensures
        match strategy_of(*mapping) {
            Some(s) => r matches Some(x) && x@ == s,
            None => r is None,
        },
{
    match &mapping.strategy {
        None => None,
        Some(s) => {
            let t = trim_chars(chars_of(s.as_str()).as_slice());
            if t.len() == 0 {
                None
            } else {
                let l = ascii_lower(t.as_slice());
                Some(string_of(l.as_slice()))
            }
        },
    }
}

/// Whether a float is rounded: under an explicit `round` strategy, or with
/// no strategy on a float-to-float mapping.
pub open spec fn rounds_float(m: DatatypeMapping, strategy: Option<Seq<char>>) -> bool {
    match strategy {
        Some(s) => s == "round"@,
        None => m.from == ColumnType::Float && m.to == ColumnType::Float,
    }
}

pub fn should_round_float(mapping: &DatatypeMapping, strategy: Option<&str>) -> (r: bool)
    ensures
        r == rounds_float(*mapping, crate::data::opt_text(strategy)),
{
    proof {
        reveal_strlit("round");
    }
    match strategy {
        Some(s) => crate::text::str_eq(s, "round"),
        None => mapping.from == ColumnType::Float && mapping.to == ColumnType::Float,
    }
}

/// The digits a float keeps: the `scale` option (a negative one counts as
/// zero), else four.
pub open spec fn scale_option(m: DatatypeMapping) -> usize {
    match option_lookup(m.options@, "scale"@) {
        Some(OptionValue::Unsigned(u)) => u as usize,
        Some(OptionValue::Signed(i)) => if i >= 0 {
            i as usize
        } else {
            0
        },
        _ => 4,
    }
}

pub fn resolve_scale(mapping: &DatatypeMapping) -> (r: usize)
    ensures
        r == scale_option(*mapping),
{
    match find_option(mapping.options.as_slice(), "scale") {
        Some(OptionValue::Unsigned(u)) => *u as usize,
        Some(OptionValue::Signed(i)) => if *i >= 0 {
            *i as usize
        } else {
            0
        },
        _ => 4,
    }
}

/// The currency scale a mapping asks for, checked: none without a `scale`
/// option, else its value, which must be a non-negative number whose low
/// 32 bits are 2 or 4.
pub open spec fn currency_scale_option(m: DatatypeMapping) -> Result<Option<u32>, Seq<char>> {
    match option_lookup(m.options@, "scale"@) {
        None => Ok(None),
        Some(v) => {
            let numeric: Result<u64, Seq<char>> = match v {
                OptionValue::Unsigned(u) => Ok(u),
                OptionValue::Signed(i) => if i >= 0 {
                    Ok(i as u64)
                } else {
                    Err("Currency scale must be non-negative"@)
                },
                _ => Err("Currency scale must be numeric"@),
            };
            match numeric {
                Err(e) => Err(e),
                Ok(n) => if n <= u32::MAX && currency_scale_allowed(n as u32) {
                    Ok(Some(n as u32))
                } else {
                    Err("Currency scale must be 2 or 4"@)
                },
            }
        },
    }
}

pub fn explicit_currency_scale(mapping: &DatatypeMapping) -> (r: Result<Option<u32>, String>)
    ensures
        match currency_scale_option(*mapping) {
            Ok(s) => r == Ok::<Option<u32>, String>(s),
            Err(e) => r matches Err(x) && x@ == e,
        },
{
    match find_option(mapping.options.as_slice(), "scale") {
        None => Ok(None),
        Some(v) => {
            let numeric: u64 = match v {
                OptionValue::Unsigned(u) => *u,
                OptionValue::Signed(i) => {
                    if *i >= 0 {
                        *i as u64
                    } else {
                        return Err("Currency scale must be non-negative".to_string());
                    }
                },
                _ => {
                    return Err("Currency scale must be numeric".to_string());
                },
            };
            if numeric > u32::MAX as u64 {
                return Err("Currency scale must be 2 or 4".to_string());
            }
            let scale = numeric as u32;
            if crate::data::is_currency_scale(scale) {
                Ok(Some(scale))
            } else {
                Err("Currency scale must be 2 or 4".to_string())
            }
        },
    }
}

/// The scale a currency amount is brought to when the mapping names none:
/// two for a whole amount, its own when two or four, four when finer,
/// else two.
pub open spec fn default_scale_of(d: DecimalValue) -> u32 {
    if d.scale == 0 {
        2
    } else if currency_scale_allowed(d.scale) {
        d.scale
    } else if d.scale > 4 {
        4
    } else {
        2
    }
}

pub fn default_currency_scale(decimal: DecimalValue) -> (r: u32)
    ensures
        r == default_scale_of(decimal),
{
    let scale = decimal.scale;
    if scale == 0 {
        2
    } else if crate::data::is_currency_scale(scale) {
        scale
    } else if scale > 4 {
        4
    } else {
        2
    }
}

/// The `format` option, when it is text.
pub open spec fn format_option(m: DatatypeMapping) -> Option<Seq<char>> {
    match option_lookup(m.options@, "format"@) {
        Some(OptionValue::Text(f)) => Some(f@),
        _ => None,
    }
}

fn format_text(mapping: &DatatypeMapping) -> (r: Option<&str>)
    ensures
        match format_option(*mapping) {
            Some(f) => r matches Some(x) && x@ == f,
            None => r is None,
        },
{
    match find_option(mapping.options.as_slice(), "format") {
        Some(OptionValue::Text(f)) => Some(f.as_str()),
        _ => None,
    }
}

/// The message for a value that the explicit format rejects.
pub open spec fn format_failure(value: Seq<char>, fmt: Seq<char>) -> Seq<char> {
    "Parsing '"@ + value + "' with format '"@ + fmt + "'"@
}

fn format_failure_message(value: &[char], fmt: &str) -> (r: String)
    ensures
        r@ == format_failure(value@, fmt@),
{
    let mut m = chars_of("Parsing '");
    crate::text::extend_chars(&mut m, value);
    crate::text::extend_chars(&mut m, chars_of("' with format '").as_slice());
    crate::text::extend_chars(&mut m, chars_of(fmt).as_slice());
    proof {
        reveal_strlit("");
    }
    cat3("", m.as_slice(), "'")
}

/// A date read from the trimmed value: with the mapping's format when it
/// has one, else in the usual formats.
pub open spec fn mapped_date(value: Seq<char>, m: DatatypeMapping) -> Result<CivilDate, Seq<char>> {
    let t = trim(value);
    match format_option(m) {
        Some(f) => match chrono_date(t, f) {
            Some(d) => Ok(d),
            None => Err(format_failure(t, f)),
        },
        None => match first_date(t, date_formats()) {
            Some(d) => Ok(d),
            None => Err("Failed to parse '"@ + t + "' as date"@),
        },
    }
}

pub open spec fn mapped_datetime(value: Seq<char>, m: DatatypeMapping) -> Result<CivilDateTime, Seq<char>> {
    let t = trim(value);
    match format_option(m) {
        Some(f) => match chrono_datetime(t, f) {
            Some(d) => Ok(d),
            None => Err(format_failure(t, f)),
        },
        None => match first_datetime(t, datetime_formats()) {
            Some(d) => Ok(d),
            None => Err("Failed to parse '"@ + t + "' as datetime"@),
        },
    }
}

pub open spec fn mapped_time(value: Seq<char>, m: DatatypeMapping) -> Result<CivilTime, Seq<char>> {
    let t = trim(value);
    match format_option(m) {
        Some(f) => match chrono_time(t, f) {
            Some(d) => Ok(d),
            None => Err(format_failure(t, f)),
        },
        None => match first_time(t, time_formats()) {
            Some(d) => Ok(d),
            None => Err("Failed to parse '"@ + t + "' as time"@),
        },
    }
}

pub fn parse_string_to_date(value: &str, mapping: &DatatypeMapping) -> (r: Result<CivilDate, String>)
    ensures
        match mapped_date(value@, *mapping) {
            Ok(d) => r == Ok::<CivilDate, String>(d),
            Err(e) => r matches Err(x) && x@ == e,
        },
{
    let t = trim_chars(chars_of(value).as_slice());
    let ts = string_of(t.as_slice());
    match format_text(mapping) {
        Some(f) => match date_with_format(ts.as_str(), f) {
            Some(d) => Ok(d),
            None => Err(format_failure_message(t.as_slice(), f)),
        },
        None => parse_naive_date(ts.as_str()),
    }
}

pub fn parse_string_to_datetime(value: &str, mapping: &DatatypeMapping) -> (r: Result<CivilDateTime, String>)
    ensures
        match mapped_datetime(value@, *mapping) {
            Ok(d) => r == Ok::<CivilDateTime, String>(d),
            Err(e) => r matches Err(x) && x@ == e,
        },
{
    let t = trim_chars(chars_of(value).as_slice());
    let ts = string_of(t.as_slice());
    match format_text(mapping) {
        Some(f) => match datetime_with_format(ts.as_str(), f) {
            Some(d) => Ok(d),
            None => Err(format_failure_message(t.as_slice(), f)),
        },
        None => parse_naive_datetime(ts.as_str()),
    }
}

pub fn parse_string_to_time(value: &str, mapping: &DatatypeMapping) -> (r: Result<CivilTime, String>)
    ensures
        match mapped_time(value@, *mapping) {
            Ok(d) => r == Ok::<CivilTime, String>(d),
            Err(e) => r matches Err(x) && x@ == e,
        },
{
    let t = trim_chars(chars_of(value).as_slice());
    let ts = string_of(t.as_slice());
    match format_text(mapping) {
        Some(f) => match time_with_format(ts.as_str(), f) {
            Some(d) => Ok(d),
            None => Err(format_failure_message(t.as_slice(), f)),
        },
        None => parse_naive_time(ts.as_str()),
    }
}

// ---------------------------------------------------------------------------
// String to string mappings
// ---------------------------------------------------------------------------

/// A string mapped to a string: trimmed, lowercased or uppercased (ASCII)
/// by the strategy; any other strategy is refused.
pub open spec fn string_strategy_result(value: Seq<char>, strategy: Option<Seq<char>>) -> Result<
    Seq<char>,
    Seq<char>,
> {
    match strategy {
        None => Ok(value),
        Some(s) => if s == "trim"@ {
            Ok(trim(value))
        } else if s == "lowercase"@ {
            Ok(lower_seq(value))
        } else if s == "uppercase"@ {
            Ok(crate::text::upper_seq(value))
        } else {
            Err("Strategy '"@ + s + "' is not valid for string -> string mappings"@)
        },
    }
}

pub fn apply_string_strategy(value: &str, strategy: Option<&str>) -> (r: Result<String, String>)
    ensures
        match string_strategy_result(
            value@,
            match strategy {
                Some(s) => Some(s@),
                None => None,
            },
        ) {
            Ok(v) => r matches Ok(x) && x@ == v,
            Err(e) => r matches Err(x) && x@ == e,
        },
{
    match strategy {
        None => Ok(value.to_string()),
        Some(s) => {
            if crate::text::str_eq(s, "trim") {
                Ok(string_of(trim_chars(chars_of(value).as_slice()).as_slice()))
            } else if crate::text::str_eq(s, "lowercase") {
                Ok(string_of(ascii_lower(chars_of(value).as_slice()).as_slice()))
            } else if crate::text::str_eq(s, "uppercase") {
                Ok(string_of(crate::text::ascii_upper(chars_of(value).as_slice()).as_slice()))
            } else {
                Err(cat3("Strategy '", chars_of(s).as_slice(), "' is not valid for string -> string mappings"))
            }
        },
    }
}

/// Whether a mapping to `to` can take a value of type `from`: every type can
/// be written as text, the numeric types convert among themselves and from
/// text, dates and times can also be taken from a date-time, and the other
/// types only from text.
pub open spec fn mapping_pair_ok(to: ColumnType, from: ColumnType) -> bool {
    match to {
        ColumnType::String => true,
        ColumnType::Integer | ColumnType::Float | ColumnType::Currency | ColumnType::Decimal(_) => {
            from is String || from is Integer || from is Float || from is Currency || from is Decimal
        },
        ColumnType::Date | ColumnType::Time => from is String || from is DateTime,
        ColumnType::Boolean | ColumnType::DateTime | ColumnType::Guid => from is String,
    }
}

/// Decides whether a mapping to `to` accepts a value of type `from`.
pub fn mapping_pair_supported(to: &ColumnType, from: &ColumnType) -> (r: bool)
    ensures
        r == mapping_pair_ok(*to, *from),
{
    let numeric_from = match from {
        ColumnType::String | ColumnType::Integer | ColumnType::Float | ColumnType::Currency
        | ColumnType::Decimal(_) => true,
        _ => false,
    };
    match to {
        ColumnType::String => true,
        ColumnType::Integer | ColumnType::Float | ColumnType::Currency | ColumnType::Decimal(_) => numeric_from,
        ColumnType::Date | ColumnType::Time => match from {
            ColumnType::String | ColumnType::DateTime => true,
            _ => false,
        },
        ColumnType::Boolean | ColumnType::DateTime | ColumnType::Guid => match from {
            ColumnType::String => true,
            _ => false,
        },
    }
}

/// The message for a mapping whose pair of types is not supported.
pub open spec fn unsupported_mapping_text(m: DatatypeMapping) -> Seq<char> {
    "Datatype mapping '"@ + type_description(m.from) + "' -> '"@ + type_description(m.to)
        + "' is not supported"@
}

/// Writes the message for a mapping whose pair of types is not supported.
pub fn unsupported_mapping_message(mapping: &DatatypeMapping) -> (r: String)
    ensures
        r@ == unsupported_mapping_text(*mapping),
{
    let from = chars_of(&mapping.from.describe());
    let to = chars_of(&mapping.to.describe());
    cat5("Datatype mapping '", from.as_slice(), "' -> '", to.as_slice(), "' is not supported")
}

} // verus!
