//! Cell-level parsing: column name normalization, calendar values, GUIDs,
//! decimal and currency literals, integers and float syntax.
use vstd::prelude::*;

use chrono::{Datelike, Timelike};
use std::str::FromStr;

use crate::text::{
    ascii_lower, cat3, char_is_alnum, char_is_alpha, char_is_digit, chars_eq, chars_of,
    clone_chars, digits_value, is_alnum, is_alpha, is_digit, lower_seq, all_digits,
    parse_unsigned, parses_unsigned, unsigned_value, string_of, trim, trim_chars, str_eq_chars,
};

verus! {

/// Scales (digits after the decimal point) a currency value may have.
pub open spec fn currency_scale_allowed(scale: u32) -> bool {
    scale == 2 || scale == 4
}

pub fn is_currency_scale(scale: u32) -> (r: bool)
    ensures
        r == currency_scale_allowed(scale),
{
    scale == 2 || scale == 4
}

// ---------------------------------------------------------------------------
// Column names
// ---------------------------------------------------------------------------

pub open spec fn name_char(c: char) -> char {
    if is_alnum(c) {
        c
    } else {
        '_'
    }
}

/// A column name made into an identifier: ASCII letters and digits kept,
/// everything else `_`, `column` when empty, `_` in front when it would start
/// with a digit, and lowercased.
pub open spec fn normalized_name(name: Seq<char>) -> Seq<char> {
    let m = name.map_values(|c: char| name_char(c));
    let m2 = if m.len() == 0 {
        "column"@
    } else {
        m
    };
    let m3 = if !(is_alpha(m2[0]) || m2[0] == '_') {
        seq!['_'] + m2
    } else {
        m2
    };
    lower_seq(m3)
}

pub fn normalize_column_name(name: &str) -> (r: String)
    ensures
        r@ == normalized_name(name@),
{
    let src = chars_of(name);
    let mut m: Vec<char> = Vec::new();
    for i in 0..src.len()
        invariant
            m@ == src@.take(i as int).map_values(|c: char| name_char(c)),
    {
        let c = src[i];
        if char_is_alnum(c) {
            m.push(c);
        } else {
            m.push('_');
        }
        assert(src@.take(i + 1).map_values(|c: char| name_char(c)) =~= src@.take(i as int).map_values(
            |c: char| name_char(c),
        ).push(name_char(c)));
    }
    assert(src@.take(src@.len() as int) =~= src@);
    if m.len() == 0 {
        m = chars_of("column");
        assert(m@.len() == 6) by {
            reveal_strlit("column");
        }
    }
    assert(m@.len() > 0);
    let mut m3: Vec<char> = Vec::new();
    if !(char_is_alpha(m[0]) || m[0] == '_') {
        m3.push('_');
    }
    for i in 0..m.len()
        invariant
            m@.len() > 0,
            m3@ == (if !(is_alpha(m@[0]) || m@[0] == '_') {
                seq!['_'] + m@.take(i as int)
            } else {
                m@.take(i as int)
            }),
    {
        m3.push(m[i]);
        proof {
            if !(is_alpha(m@[0]) || m@[0] == '_') {
                assert(seq!['_'] + m@.take(i + 1) =~= (seq!['_'] + m@.take(i as int)).push(m@[i as int]));
            } else {
                assert(m@.take(i + 1) =~= m@.take(i as int).push(m@[i as int]));
            }
        }
    }
    assert(m@.take(m@.len() as int) =~= m@);
    let lowered = ascii_lower(m3.as_slice());
    string_of(lowered.as_slice())
}

/// A normalized name is made of lowercase ASCII letters, digits and `_`,
/// and does not start with a digit.
pub open spec fn is_identifier(s: Seq<char>) -> bool {
    &&& s.len() > 0
    &&& forall|i: int|
        0 <= i < s.len() ==> (crate::text::is_lower(#[trigger] s[i]) || is_digit(s[i]) || s[i] == '_')
    &&& !is_digit(s[0])
}

proof fn lemma_lower_char_facts(c: char)
    ensures
        is_alnum(c) ==> is_alnum(crate::text::lower_char(c)),
        is_alpha(c) ==> crate::text::is_lower(crate::text::lower_char(c)),
        is_digit(c) ==> crate::text::lower_char(c) == c,
        c == '_' ==> crate::text::lower_char(c) == '_',
        !crate::text::is_upper(c) ==> crate::text::lower_char(c) == c,
{
}

/// Normalizing yields an identifier: lowercase letters, digits and `_`,
/// not starting with a digit.
pub proof fn law_normalized_name_is_identifier(name: Seq<char>)
    ensures
        is_identifier(normalized_name(name)),
{
    reveal_strlit("column");
    let m = name.map_values(|c: char| name_char(c));
    let m2 = if m.len() == 0 {
        "column"@
    } else {
        m
    };
    let m3 = if !(is_alpha(m2[0]) || m2[0] == '_') {
        seq!['_'] + m2
    } else {
        m2
    };
    assert forall|i: int| 0 <= i < m2.len() implies is_alnum(#[trigger] m2[i]) || m2[i] == '_' by {
        if m.len() > 0 {
            assert(m[i] == name_char(name[i]));
        }
    }
    assert forall|i: int| 0 <= i < m3.len() implies is_alnum(#[trigger] m3[i]) || m3[i] == '_' by {
        if m3.len() > m2.len() && i > 0 {
            assert(m3[i] == m2[i - 1]);
        }
    }
    let r = lower_seq(m3);
    assert forall|i: int| 0 <= i < r.len() implies (crate::text::is_lower(#[trigger] r[i])
        || is_digit(r[i]) || r[i] == '_') by {
        lemma_lower_char_facts(m3[i]);
    }
    lemma_lower_char_facts(m3[0]);
    assert(is_alpha(m3[0]) || m3[0] == '_');
}

/// Normalizing a normalized name changes nothing.
pub proof fn law_normalize_idempotent(name: Seq<char>)
    ensures
        normalized_name(normalized_name(name)) == normalized_name(name),
{
    let n = normalized_name(name);
    law_normalized_name_is_identifier(name);
    let m = n.map_values(|c: char| name_char(c));
    assert(m =~= n) by {
        assert forall|i: int| 0 <= i < n.len() implies m[i] == n[i] by {
            assert(crate::text::is_lower(n[i]) || is_digit(n[i]) || n[i] == '_');
        }
    }
    assert(is_alpha(n[0]) || n[0] == '_') by {
        assert(crate::text::is_lower(n[0]) || is_digit(n[0]) || n[0] == '_');
    }
    assert(lower_seq(n) =~= n) by {
        assert forall|i: int| 0 <= i < n.len() implies lower_seq(n)[i] == n[i] by {
            assert(crate::text::is_lower(n[i]) || is_digit(n[i]) || n[i] == '_');
        }
    }
}

// ---------------------------------------------------------------------------
// Calendar values
// ---------------------------------------------------------------------------

/// A calendar date.
#[derive(Debug, Clone, Copy, PartialEq, Eq, Structural)]
pub struct CivilDate {
    pub year: i32,
    pub month: u32,
    pub day: u32,
}

/// A time of day.
#[derive(Debug, Clone, Copy, PartialEq, Eq, Structural)]
pub struct CivilTime {
    pub hour: u32,
    pub minute: u32,
    pub second: u32,
    pub nanosecond: u32,
}

/// A date and a time of day.
#[derive(Debug, Clone, Copy, PartialEq, Eq, Structural)]
pub struct CivilDateTime {
    pub date: CivilDate,
    pub time: CivilTime,
}

/// What `chrono::NaiveDate::parse_from_str(value, fmt)` yields.
pub uninterp spec fn chrono_date(value: Seq<char>, fmt: Seq<char>) -> Option<CivilDate>;

/// What `chrono::NaiveDateTime::parse_from_str(value, fmt)` yields.
pub uninterp spec fn chrono_datetime(value: Seq<char>, fmt: Seq<char>) -> Option<CivilDateTime>;

/// What `chrono::NaiveTime::parse_from_str(value, fmt)` yields.
pub uninterp spec fn chrono_time(value: Seq<char>, fmt: Seq<char>) -> Option<CivilTime>;

/// Calls `chrono::NaiveDate::parse_from_str`; the result is named
/// `chrono_date` of the arguments (a function of them alone).
#[verifier::external_body]
pub(crate) fn date_with_format(value: &str, fmt: &str) -> (r: Option<CivilDate>)
    ensures
        r == chrono_date(value@, fmt@),
{
    match chrono::NaiveDate::parse_from_str(value, fmt) {
        Ok(d) => Some(CivilDate { year: d.year(), month: d.month(), day: d.day() }),
        Err(_) => None,
    }
}

/// Calls `chrono::NaiveDateTime::parse_from_str`; the result is named
/// `chrono_datetime` of the arguments.
#[verifier::external_body]
pub(crate) fn datetime_with_format(value: &str, fmt: &str) -> (r: Option<CivilDateTime>)
    ensures
        r == chrono_datetime(value@, fmt@),
{
    match chrono::NaiveDateTime::parse_from_str(value, fmt) {
        Ok(dt) => Some(
            CivilDateTime {
                date: CivilDate { year: dt.year(), month: dt.month(), day: dt.day() },
                time: CivilTime {
                    hour: dt.hour(),
                    minute: dt.minute(),
                    second: dt.second(),
                    nanosecond: dt.nanosecond(),
                },
            },
        ),
        Err(_) => None,
    }
}

/// Calls `chrono::NaiveTime::parse_from_str`; the result is named
/// `chrono_time` of the arguments.
#[verifier::external_body]
pub(crate) fn time_with_format(value: &str, fmt: &str) -> (r: Option<CivilTime>)
    ensures
        r == chrono_time(value@, fmt@),
{
    match chrono::NaiveTime::parse_from_str(value, fmt) {
        Ok(t) => Some(
            CivilTime {
                hour: t.hour(),
                minute: t.minute(),
                second: t.second(),
                nanosecond: t.nanosecond(),
            },
        ),
        Err(_) => None,
    }
}

/// Date formats tried in order.
pub open spec fn date_formats() -> Seq<Seq<char>> {
    seq!["%Y-%m-%d"@, "%d/%m/%Y"@, "%m/%d/%Y"@, "%Y/%m/%d"@, "%d-%m-%Y"@]
}

/// Date-time formats tried in order.
pub open spec fn datetime_formats() -> Seq<Seq<char>> {
    seq![
        "%Y-%m-%d %H:%M:%S"@,
        "%Y-%m-%dT%H:%M:%S"@,
        "%d/%m/%Y %H:%M:%S"@,
        "%m/%d/%Y %H:%M:%S"@,
        "%Y-%m-%d %H:%M"@,
        "%Y-%m-%dT%H:%M"@,
    ]
}

/// Time formats tried in order.
pub open spec fn time_formats() -> Seq<Seq<char>> {
    seq!["%H:%M:%S"@, "%H:%M"@]
}

/// The date of the first format that accepts `value`.
pub open spec fn first_date(value: Seq<char>, fmts: Seq<Seq<char>>) -> Option<CivilDate>
    decreases fmts.len(),
{
    if fmts.len() == 0 {
        None
    } else {
        match chrono_date(value, fmts[0]) {
            Some(d) => Some(d),
            None => first_date(value, fmts.drop_first()),
        }
    }
}

pub open spec fn first_datetime(value: Seq<char>, fmts: Seq<Seq<char>>) -> Option<CivilDateTime>
    decreases fmts.len(),
{
    if fmts.len() == 0 {
        None
    } else {
        match chrono_datetime(value, fmts[0]) {
            Some(d) => Some(d),
            None => first_datetime(value, fmts.drop_first()),
        }
    }
}

pub open spec fn first_time(value: Seq<char>, fmts: Seq<Seq<char>>) -> Option<CivilTime>
    decreases fmts.len(),
{
    if fmts.len() == 0 {
        None
    } else {
        match chrono_time(value, fmts[0]) {
            Some(d) => Some(d),
            None => first_time(value, fmts.drop_first()),
        }
    }
}

fn date_format_list() -> (r: Vec<&'static str>)
    ensures
        r@.map_values(|s: &'static str| s@) == date_formats(),
{
    let r = vec!["%Y-%m-%d", "%d/%m/%Y", "%m/%d/%Y", "%Y/%m/%d", "%d-%m-%Y"];
    assert(r@.map_values(|s: &'static str| s@) =~= date_formats());
    r
}

fn datetime_format_list() -> (r: Vec<&'static str>)
    ensures
        r@.map_values(|s: &'static str| s@) == datetime_formats(),
{
    let r = vec![
        "%Y-%m-%d %H:%M:%S",
        "%Y-%m-%dT%H:%M:%S",
        "%d/%m/%Y %H:%M:%S",
        "%m/%d/%Y %H:%M:%S",
        "%Y-%m-%d %H:%M",
        "%Y-%m-%dT%H:%M",
    ];
    assert(r@.map_values(|s: &'static str| s@) =~= datetime_formats());
    r
}

fn time_format_list() -> (r: Vec<&'static str>)
    ensures
        r@.map_values(|s: &'static str| s@) == time_formats(),
{
    let r = vec!["%H:%M:%S", "%H:%M"];
    assert(r@.map_values(|s: &'static str| s@) =~= time_formats());
    r
}

/// Parses a date in the first of the supported formats that accepts it.
pub fn parse_naive_date(value: &str) -> (r: Result<CivilDate, String>)
    ensures
        match first_date(value@, date_formats()) {
            Some(d) => r == Ok::<CivilDate, String>(d),
            None => r matches Err(e) && e@ == "Failed to parse '"@ + value@ + "' as date"@,
        },
{
    let fmts = date_format_list();
    let ghost fv = date_formats();
    assert(fv.skip(0) =~= fv);
    for i in 0..fmts.len()
        invariant
            fmts@.map_values(|s: &'static str| s@) == fv,
            fv == date_formats(),
            first_date(value@, fv) == first_date(value@, fv.skip(i as int)),
    {
        assert(fv.skip(i as int)[0] == fv[i as int]);
        assert(fv.skip(i as int).drop_first() =~= fv.skip(i + 1));
        match date_with_format(value, fmts[i]) {
            Some(d) => {
                return Ok(d);
            },
            None => {},
        }
    }
    let vc = chars_of(value);
    Err(cat3("Failed to parse '", vc.as_slice(), "' as date"))
}

/// Parses a date-time in the first supported format that accepts it.
pub fn parse_naive_datetime(value: &str) -> (r: Result<CivilDateTime, String>)
    ensures
        match first_datetime(value@, datetime_formats()) {
            Some(d) => r == Ok::<CivilDateTime, String>(d),
            None => r matches Err(e) && e@ == "Failed to parse '"@ + value@ + "' as datetime"@,
        },
{
    let fmts = datetime_format_list();
    let ghost fv = datetime_formats();
    assert(fv.skip(0) =~= fv);
    for i in 0..fmts.len()
        invariant
            fmts@.map_values(|s: &'static str| s@) == fv,
            fv == datetime_formats(),
            first_datetime(value@, fv) == first_datetime(value@, fv.skip(i as int)),
    {
        assert(fv.skip(i as int)[0] == fv[i as int]);
        assert(fv.skip(i as int).drop_first() =~= fv.skip(i + 1));
        match datetime_with_format(value, fmts[i]) {
            Some(d) => {
                return Ok(d);
            },
            None => {},
        }
    }
    let vc = chars_of(value);
    Err(cat3("Failed to parse '", vc.as_slice(), "' as datetime"))
}

/// Parses a time of day in the first supported format that accepts it.
pub fn parse_naive_time(value: &str) -> (r: Result<CivilTime, String>)
    ensures
        match first_time(value@, time_formats()) {
            Some(d) => r == Ok::<CivilTime, String>(d),
            None => r matches Err(e) && e@ == "Failed to parse '"@ + value@ + "' as time"@,
        },
{
    let fmts = time_format_list();
    let ghost fv = time_formats();
    assert(fv.skip(0) =~= fv);
    for i in 0..fmts.len()
        invariant
            fmts@.map_values(|s: &'static str| s@) == fv,
            fv == time_formats(),
            first_time(value@, fv) == first_time(value@, fv.skip(i as int)),
    {
        assert(fv.skip(i as int)[0] == fv[i as int]);
        assert(fv.skip(i as int).drop_first() =~= fv.skip(i + 1));
        match time_with_format(value, fmts[i]) {
            Some(d) => {
                return Ok(d);
            },
            None => {},
        }
    }
    let vc = chars_of(value);
    Err(cat3("Failed to parse '", vc.as_slice(), "' as time"))
}

// ---------------------------------------------------------------------------
// GUIDs
// ---------------------------------------------------------------------------

/// What `uuid::Uuid::parse_str(value)` yields, as the 128-bit value.
pub uninterp spec fn uuid_value(value: Seq<char>) -> Option<u128>;

/// Calls `uuid::Uuid::parse_str`; the result is named `uuid_value` of the
/// argument.
#[verifier::external_body]
fn uuid_parse(value: &str) -> (r: Option<u128>)
    ensures
        r == uuid_value(value@),
{
    match uuid::Uuid::parse_str(value) {
        Ok(u) => Some(u.as_u128()),
        Err(_) => None,
    }
}

/// `s` without leading and trailing `{` and `}` (as `trim_matches`).
pub open spec fn strip_braces(s: Seq<char>) -> Seq<char>
    decreases s.len(),
{
    if s.len() > 0 && (s[0] == '{' || s[0] == '}') {
        strip_braces(s.subrange(1, s.len() as int))
    } else if s.len() > 0 && (s.last() == '{' || s.last() == '}') {
        strip_braces(s.drop_last())
    } else {
        s
    }
}

pub fn strip_braces_chars(s: &[char]) -> (r: Vec<char>)
    ensures
        r@ == strip_braces(s@),
{
    let mut a: usize = 0;
    let mut b: usize = s.len();
    assert(s@.subrange(0, s@.len() as int) =~= s@);
    while a < b && (s[a] == '{' || s[a] == '}' || s[b - 1] == '{' || s[b - 1] == '}')
        invariant
            a <= b <= s@.len(),
            strip_braces(s@) == strip_braces(s@.subrange(a as int, b as int)),
        decreases b - a,
    {
        let ghost cur = s@.subrange(a as int, b as int);
        if s[a] == '{' || s[a] == '}' {
            assert(cur.subrange(1, cur.len() as int) =~= s@.subrange(a + 1, b as int));
            a += 1;
        } else {
            assert(cur.drop_last() =~= s@.subrange(a as int, b - 1));
            b -= 1;
        }
    }
    let mut r: Vec<char> = Vec::new();
    for k in a..b
        invariant
            a <= b <= s@.len(),
            r@ == s@.subrange(a as int, k as int),
    {
        r.push(s[k]);
        assert(s@.subrange(a as int, k + 1) =~= s@.subrange(a as int, k as int).push(s@[k as int]));
    }
    r
}

/// Parses a GUID, with or without surrounding braces.
pub fn parse_guid(value: &str) -> (r: Option<u128>)
    ensures
        r == uuid_value(strip_braces(trim(value@))),
{
    let t = crate::text::trim_str(value);
    let s = strip_braces_chars(t.as_slice());
    let st = string_of(s.as_slice());
    uuid_parse(st.as_str())
}

// ---------------------------------------------------------------------------
// Integers and float syntax
// ---------------------------------------------------------------------------

/// Grammar and range of `str::parse::<i64>`: an optional sign, then one or
/// more ASCII digits, within the `i64` range.
pub open spec fn signed_body(s: Seq<char>) -> Seq<char> {
    if s.len() > 0 && (s[0] == '+' || s[0] == '-') {
        s.subrange(1, s.len() as int)
    } else {
        s
    }
}

pub open spec fn is_negative_literal(s: Seq<char>) -> bool {
    s.len() > 0 && s[0] == '-'
}

pub open spec fn i64_literal_value(s: Seq<char>) -> int {
    if is_negative_literal(s) {
        -(digits_value(signed_body(s)) as int)
    } else {
        digits_value(signed_body(s)) as int
    }
}

pub open spec fn parses_i64(s: Seq<char>) -> bool {
    let b = signed_body(s);
    &&& b.len() > 0
    &&& all_digits(b)
    &&& i64::MIN <= i64_literal_value(s) <= i64::MAX
}

pub fn parse_i64(s: &[char]) -> (r: Option<i64>)
    ensures
        r is Some <==> parses_i64(s@),
        r matches Some(v) ==> v == i64_literal_value(s@),
{
    let neg = s.len() > 0 && s[0] == '-';
    let start: usize = if s.len() > 0 && (s[0] == '+' || s[0] == '-') {
        1
    } else {
        0
    };
    let mut body: Vec<char> = Vec::new();
    for k in start..s.len()
        invariant
            start <= s@.len(),
            body@ == s@.subrange(start as int, k as int),
    {
        body.push(s[k]);
        assert(s@.subrange(start as int, k + 1) =~= s@.subrange(start as int, k as int).push(s@[k as int]));
    }
    assert(body@ == signed_body(s@));
    let limit: u64 = if neg {
        0x8000_0000_0000_0000
    } else {
        0x7fff_ffff_ffff_ffff
    };
    // `parse_unsigned` would also accept a leading `+` in the body, which
    // `i64` rejects after a sign: rule it out first.
    if body.len() > 0 && body[0] == '+' {
        assert(!is_digit(body@[0]));
        return None;
    }
    match parse_unsigned(body.as_slice(), limit) {
        Some(v) => {
            assert(crate::text::unsigned_body(body@) == body@);
            if neg {
                if v == 0x8000_0000_0000_0000 {
                    Some(i64::MIN)
                } else {
                    Some(-(v as i64))
                }
            } else {
                Some(v as i64)
            }
        },
        None => {
            assert(crate::text::unsigned_body(body@) == body@);
            None
        },
    }
}

/// Grammar of `str::parse::<f64>` (which never fails on a well-formed
/// literal: out-of-range values become infinities):
/// `[+-]? ( inf | infinity | nan | Number )`, the words in any case, where
/// `Number = ( digits | digits '.' digits? | '.' digits ) ( [eE] [+-]? digits )?`.
pub open spec fn float_literal_ok(s: Seq<char>) -> bool {
    let b = signed_body(s);
    let lb = lower_seq(b);
    lb == "inf"@ || lb == "infinity"@ || lb == "nan"@ || float_number_ok(b)
}

/// Index of the first `e` or `E`.
pub open spec fn is_exp_index(b: Seq<char>, i: int) -> bool {
    0 <= i < b.len() && (b[i] == 'e' || b[i] == 'E') && forall|j: int| 0 <= j < i ==> b[j] != 'e' && b[j] != 'E'
}

/// Number of occurrences of `c` in `s`.
pub open spec fn count_char(s: Seq<char>, c: char) -> nat
    decreases s.len(),
{
    if s.len() == 0 {
        0
    } else {
        count_char(s.drop_last(), c) + if s.last() == c {
            1nat
        } else {
            0nat
        }
    }
}

pub open spec fn mantissa_ok(m: Seq<char>) -> bool {
    let dots = count_char(m, '.');
    &&& forall|i: int| 0 <= i < m.len() ==> is_digit(#[trigger] m[i]) || m[i] == '.'
    &&& dots <= 1
    &&& exists|i: int| 0 <= i < m.len() && is_digit(#[trigger] m[i])
}

pub open spec fn exponent_ok(e: Seq<char>) -> bool {
    let body = if e.len() > 0 && (e[0] == '+' || e[0] == '-') {
        e.subrange(1, e.len() as int)
    } else {
        e
    };
    body.len() > 0 && all_digits(body)
}

pub open spec fn float_number_ok(b: Seq<char>) -> bool {
    if exists|i: int| is_exp_index(b, i) {
        let i = choose|i: int| is_exp_index(b, i);
        mantissa_ok(b.take(i)) && exponent_ok(b.skip(i + 1))
    } else {
        mantissa_ok(b)
    }
}

fn mantissa_ok_exec(m: &[char]) -> (r: bool)
    ensures
        r == mantissa_ok(m@),
{
    let mut dots: usize = 0;
    let mut digit_seen = false;
    let ghost mut digit_at: int = -1;
    for i in 0..m.len()
        invariant
            dots == count_char(m@.take(i as int), '.'),
            dots <= i,
            forall|k: int| 0 <= k < i ==> is_digit(#[trigger] m@[k]) || m@[k] == '.',
            digit_seen <==> exists|k: int| 0 <= k < i && is_digit(#[trigger] m@[k]),
    {
        let c = m[i];
        assert(m@.take(i + 1).drop_last() =~= m@.take(i as int));
        if c == '.' {
            dots += 1;
        } else if char_is_digit(c) {
            digit_seen = true;
        } else {
            return false;
        }
    }
    assert(m@.take(m@.len() as int) =~= m@);
    dots <= 1 && digit_seen
}

fn exponent_ok_exec(e: &[char]) -> (r: bool)
    ensures
        r == exponent_ok(e@),
{
    let start: usize = if e.len() > 0 && (e[0] == '+' || e[0] == '-') {
        1
    } else {
        0
    };
    let ghost body = if e@.len() > 0 && (e@[0] == '+' || e@[0] == '-') {
        e@.subrange(1, e@.len() as int)
    } else {
        e@
    };
    assert(body =~= e@.subrange(start as int, e@.len() as int));
    if start >= e.len() {
        return false;
    }
    assert(exponent_ok(e@) == (body.len() > 0 && all_digits(body)));
    for k in start..e.len()
        invariant
            exponent_ok(e@) == (body.len() > 0 && all_digits(body)),
            start <= e@.len(),
            body == e@.subrange(start as int, e@.len() as int),
            forall|j: int| start <= j < k ==> is_digit(#[trigger] e@[j]),
    {
        if !char_is_digit(e[k]) {
            assert(body[k - start] == e@[k as int]);
            return false;
        }
    }
    assert forall|j: int| 0 <= j < body.len() implies is_digit(#[trigger] body[j]) by {
        assert(body[j] == e@[j + start]);
    }
    true
}

/// Whether `str::parse::<f64>` accepts `s`.
pub fn float_literal_is_valid(s: &[char]) -> (r: bool)
    ensures
        r == float_literal_ok(s@),
{
    let start: usize = if s.len() > 0 && (s[0] == '+' || s[0] == '-') {
        1
    } else {
        0
    };
    let b = crate::text::slice_chars(s, start, s.len());
    assert(b@ == signed_body(s@));
    let lb = ascii_lower(b.as_slice());
    if str_eq_chars("inf", lb.as_slice()) || str_eq_chars("infinity", lb.as_slice()) || str_eq_chars(
        "nan",
        lb.as_slice(),
    ) {
        return true;
    }
    let mut exp_at: Option<usize> = None;
    for i in 0..b.len()
        invariant
            exp_at matches Some(x) ==> is_exp_index(b@, x as int),
            exp_at is None ==> forall|j: int| 0 <= j < i ==> b@[j] != 'e' && b@[j] != 'E',
    {
        if exp_at.is_none() && (b[i] == 'e' || b[i] == 'E') {
            exp_at = Some(i);
        }
    }
    match exp_at {
        Some(x) => {
            proof {
                let k = choose|k: int| is_exp_index(b@, k);
                if k < x {
                    assert(b@[k] != 'e' && b@[k] != 'E');
                }
                if x < k {
                    assert(b@[x as int] != 'e' && b@[x as int] != 'E');
                }
            }
            let m = crate::text::slice_chars(b.as_slice(), 0, x);
            let e = crate::text::slice_chars(b.as_slice(), x + 1, b.len());
            assert(m@ =~= b@.take(x as int));
            assert(e@ =~= b@.skip(x + 1));
            mantissa_ok_exec(m.as_slice()) && exponent_ok_exec(e.as_slice())
        },
        None => mantissa_ok_exec(b.as_slice()),
    }
}

// ---------------------------------------------------------------------------
// Decimal and currency literals
// ---------------------------------------------------------------------------

/// A decimal number `mantissa * 10^-scale`; `negative` is its sign flag,
/// which a zero keeps too (`-0.00`).
#[derive(Debug, Clone, Copy, PartialEq, Eq, Structural)]
pub struct DecimalValue {
    pub mantissa: i128,
    pub scale: u32,
    pub negative: bool,
}

/// The largest mantissa magnitude a decimal holds (96 bits).
pub const DECIMAL_MAX_MANTISSA: i128 = 79228162514264337593543950335;

/// The largest scale a decimal holds.
pub const DECIMAL_MAX_SCALE: u32 = 28;

/// What every `rust_decimal::Decimal` satisfies: a 96-bit mantissa, a scale
/// of at most 28, and a sign flag that agrees with a nonzero mantissa.
pub open spec fn decimal_valid(d: DecimalValue) -> bool {
    &&& -DECIMAL_MAX_MANTISSA <= d.mantissa <= DECIMAL_MAX_MANTISSA
    &&& d.scale <= DECIMAL_MAX_SCALE
    &&& (d.mantissa != 0 ==> d.negative == (d.mantissa < 0))
}

/// What `rust_decimal::Decimal::from_str(value)` yields, as mantissa, scale
/// and sign.
pub uninterp spec fn decimal_from_str(value: Seq<char>) -> Option<DecimalValue>;

/// Calls `rust_decimal::Decimal::from_str`; the result is named
/// `decimal_from_str` of the argument, and like every `Decimal` it has a
/// 96-bit mantissa and a scale of at most 28.
#[verifier::external_body]
fn decimal_parse(value: &str) -> (r: Option<DecimalValue>)
    ensures
        r == decimal_from_str(value@),
        r matches Some(d) ==> decimal_valid(d),
{
    match rust_decimal::Decimal::from_str(value) {
        Ok(d) => Some(DecimalValue { mantissa: d.mantissa(), scale: d.scale(), negative: d.is_sign_negative() }),
        Err(_) => None,
    }
}

/// Characters skipped as separators inside a numeric literal.
pub open spec fn is_separator(c: char) -> bool {
    c == ',' || c == '_' || c == ' '
}

/// Currency symbols recognized in amounts.
pub open spec fn is_currency_symbol(c: char) -> bool {
    c == '$' || c == '€' || c == '£' || c == '¥'
}

/// A literal with its sign resolved: `(negative, body)`. Parentheses around
/// the whole literal or a leading `-` make it negative; a leading `+` is
/// dropped.
pub open spec fn literal_sign_and_body(raw: Seq<char>) -> (bool, Seq<char>) {
    let t = trim(raw);
    let paren = t.len() >= 1 && t[0] == '(' && t.last() == ')' && t.len() >= 2;
    let b1 = if paren {
        trim(t.subrange(1, t.len() - 1))
    } else {
        trim(t)
    };
    if b1.len() > 0 && b1[0] == '-' {
        (true, trim(b1.subrange(1, b1.len() as int)))
    } else if b1.len() > 0 && b1[0] == '+' {
        (paren, trim(b1.subrange(1, b1.len() as int)))
    } else {
        (paren, trim(b1))
    }
}

/// The literal's digits and decimal point with separators (and, for
/// currency, symbols) removed, or what is wrong with it: a second decimal
/// point, or another character.
pub open spec fn sanitize_literal(body: Seq<char>, allow_symbols: bool) -> Result<Seq<char>, Seq<char>>
    decreases body.len(),
{
    if body.len() == 0 {
        Ok(Seq::<char>::empty())
    } else {
        match sanitize_literal(body.drop_last(), allow_symbols) {
            Err(e) => Err(e),
            Ok(prev) => {
                let c = body.last();
                if is_digit(c) {
                    Ok(prev.push(c))
                } else if c == '.' {
                    if prev.contains('.') {
                        Err(" contains multiple decimal points"@)
                    } else {
                        Ok(prev.push(c))
                    }
                } else if is_separator(c) || (allow_symbols && is_currency_symbol(c)) {
                    Ok(prev)
                } else {
                    Err(" contains unsupported character '"@ + seq![c] + "'"@)
                }
            },
        }
    }
}

/// Whether some character of `s` is an ASCII digit.
pub open spec fn has_digit_char(s: Seq<char>) -> bool {
    exists|i: int| 0 <= i < s.len() && is_digit(#[trigger] s[i])
}

/// How a literal is named in messages.
pub open spec fn literal_kind(allow_symbols: bool) -> Seq<char> {
    if allow_symbols {
        "Currency value"@
    } else {
        "Decimal value"@
    }
}

/// The text handed to `Decimal::from_str` for a literal (its sanitized
/// digits, with a `-` in front when negative), or the message that rejects
/// the literal.
pub open spec fn literal_decimal_text(raw: Seq<char>, allow_symbols: bool) -> Result<Seq<char>, Seq<char>> {
    let t = trim(raw);
    let kind = literal_kind(allow_symbols);
    if t.len() == 0 {
        Err(kind + " is empty"@)
    } else {
        let sb = literal_sign_and_body(raw);
        match sanitize_literal(sb.1, allow_symbols) {
            Err(e) => Err(kind + " '"@ + raw + "'"@ + e),
            Ok(s) => if !has_digit_char(s) {
                Err(kind + " '"@ + raw + "' does not contain digits"@)
            } else if sb.0 {
                Ok(seq!['-'] + s)
            } else {
                Ok(s)
            },
        }
    }
}

/// The outcome of reading a literal: the decimal, or the message.
pub open spec fn literal_outcome(raw: Seq<char>, allow_symbols: bool) -> Result<DecimalValue, Seq<char>> {
    match literal_decimal_text(raw, allow_symbols) {
        Err(e) => Err(e),
        Ok(text) => match decimal_from_str(text) {
            Some(d) => Ok(d),
            None => Err("Parsing '"@ + raw + "' as decimal"@),
        },
    }
}

fn literal_message(raw: &[char], allow_symbols: bool, tail: &[char]) -> (r: String)
    ensures
        r@ == literal_kind(allow_symbols) + " '"@ + raw@ + "'"@ + tail@,
{
    let mut m = if allow_symbols {
        chars_of("Currency value '")
    } else {
        chars_of("Decimal value '")
    };
    crate::text::extend_chars(&mut m, raw);
    m.push('\'');
    crate::text::extend_chars(&mut m, tail);
    proof {
        reveal_strlit("Currency value '");
        reveal_strlit("Decimal value '");
        reveal_strlit("Currency value");
        reveal_strlit("Decimal value");
        reveal_strlit(" '");
        reveal_strlit("'");
    }
    assert(m@ =~= literal_kind(allow_symbols) + " '"@ + raw@ + "'"@ + tail@);
    string_of(m.as_slice())
}

fn parse_literal(raw: &str, allow_symbols: bool) -> (r: Result<DecimalValue, String>)
    ensures
        match literal_outcome(raw@, allow_symbols) {
            Ok(d) => r == Ok::<DecimalValue, String>(d),
            Err(e) => r matches Err(x) && x@ == e,
        },
        r matches Ok(d) ==> decimal_valid(d),
{
    let rv = chars_of(raw);
    let t = trim_chars(rv.as_slice());
    if t.len() == 0 {
        proof {
            reveal_strlit("Currency value is empty");
            reveal_strlit("Decimal value is empty");
            reveal_strlit("Currency value");
            reveal_strlit("Decimal value");
            reveal_strlit(" is empty");
        }
        if allow_symbols {
            return Err("Currency value is empty".to_string());
        } else {
            return Err("Decimal value is empty".to_string());
        }
    }
    let mut neg = false;
    let paren = t.len() >= 2 && t[0] == '(' && t[t.len() - 1] == ')';
    let b1 = if paren {
        neg = true;
        let inner = crate::text::slice_chars(t.as_slice(), 1, t.len() - 1);
        trim_chars(inner.as_slice())
    } else {
        trim_chars(t.as_slice())
    };
    let body = if b1.len() > 0 && b1[0] == '-' {
        neg = true;
        let rest = crate::text::slice_chars(b1.as_slice(), 1, b1.len());
        trim_chars(rest.as_slice())
    } else if b1.len() > 0 && b1[0] == '+' {
        let rest = crate::text::slice_chars(b1.as_slice(), 1, b1.len());
        trim_chars(rest.as_slice())
    } else {
        trim_chars(b1.as_slice())
    };
    assert(literal_sign_and_body(raw@) == (neg, body@));
    let mut sanitized: Vec<char> = Vec::new();
    let mut decimal_seen = false;
    for i in 0..body.len()
        invariant
            trim(raw@).len() > 0,
            rv@ == raw@,
            literal_sign_and_body(raw@) == (neg, body@),
            sanitize_literal(body@.take(i as int), allow_symbols) == Ok::<Seq<char>, Seq<char>>(sanitized@),
            decimal_seen == sanitized@.contains('.'),
    {
        let c = body[i];
        assert(body@.take(i + 1).drop_last() =~= body@.take(i as int));
        if char_is_digit(c) {
            proof {
                lemma_contains_push(sanitized@, c, '.');
            }
            sanitized.push(c);
        } else if c == '.' {
            if decimal_seen {
                proof {
                    lemma_sanitize_err_extends(body@, allow_symbols, i + 1);
                }
                let tail = chars_of(" contains multiple decimal points");
                return Err(literal_message(rv.as_slice(), allow_symbols, tail.as_slice()));
            }
            decimal_seen = true;
            proof {
                lemma_contains_push(sanitized@, c, '.');
            }
            sanitized.push(c);
        } else if c == ',' || c == '_' || c == ' ' || (allow_symbols && (c == '$' || c == '€' || c
            == '£' || c == '¥')) {
        } else {
            proof {
                lemma_sanitize_err_extends(body@, allow_symbols, i + 1);
            }
            let mut tail = chars_of(" contains unsupported character '");
            tail.push(c);
            tail.push('\'');
            proof {
                reveal_strlit("'");
            }
            assert(tail@ =~= " contains unsupported character '"@ + seq![c] + "'"@);
            return Err(literal_message(rv.as_slice(), allow_symbols, tail.as_slice()));
        }
    }
    assert(body@.take(body@.len() as int) =~= body@);
    let mut has_digit = false;
    for i in 0..sanitized.len()
        invariant
            has_digit <==> exists|k: int| 0 <= k < i && is_digit(#[trigger] sanitized@[k]),
            trim(raw@).len() > 0,
            literal_sign_and_body(raw@) == (neg, body@),
            sanitize_literal(body@, allow_symbols) == Ok::<Seq<char>, Seq<char>>(sanitized@),
    {
        if char_is_digit(sanitized[i]) {
            has_digit = true;
        }
    }
    if !has_digit {
        let tail = chars_of(" does not contain digits");
        let m = literal_message(rv.as_slice(), allow_symbols, tail.as_slice());
        proof {
            reveal_strlit("' does not contain digits");
            reveal_strlit("'");
            reveal_strlit(" does not contain digits");
        }
        assert(m@ =~= literal_kind(allow_symbols) + " '"@ + raw@ + "' does not contain digits"@);
        return Err(m);
    }
    let mut text: Vec<char> = Vec::new();
    if neg {
        text.push('-');
    }
    crate::text::extend_chars(&mut text, sanitized.as_slice());
    assert(neg ==> text@ =~= seq!['-'] + sanitized@);
    assert(!neg ==> text@ =~= sanitized@);
    assert(has_digit_char(sanitized@));
    assert(literal_decimal_text(raw@, allow_symbols) == Ok::<Seq<char>, Seq<char>>(text@));
    let ts = string_of(text.as_slice());
    match decimal_parse(ts.as_str()) {
        Some(d) => Ok(d),
        None => Err(cat3("Parsing '", rv.as_slice(), "' as decimal")),
    }
}

proof fn lemma_contains_push(s: Seq<char>, x: char, c: char)
    ensures
        s.push(x).contains(c) == (s.contains(c) || x == c),
{
    if s.push(x).contains(c) && x != c {
        let k = choose|k: int| 0 <= k < s.push(x).len() && s.push(x)[k] == c;
        assert(k < s.len());
        assert(s[k] == c);
    }
    if s.contains(c) {
        let k = choose|k: int| 0 <= k < s.len() && s[k] == c;
        assert(s.push(x)[k] == c);
    }
    if x == c {
        assert(s.push(x)[s.len() as int] == c);
    }
}

proof fn lemma_sanitize_err_extends(body: Seq<char>, allow: bool, k: int)
    requires
        0 <= k <= body.len(),
        sanitize_literal(body.take(k), allow) is Err,
    ensures
        sanitize_literal(body, allow) == sanitize_literal(body.take(k), allow),
    decreases body.len() - k,
{
    if k < body.len() {
        assert(body.take(k + 1).drop_last() =~= body.take(k));
        lemma_sanitize_err_extends(body, allow, k + 1);
    } else {
        assert(body.take(k) =~= body);
    }
}

/// Parses a decimal literal: optional sign or parentheses for negatives,
/// `,` `_` and spaces ignored, one decimal point at most.
pub fn parse_decimal_literal(raw: &str) -> (r: Result<DecimalValue, String>)
    ensures
        match literal_outcome(raw@, false) {
            Ok(d) => r == Ok::<DecimalValue, String>(d),
            Err(e) => r matches Err(x) && x@ == e,
        },
        r matches Ok(d) ==> decimal_valid(d),
{
    parse_literal(raw, false)
}

/// Parses a currency amount: as a decimal literal, and `$ € £ ¥` ignored.
pub fn parse_currency_decimal(raw: &str) -> (r: Result<DecimalValue, String>)
    ensures
        match literal_outcome(raw@, true) {
            Ok(d) => r == Ok::<DecimalValue, String>(d),
            Err(e) => r matches Err(x) && x@ == e,
        },
        r matches Ok(d) ==> decimal_valid(d),
{
    parse_literal(raw, true)
}


// ---------------------------------------------------------------------------
// Rounding, rescaling and rendering decimals
// ---------------------------------------------------------------------------

/// What `Decimal::round_dp_with_strategy(dp, strategy)` yields, where the
/// strategy is `MidpointAwayFromZero` when `away_from_zero` holds and
/// `ToZero` otherwise. A decimal with at most `dp` fractional digits comes
/// back as it is. Otherwise the magnitude is divided by `10^(scale - dp)`;
/// rounding away from zero adds one to the quotient when the remainder is at
/// least half the divisor. The scale becomes `dp` and the sign is kept, but
/// a non-zero decimal that rounds to zero becomes positive zero.
pub open spec fn decimal_rounded(v: DecimalValue, dp: u32, away_from_zero: bool) -> DecimalValue {
    if v.scale <= dp {
        v
    } else {
        let q = pow10((v.scale - dp) as nat);
        let a = (if v.mantissa < 0 {
            -v.mantissa
        } else {
            v.mantissa as int
        }) as nat;
        let mag: nat = a / q + if away_from_zero && 2 * (a % q) >= q {
            1nat
        } else {
            0nat
        };
        DecimalValue {
            mantissa: (if v.negative {
                -mag
            } else {
                mag as int
            }) as i128,
            scale: dp,
            negative: if v.mantissa == 0 {
                v.negative
            } else {
                v.negative && mag != 0
            },
        }
    }
}

/// What `Decimal::rescale(scale)` leaves in the decimal.
pub uninterp spec fn decimal_rescaled(v: DecimalValue, scale: u32) -> DecimalValue;

/// The digits of the magnitude, padded with leading zeros to at least
/// `scale` digits (none for a zero magnitude with scale zero).
pub open spec fn padded_digits(v: DecimalValue) -> Seq<char> {
    let a = (if v.mantissa < 0 {
        -v.mantissa
    } else {
        v.mantissa as int
    }) as nat;
    let digits = if a == 0 {
        Seq::<char>::empty()
    } else {
        crate::text::nat_to_seq(a)
    };
    if digits.len() < v.scale {
        zeros((v.scale - digits.len()) as nat) + digits
    } else {
        digits
    }
}

/// What `Decimal::to_string` (its `Display`) yields: a `-` when the sign
/// flag is set (also for a zero), the whole digits (`0` when there are
/// none), and for a positive scale a `.` and exactly `scale` fractional
/// digits.
pub open spec fn decimal_display(v: DecimalValue) -> Seq<char> {
    let p = padded_digits(v);
    let whole = p.take(p.len() - v.scale);
    let body = if v.scale == 0 {
        if p.len() == 0 {
            "0"@
        } else {
            p
        }
    } else {
        (if whole.len() == 0 {
            "0"@
        } else {
            whole
        }) + "."@ + p.skip(p.len() - v.scale)
    };
    if v.negative {
        "-"@ + body
    } else {
        body
    }
}

/// Calls `rust_decimal::Decimal::round_dp_with_strategy` on the decimal
/// that `v` describes; the contract claims that the result is the one
/// `decimal_rounded` states, and that it is a valid decimal.
#[verifier::external_body]
fn round_decimal(v: DecimalValue, dp: u32, away_from_zero: bool) -> (r: DecimalValue)
    requires
        decimal_valid(v),
    ensures
        r == decimal_rounded(v, dp, away_from_zero),
        decimal_valid(r),
{
    let mut d = rust_decimal::Decimal::from_i128_with_scale(v.mantissa, v.scale);
    d.set_sign_negative(v.negative);
    let strategy = match away_from_zero {
        true => rust_decimal::RoundingStrategy::MidpointAwayFromZero,
        false => rust_decimal::RoundingStrategy::ToZero,
    };
    let out = d.round_dp_with_strategy(dp, strategy);
    DecimalValue { mantissa: out.mantissa(), scale: out.scale(), negative: out.is_sign_negative() }
}

/// Calls `rust_decimal::Decimal::rescale` on the decimal that `v`
/// describes. The result is named `decimal_rescaled`; when scaling up the
/// source multiplies by ten while the mantissa fits, so the scale reached
/// lies between the old one and the one asked for.
#[verifier::external_body]
fn rescale_decimal(v: DecimalValue, scale: u32) -> (r: DecimalValue)
    requires
        decimal_valid(v),
    ensures
        r == decimal_rescaled(v, scale),
        decimal_valid(r),
        v.scale <= scale <= DECIMAL_MAX_SCALE ==> v.scale <= r.scale <= scale,
{
    let mut d = rust_decimal::Decimal::from_i128_with_scale(v.mantissa, v.scale);
    d.set_sign_negative(v.negative);
    d.rescale(scale);
    DecimalValue { mantissa: d.mantissa(), scale: d.scale(), negative: d.is_sign_negative() }
}

/// Calls `Decimal::to_string` on the decimal that `v` describes; the
/// contract claims that the text is the one `decimal_display` states.
#[verifier::external_body]
fn decimal_to_text(v: DecimalValue) -> (r: String)
    requires
        decimal_valid(v),
    ensures
        r@ == decimal_display(v),
{
    let mut d = rust_decimal::Decimal::from_i128_with_scale(v.mantissa, v.scale);
    d.set_sign_negative(v.negative);
    d.to_string()
}

/// The position of the first `.` in `s`.
pub open spec fn dot_index(s: Seq<char>) -> Option<nat>
    decreases s.len(),
{
    if s.len() == 0 {
        None
    } else if s[0] == '.' {
        Some(0)
    } else {
        match dot_index(s.drop_first()) {
            Some(i) => Some(i + 1),
            None => None,
        }
    }
}

proof fn lemma_dot_index(s: Seq<char>, i: int)
    requires
        0 <= i <= s.len(),
        forall|j: int| 0 <= j < i ==> s[j] != '.',
    ensures
        i < s.len() && s[i] == '.' ==> dot_index(s) == Some(i as nat),
        i == s.len() ==> dot_index(s) is None,
    decreases i,
{
    if i > 0 {
        lemma_dot_index(s.drop_first(), i - 1);
    }
}

/// `n` zero digits.
pub open spec fn zeros(n: nat) -> Seq<char> {
    Seq::new(n, |k: int| '0')
}

/// A decimal's text brought to `scale` fractional digits: cut at the point
/// for scale 0, else padded with zeros (a point added when missing); text
/// that already has at least `scale` fractional digits is kept.
pub open spec fn fixed_text(text: Seq<char>, scale: nat) -> Seq<char> {
    match dot_index(text) {
        Some(i) => if scale == 0 {
            text.take(i as int)
        } else if text.len() - i - 1 >= scale {
            text
        } else {
            text + zeros((scale - (text.len() - i - 1)) as nat)
        },
        None => if scale == 0 {
            text
        } else {
            text + "."@ + zeros(scale)
        },
    }
}

/// A decimal written with exactly `scale` fractional digits: rescaled up
/// first when it has fewer, then its text padded or cut.
pub open spec fn fixed_rendering(v: DecimalValue, scale: u32) -> Seq<char> {
    let w = if v.scale < scale {
        decimal_rescaled(v, scale)
    } else {
        v
    };
    fixed_text(decimal_display(w), scale as nat)
}

fn push_zeros(out: &mut Vec<char>, n: usize)
    ensures
        final(out)@ == old(out)@ + zeros(n as nat),
{
    let ghost start = out@;
    for k in 0..n
        invariant
            out@ == start + zeros(k as nat),
    {
        out.push('0');
        assert(out@ =~= start + zeros((k + 1) as nat));
    }
}

fn fixed_chars(text: &[char], scale: u32) -> (r: Vec<char>)
    ensures
        r@ == fixed_text(text@, scale as nat),
{
    let n = text.len();
    let mut dot: Option<usize> = None;
    let mut i: usize = 0;
    while i < n
        invariant
            0 <= i <= n,
            n == text@.len(),
            dot is None ==> forall|j: int| 0 <= j < i ==> text@[j] != '.',
            dot is Some ==> i == n,
            dot matches Some(d) ==> d < n && text@[d as int] == '.' && forall|j: int| 0 <= j < d ==> text@[j] != '.',
        decreases n - i,
    {
        if text[i] == '.' {
            dot = Some(i);
            i = n;
        } else {
            i = i + 1;
        }
    }
    match dot {
        Some(d) => {
            proof {
                lemma_dot_index(text@, d as int);
            }
            if scale == 0 {
                crate::text::slice_chars(text, 0, d)
            } else {
                let frac = n - d - 1;
                let mut out = clone_chars(text);
                if frac < scale as usize {
                    push_zeros(&mut out, scale as usize - frac);
                }
                out
            }
        },
        None => {
            proof {
                lemma_dot_index(text@, n as int);
            }
            let mut out = clone_chars(text);
            if scale != 0 {
                out.push('.');
                push_zeros(&mut out, scale as usize);
                proof {
                    reveal_strlit(".");
                }
                assert(out@ =~= text@ + "."@ + zeros(scale as nat));
            }
            out
        },
    }
}

/// The decimal written with exactly `scale` fractional digits.
fn format_decimal_with_scale(value: DecimalValue, scale: u32) -> (r: String)
    requires
        decimal_valid(value),
    ensures
        r@ == fixed_rendering(value, scale),
{
    let w = if value.scale < scale {
        rescale_decimal(value, scale)
    } else {
        value
    };
    let text = decimal_to_text(w);
    let tc = chars_of(text.as_str());
    let out = fixed_chars(tc.as_slice(), scale);
    string_of(out.as_slice())
}

/// `10^n`.
pub open spec fn pow10(n: nat) -> nat
    decreases n,
{
    if n == 0 {
        1
    } else {
        10 * pow10((n - 1) as nat)
    }
}

/// How many decimal digits `n` has (one for zero).
pub open spec fn decimal_digits(n: nat) -> nat
    decreases n,
{
    if n < 10 {
        1
    } else {
        1 + decimal_digits(n / 10)
    }
}

/// The magnitude of a mantissa.
pub open spec fn magnitude(m: i128) -> nat {
    if m < 0 {
        (-m) as nat
    } else {
        m as nat
    }
}

/// Digits left of the decimal point of `|v|` (none when `|v| < 1`).
pub open spec fn integer_digit_count(v: DecimalValue) -> nat {
    let q = magnitude(v.mantissa) / pow10(v.scale as nat);
    if q == 0 {
        0
    } else {
        decimal_digits(q)
    }
}

proof fn lemma_pow10_positive(n: nat)
    ensures
        pow10(n) >= 1,
    decreases n,
{
    if n > 0 {
        lemma_pow10_positive((n - 1) as nat);
    }
}

proof fn lemma_decimal_digits_bound(n: nat, k: nat)
    requires
        k >= 1,
        n < pow10(k),
    ensures
        decimal_digits(n) <= k,
    decreases k,
{
    if n >= 10 {
        if k == 1 {
            assert(pow10(1) == 10 * pow10(0));
        } else {
            let p = pow10((k - 1) as nat);
            assert(pow10(k) == 10 * p);
            assert(n / 10 < p) by (nonlinear_arith)
                requires
                    n < 10 * p,
                    p >= 1,
                    n >= 10,
            ;
            lemma_decimal_digits_bound(n / 10, (k - 1) as nat);
        }
    }
}

fn count_digits(n: u128) -> (r: usize)
    requires
        n < pow10(39),
    ensures
        r == decimal_digits(n as nat),
    decreases n,
{
    proof {
        lemma_decimal_digits_bound(n as nat, 39);
    }
    if n < 10 {
        1
    } else {
        proof {
            assert(n / 10 < n);
            assert(pow10(39) >= 1) by {
                lemma_pow10_positive(39);
            }
        }
        let rest = count_digits(n / 10);
        rest + 1
    }
}

fn integer_digits(value: DecimalValue) -> (r: usize)
    requires
        decimal_valid(value),
    ensures
        r == integer_digit_count(value),
{
    let mag: u128 = if value.mantissa < 0 {
        (-value.mantissa) as u128
    } else {
        value.mantissa as u128
    };
    let mut p: u128 = 1;
    let mut k: u32 = 0;
    proof {
        lemma_pow10_positive(28);
        lemma_pow10_28();
    }
    while k < value.scale
        invariant
            k <= value.scale <= DECIMAL_MAX_SCALE,
            pow10(28) == 10000000000000000000000000000,
            p == pow10(k as nat),
            p <= pow10(28),
        decreases value.scale - k,
    {
        proof {
            lemma_pow10_mono(k as nat + 1, 28);
        }
        p = p * 10;
        k = k + 1;
    }
    proof {
        lemma_pow10_positive(value.scale as nat);
        assert(mag as nat == magnitude(value.mantissa));
    }
    let q = mag / p;
    if q == 0 {
        0
    } else {
        proof {
            lemma_pow10_exceeds_mantissa();
            assert(q <= mag);
        }
        count_digits(q)
    }
}

proof fn lemma_pow10_28()
    ensures
        pow10(28) == 10000000000000000000000000000,
{
    reveal_with_fuel(pow10, 29);
}

proof fn lemma_pow10_exceeds_mantissa()
    ensures
        pow10(39) > DECIMAL_MAX_MANTISSA,
{
    reveal_with_fuel(pow10, 40);
}

proof fn lemma_pow10_mono(a: nat, b: nat)
    requires
        a <= b,
    ensures
        pow10(a) <= pow10(b),
    decreases b,
{
    if a < b {
        lemma_pow10_mono(a, (b - 1) as nat);
        lemma_pow10_positive((b - 1) as nat);
    }
}


// ---------------------------------------------------------------------------
// Fixed-precision decimals and currency amounts
// ---------------------------------------------------------------------------

/// A strategy name as a rounding mode for decimal columns: `None` keeps the
/// value, `Some(false)` truncates, `Some(true)` rounds half away from zero.
pub open spec fn decimal_strategy(strategy: Option<Seq<char>>) -> Result<Option<bool>, Seq<char>> {
    match strategy {
        None => Ok(None),
        Some(s) => if s == "truncate"@ {
            Ok(Some(false))
        } else if s == "round"@ || s == "round-half-up"@ || s == "roundhalfup"@ {
            Ok(Some(true))
        } else {
            Err("Unsupported decimal rounding strategy '"@ + s + "'"@)
        },
    }
}

/// What `FixedDecimalValue::from_decimal` makes of a decimal: rounded by
/// the strategy, checked against the spec's scale and integer digits, then
/// rescaled up to the spec's scale; as (amount, precision, scale).
pub open spec fn fixed_decimal_outcome(
    value: DecimalValue,
    spec: crate::schema::DecimalSpec,
    strategy: Option<Seq<char>>,
) -> Result<(DecimalValue, u32, u32), Seq<char>> {
    match decimal_strategy(strategy) {
        Err(e) => Err(e),
        Ok(mode) => {
            let d = match mode {
                None => value,
                Some(away) => decimal_rounded(value, spec.scale, away),
            };
            let max_int = (spec.precision - spec.scale) as nat;
            if d.scale > spec.scale {
                Err(
                    "Decimal values must not exceed scale "@ + crate::text::nat_to_seq(spec.scale as nat)
                        + " (found "@ + crate::text::nat_to_seq(d.scale as nat) + ")"@,
                )
            } else if integer_digit_count(d) > max_int {
                Err(
                    "Decimal values must not exceed "@ + crate::text::nat_to_seq(max_int)
                        + " digit(s) to the left of the decimal point"@,
                )
            } else if d.scale < spec.scale {
                Ok((decimal_rescaled(d, spec.scale), spec.precision, spec.scale))
            } else {
                Ok((d, spec.precision, spec.scale))
            }
        },
    }
}

pub open spec fn opt_text(o: Option<&str>) -> Option<Seq<char>> {
    match o {
        Some(s) => Some(s@),
        None => None,
    }
}

/// A decimal held at a column's precision and scale.
#[derive(Debug, Clone, Copy)]
pub struct FixedDecimalValue {
    amount: DecimalValue,
    precision: u32,
    scale: u32,
}

impl View for FixedDecimalValue {
    type V = (DecimalValue, u32, u32);

    closed spec fn view(&self) -> (DecimalValue, u32, u32) {
        (self.amount, self.precision, self.scale)
    }
}

impl FixedDecimalValue {
    #[verifier::type_invariant]
    spec fn amount_valid(self) -> bool {
        decimal_valid(self.amount)
    }

    /// Parses a decimal literal and holds it at the spec's precision and
    /// scale.
    pub fn parse(raw: &str, spec: &crate::schema::DecimalSpec) -> (r: Result<Self, String>)
        requires
            spec.scale <= spec.precision,
        ensures
            match literal_outcome(raw@, false) {
                Err(e) => r matches Err(x) && x@ == e,
                Ok(d) => match fixed_decimal_outcome(d, *spec, None) {
                    Ok(v) => r matches Ok(f) && f@ == v,
                    Err(e) => r matches Err(x) && x@ == e,
                },
            },
    {
        match parse_decimal_literal(raw) {
            Err(e) => Err(e),
            Ok(d) => Self::from_decimal(d, spec, None),
        }
    }

    /// Rounds `value` by `strategy` (`truncate`, or `round`,
    /// `round-half-up`, `roundhalfup`), checks it against the spec and
    /// rescales it to the spec's scale.
    pub fn from_decimal(
        value: DecimalValue,
        spec: &crate::schema::DecimalSpec,
        strategy: Option<&str>,
    ) -> (r: Result<Self, String>)
        requires
            decimal_valid(value),
            spec.scale <= spec.precision,
        ensures
            match fixed_decimal_outcome(value, *spec, opt_text(strategy)) {
                Ok(v) => r matches Ok(f) && f@ == v,
                Err(e) => r matches Err(x) && x@ == e,
            },
    {
        proof {
            reveal_strlit("truncate");
            reveal_strlit("round");
            reveal_strlit("round-half-up");
            reveal_strlit("roundhalfup");
        }
        let decimal = match strategy {
            None => value,
            Some(s) => {
                if str_eq_chars("truncate", chars_of(s).as_slice()) {
                    round_decimal(value, spec.scale, false)
                } else if str_eq_chars("round", chars_of(s).as_slice()) || str_eq_chars(
                    "round-half-up",
                    chars_of(s).as_slice(),
                ) || str_eq_chars("roundhalfup", chars_of(s).as_slice()) {
                    round_decimal(value, spec.scale, true)
                } else {
                    return Err(cat3("Unsupported decimal rounding strategy '", chars_of(s).as_slice(), "'"));
                }
            },
        };
        if decimal.scale > spec.scale {
            let a = crate::text::usize_to_chars(spec.scale as usize);
            let b = crate::text::usize_to_chars(decimal.scale as usize);
            return Err(crate::text::cat5("Decimal values must not exceed scale ", a.as_slice(), " (found ", b.as_slice(), ")"));
        }
        let integer = integer_digits(decimal);
        let max_integer: u32 = spec.precision - spec.scale;
        if integer > max_integer as usize {
            let a = crate::text::usize_to_chars(max_integer as usize);
            return Err(cat3("Decimal values must not exceed ", a.as_slice(), " digit(s) to the left of the decimal point"));
        }
        let quantized = if decimal.scale < spec.scale {
            rescale_decimal(decimal, spec.scale)
        } else {
            decimal
        };
        Ok(FixedDecimalValue { amount: quantized, precision: spec.precision, scale: spec.scale })
    }

    pub fn amount(&self) -> (r: DecimalValue)
        ensures
            r == self@.0,
            decimal_valid(r),
    {
        proof {
            use_type_invariant(self);
        }
        self.amount
    }

    pub fn precision(&self) -> (r: u32)
        ensures
            r == self@.1,
    {
        self.precision
    }

    pub fn scale(&self) -> (r: u32)
        ensures
            r == self@.2,
    {
        self.scale
    }

    /// The amount written with exactly `scale` fractional digits.
    pub fn to_string_fixed(&self) -> (r: String)
        ensures
            r@ == fixed_rendering(self@.0, self@.2),
    {
        proof {
            use_type_invariant(self);
        }
        format_decimal_with_scale(self.amount, self.scale)
    }
}

/// What `CurrencyValue::from_decimal` makes of an amount: a whole amount
/// gets two decimal places, two or four are kept, others are refused.
pub open spec fn currency_outcome(amount: DecimalValue) -> Result<DecimalValue, Seq<char>> {
    if amount.scale == 0 {
        Ok(decimal_rescaled(amount, 2))
    } else if currency_scale_allowed(amount.scale) {
        Ok(amount)
    } else {
        Err(
            "Currency values must have 2 or 4 decimal places (found "@ + crate::text::nat_to_seq(
                amount.scale as nat,
            ) + ")"@,
        )
    }
}

/// What `CurrencyValue::quantize` yields: the scale checked, the amount
/// rounded to it (truncated for `truncate`, else half away from zero),
/// then read as a currency amount.
pub open spec fn currency_quantize_outcome(
    amount: DecimalValue,
    scale: u32,
    strategy: Option<Seq<char>>,
) -> Result<DecimalValue, Seq<char>> {
    if !currency_scale_allowed(scale) {
        Err("Currency scale must be 2 or 4"@)
    } else {
        let mode: Result<bool, Seq<char>> = match strategy {
            None => Ok(true),
            Some(s) => if s == "truncate"@ {
                Ok(false)
            } else if s == "round"@ || s == "round-half-up"@ || s == "roundhalfup"@ {
                Ok(true)
            } else {
                Err("Unsupported currency rounding strategy '"@ + s + "'"@)
            },
        };
        match mode {
            Err(e) => Err(e),
            Ok(away) => currency_outcome(decimal_rounded(amount, scale, away)),
        }
    }
}

/// A currency amount with two or four decimal places.
#[derive(Debug, Clone, Copy)]
pub struct CurrencyValue {
    amount: DecimalValue,
}

impl View for CurrencyValue {
    type V = DecimalValue;

    closed spec fn view(&self) -> DecimalValue {
        self.amount
    }
}

impl CurrencyValue {
    #[verifier::type_invariant]
    spec fn amount_valid(self) -> bool {
        decimal_valid(self.amount)
    }

    /// Parses a currency literal as an amount.
    pub fn parse(raw: &str) -> (r: Result<Self, String>)
        ensures
            match literal_outcome(raw@, true) {
                Err(e) => r matches Err(x) && x@ == e,
                Ok(d) => match currency_outcome(d) {
                    Ok(a) => r matches Ok(c) && c@ == a,
                    Err(_) => r matches Err(x) && x@ == "Parsing '"@ + raw@ + "' as currency"@,
                },
            },
    {
        match parse_currency_decimal(raw) {
            Err(e) => Err(e),
            Ok(d) => match Self::from_decimal(d) {
                Ok(c) => Ok(c),
                Err(_) => {
                    let rv = chars_of(raw);
                    Err(cat3("Parsing '", rv.as_slice(), "' as currency"))
                },
            },
        }
    }

    /// An amount with scale 0 gets two decimal places; scales 2 and 4 are
    /// kept; any other is refused.
    pub fn from_decimal(amount: DecimalValue) -> (r: Result<Self, String>)
        requires
            decimal_valid(amount),
        ensures
            match currency_outcome(amount) {
                Ok(a) => r matches Ok(c) && c@ == a,
                Err(e) => r matches Err(x) && x@ == e,
            },
    {
        if amount.scale == 0 {
            Ok(CurrencyValue { amount: rescale_decimal(amount, 2) })
        } else if is_currency_scale(amount.scale) {
            Ok(CurrencyValue { amount })
        } else {
            let a = crate::text::usize_to_chars(amount.scale as usize);
            Err(cat3("Currency values must have 2 or 4 decimal places (found ", a.as_slice(), ")"))
        }
    }

    /// Rounds an amount to `scale` (2 or 4) decimal places: truncating for
    /// `truncate`, half away from zero for `round`, `round-half-up`,
    /// `roundhalfup` or no strategy.
    pub fn quantize(amount: DecimalValue, scale: u32, strategy: Option<&str>) -> (r: Result<Self, String>)
        requires
            decimal_valid(amount),
        ensures
            match currency_quantize_outcome(amount, scale, opt_text(strategy)) {
                Ok(a) => r matches Ok(c) && c@ == a,
                Err(e) => r matches Err(x) && x@ == e,
            },
    {
        proof {
            reveal_strlit("truncate");
            reveal_strlit("round");
            reveal_strlit("round-half-up");
            reveal_strlit("roundhalfup");
        }
        if !is_currency_scale(scale) {
            return Err("Currency scale must be 2 or 4".to_string());
        }
        let away = match strategy {
            None => true,
            Some(s) => {
                if str_eq_chars("truncate", chars_of(s).as_slice()) {
                    false
                } else if str_eq_chars("round", chars_of(s).as_slice()) || str_eq_chars(
                    "round-half-up",
                    chars_of(s).as_slice(),
                ) || str_eq_chars("roundhalfup", chars_of(s).as_slice()) {
                    true
                } else {
                    return Err(cat3("Unsupported currency rounding strategy '", chars_of(s).as_slice(), "'"));
                }
            },
        };
        let rounded = round_decimal(amount, scale, away);
        Self::from_decimal(rounded)
    }

    pub fn amount(&self) -> (r: DecimalValue)
        ensures
            r == self@,
            decimal_valid(r),
    {
        proof {
            use_type_invariant(self);
        }
        self.amount
    }

    pub fn scale(&self) -> (r: u32)
        ensures
            r == self@.scale,
    {
        self.amount.scale
    }

    /// The amount written with its own number of decimal places.
    pub fn to_string_fixed(&self) -> (r: String)
        ensures
            r@ == fixed_rendering(self@, self@.scale),
    {
        proof {
            use_type_invariant(self);
        }
        format_decimal_with_scale(self.amount, self.amount.scale)
    }
}


// ---------------------------------------------------------------------------
// Typed cell values
// ---------------------------------------------------------------------------

/// A cell read as its column's type. A float is kept as its text, which
/// `f64::from_str` accepts.
#[derive(Debug, Clone)]
pub enum TypedCell {
    String(String),
    Integer(i64),
    Float(String),
    Boolean(bool),
    Date(CivilDate),
    DateTime(CivilDateTime),
    Time(CivilTime),
    Guid(u128),
    Decimal(FixedDecimalValue),
    Currency(CurrencyValue),
}

/// The boolean a lowercased word stands for.
pub open spec fn boolean_text(l: Seq<char>) -> Option<bool> {
    if l == "true"@ || l == "t"@ || l == "yes"@ || l == "y"@ || l == "1"@ {
        Some(true)
    } else if l == "false"@ || l == "f"@ || l == "no"@ || l == "n"@ || l == "0"@ {
        Some(false)
    } else {
        None
    }
}

/// The message for a value that does not read as `kind`.
pub open spec fn parse_failure(value: Seq<char>, kind: Seq<char>) -> Seq<char> {
    "Failed to parse '"@ + value + "' as "@ + kind
}

/// What reading the non-empty `value` as `ty` gives.
pub open spec fn typed_value_result(value: Seq<char>, ty: crate::schema::ColumnType, r: Result<
    Option<TypedCell>,
    String,
>) -> bool {
    match ty {
        crate::schema::ColumnType::String => (r matches Ok(Some(TypedCell::String(s))) && s@ == value),
        crate::schema::ColumnType::Integer => if parses_i64(value) {
            (r matches Ok(Some(TypedCell::Integer(i))) && i == i64_literal_value(value))
        } else {
            (r matches Err(e) && e@ == parse_failure(value, "integer"@))
        },
        crate::schema::ColumnType::Float => if float_literal_ok(value) {
            (r matches Ok(Some(TypedCell::Float(s))) && s@ == value)
        } else {
            (r matches Err(e) && e@ == parse_failure(value, "float"@))
        },
        crate::schema::ColumnType::Boolean => match boolean_text(lower_seq(value)) {
            Some(b) => (r matches Ok(Some(TypedCell::Boolean(x))) && x == b),
            None => (r matches Err(e) && e@ == parse_failure(value, "boolean"@)),
        },
        crate::schema::ColumnType::Date => match first_date(value, date_formats()) {
            Some(d) => (r matches Ok(Some(TypedCell::Date(x))) && x == d),
            None => (r matches Err(e) && e@ == parse_failure(value, "date"@)),
        },
        crate::schema::ColumnType::DateTime => match first_datetime(value, datetime_formats()) {
            Some(d) => (r matches Ok(Some(TypedCell::DateTime(x))) && x == d),
            None => (r matches Err(e) && e@ == parse_failure(value, "datetime"@)),
        },
        crate::schema::ColumnType::Time => match first_time(value, time_formats()) {
            Some(d) => (r matches Ok(Some(TypedCell::Time(x))) && x == d),
            None => (r matches Err(e) && e@ == parse_failure(value, "time"@)),
        },
        crate::schema::ColumnType::Guid => match uuid_value(strip_braces(trim(value))) {
            Some(g) => (r matches Ok(Some(TypedCell::Guid(x))) && x == g),
            None => (r matches Err(e) && e@ == parse_failure(value, "GUID"@)),
        },
        crate::schema::ColumnType::Decimal(spec) => match literal_outcome(value, false) {
            Err(e) => (r matches Err(x) && x@ == e),
            Ok(d) => match fixed_decimal_outcome(d, spec, None) {
                Ok(v) => (r matches Ok(Some(TypedCell::Decimal(f))) && f@ == v),
                Err(e) => (r matches Err(x) && x@ == e),
            },
        },
        crate::schema::ColumnType::Currency => match literal_outcome(value, true) {
            Err(e) => (r matches Err(x) && x@ == e),
            Ok(d) => match currency_outcome(d) {
                Ok(a) => (r matches Ok(Some(TypedCell::Currency(c))) && c@ == a),
                Err(_) => (r matches Err(x) && x@ == "Parsing '"@ + value + "' as currency"@),
            },
        },
    }
}

fn parse_failure_message(value: &str, kind: &str) -> (r: String)
    ensures
        r@ == parse_failure(value@, kind@),
{
    let mut m = chars_of(value);
    m.push('\'');
    m.push(' ');
    m.push('a');
    m.push('s');
    m.push(' ');
    crate::text::extend_chars(&mut m, chars_of(kind).as_slice());
    proof {
        reveal_strlit("' as ");
        reveal_strlit("Failed to parse '");
    }
    let r = cat3("Failed to parse '", m.as_slice(), "");
    proof {
        reveal_strlit("");
    }
    assert(r@ =~= parse_failure(value@, kind@));
    r
}

/// Reads a cell as `ty`; an empty cell has no value.
pub fn parse_typed_value(value: &str, ty: &crate::schema::ColumnType) -> (r: Result<Option<TypedCell>, String>)
    requires
        ty matches crate::schema::ColumnType::Decimal(spec) ==> spec.scale <= spec.precision,
    ensures
        value@.len() == 0 ==> (r matches Ok(None)),
        value@.len() > 0 ==> typed_value_result(value@, *ty, r),
{
    if value.is_empty() {
        return Ok(None);
    }
    proof {
        reveal_strlit("integer");
        reveal_strlit("float");
        reveal_strlit("boolean");
        reveal_strlit("date");
        reveal_strlit("datetime");
        reveal_strlit("time");
        reveal_strlit("GUID");
        reveal_strlit("true");
        reveal_strlit("t");
        reveal_strlit("yes");
        reveal_strlit("y");
        reveal_strlit("1");
        reveal_strlit("false");
        reveal_strlit("f");
        reveal_strlit("no");
        reveal_strlit("n");
        reveal_strlit("0");
        reveal_strlit("' as ");
        reveal_strlit("' as date");
        reveal_strlit("' as datetime");
        reveal_strlit("' as time");
    }
    assert(parse_failure(value@, "date"@) =~= "Failed to parse '"@ + value@ + "' as date"@);
    assert(parse_failure(value@, "datetime"@) =~= "Failed to parse '"@ + value@ + "' as datetime"@);
    assert(parse_failure(value@, "time"@) =~= "Failed to parse '"@ + value@ + "' as time"@);
    match ty {
        crate::schema::ColumnType::String => Ok(Some(TypedCell::String(value.to_string()))),
        crate::schema::ColumnType::Integer => {
            let cs = chars_of(value);
            match parse_i64(cs.as_slice()) {
                Some(i) => Ok(Some(TypedCell::Integer(i))),
                None => Err(parse_failure_message(value, "integer")),
            }
        },
        crate::schema::ColumnType::Float => {
            let cs = chars_of(value);
            if float_literal_is_valid(cs.as_slice()) {
                Ok(Some(TypedCell::Float(value.to_string())))
            } else {
                Err(parse_failure_message(value, "float"))
            }
        },
        crate::schema::ColumnType::Boolean => {
            let l = ascii_lower(chars_of(value).as_slice());
            let ls = l.as_slice();
            if str_eq_chars("true", ls) || str_eq_chars("t", ls) || str_eq_chars("yes", ls)
                || str_eq_chars("y", ls) || str_eq_chars("1", ls) {
                assert(boolean_text(lower_seq(value@)) == Some(true));
                Ok(Some(TypedCell::Boolean(true)))
            } else if str_eq_chars("false", ls) || str_eq_chars("f", ls) || str_eq_chars("no", ls)
                || str_eq_chars("n", ls) || str_eq_chars("0", ls) {
                assert(boolean_text(lower_seq(value@)) == Some(false));
                Ok(Some(TypedCell::Boolean(false)))
            } else {
                assert(boolean_text(lower_seq(value@)) is None);
                Err(parse_failure_message(value, "boolean"))
            }
        },
        crate::schema::ColumnType::Date => match parse_naive_date(value) {
            Ok(d) => Ok(Some(TypedCell::Date(d))),
            Err(e) => Err(e),
        },
        crate::schema::ColumnType::DateTime => match parse_naive_datetime(value) {
            Ok(d) => Ok(Some(TypedCell::DateTime(d))),
            Err(e) => Err(e),
        },
        crate::schema::ColumnType::Time => match parse_naive_time(value) {
            Ok(d) => Ok(Some(TypedCell::Time(d))),
            Err(e) => Err(e),
        },
        crate::schema::ColumnType::Guid => match parse_guid(value) {
            Some(g) => Ok(Some(TypedCell::Guid(g))),
            None => Err(parse_failure_message(value, "GUID")),
        },
        crate::schema::ColumnType::Decimal(spec) => match FixedDecimalValue::parse(value, spec) {
            Ok(f) => Ok(Some(TypedCell::Decimal(f))),
            Err(e) => Err(e),
        },
        crate::schema::ColumnType::Currency => match CurrencyValue::parse(value) {
            Ok(c) => Ok(Some(TypedCell::Currency(c))),
            Err(e) => Err(e),
        },
    }
}

} // verus!
