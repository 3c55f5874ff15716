//! Type inference over sampled cell values: the numeric token scanner, the
//! per-column candidate counters and the rule that picks a column type.
use vstd::prelude::*;

use crate::data::{
    date_formats, datetime_formats, first_date, first_datetime, first_time,
    i64_literal_value, is_currency_symbol, is_separator, parse_guid, parse_i64,
    parse_naive_date, parse_naive_datetime, parse_naive_time, parses_i64, strip_braces,
    time_formats, uuid_value,
};
use crate::schema::{ColumnType, DecimalSpec, DECIMAL_MAX_PRECISION};
use crate::text::{
    ascii_lower, char_is_digit, chars_of, is_digit, lower_seq, slice_chars, trim, trim_chars,
};

verus! {

// ---------------------------------------------------------------------------
// Numeric tokens
// ---------------------------------------------------------------------------

/// How a numeric token was classified.
#[derive(Debug, Clone, Copy, PartialEq, Eq, Structural)]
pub enum NumericKind {
    Integer,
    Decimal,
    Float,
}

/// What the scanner learned about one numeric token.
#[derive(Debug, Clone, Copy, PartialEq, Eq, Structural)]
pub struct NumericObservation {
    pub kind: NumericKind,
    pub precision: u32,
    pub scale: u32,
    pub integer_digits: u32,
    pub has_currency_symbol: bool,
    pub fits_currency_scale: bool,
    pub overflow: bool,
}

/// State of the left-to-right scan of a token's characters.
pub struct NumericScan {
    pub mantissa: Seq<char>,
    pub exponent: Seq<char>,
    pub in_exponent: bool,
    pub sign_allowed: bool,
    pub decimal_index: Option<nat>,
    pub currency_symbol: bool,
    pub sign_consumed: bool,
}

pub open spec fn scan_start(paren: bool) -> NumericScan {
    NumericScan {
        mantissa: Seq::empty(),
        exponent: Seq::empty(),
        in_exponent: false,
        sign_allowed: false,
        decimal_index: None,
        currency_symbol: false,
        sign_consumed: paren,
    }
}

/// One character of the scan: digits go to the mantissa (or the exponent
/// after `e`), one `.` marks the decimal position, one sign may lead the
/// mantissa and one may lead the exponent, separators are skipped and a
/// currency symbol is noted. Anything else rejects the token.
pub open spec fn scan_step(s: NumericScan, ch: char) -> Option<NumericScan> {
    if is_digit(ch) {
        if s.in_exponent {
            Some(NumericScan { exponent: s.exponent.push(ch), sign_allowed: false, ..s })
        } else {
            Some(NumericScan { mantissa: s.mantissa.push(ch), sign_allowed: false, ..s })
        }
    } else if ch == '.' {
        if s.in_exponent || s.decimal_index is Some {
            None
        } else {
            Some(
                NumericScan {
                    decimal_index: Some(s.mantissa.len()),
                    sign_allowed: false,
                    ..s
                },
            )
        }
    } else if ch == 'e' || ch == 'E' {
        if s.in_exponent {
            None
        } else {
            Some(NumericScan { in_exponent: true, sign_allowed: true, ..s })
        }
    } else if ch == '+' || ch == '-' {
        if s.in_exponent && s.sign_allowed {
            Some(NumericScan { exponent: s.exponent.push(ch), sign_allowed: false, ..s })
        } else if !s.in_exponent && s.mantissa.len() == 0 && !s.sign_consumed {
            Some(NumericScan { sign_consumed: true, ..s })
        } else {
            None
        }
    } else if is_separator(ch) {
        Some(s)
    } else if is_currency_symbol(ch) {
        Some(NumericScan { currency_symbol: true, ..s })
    } else {
        None
    }
}

pub open spec fn scan_token(b: Seq<char>, start: NumericScan) -> Option<NumericScan>
    decreases b.len(),
{
    if b.len() == 0 {
        Some(start)
    } else {
        match scan_token(b.drop_last(), start) {
            None => None,
            Some(s) => scan_step(s, b.last()),
        }
    }
}

/// A trimmed token wrapped in parentheses (an accounting negative).
pub open spec fn paren_wrapped(t: Seq<char>) -> bool {
    t.len() > 2 && t[0] == '(' && t.last() == ')'
}

/// The characters that are scanned: the trimmed token, without its
/// parentheses, trimmed again.
pub open spec fn numeric_body(value: Seq<char>) -> Seq<char> {
    let t = trim(value);
    if paren_wrapped(t) {
        trim(t.subrange(1, t.len() - 1))
    } else {
        trim(t)
    }
}

/// The value of an exponent, as `str::parse::<i32>` reads it.
pub open spec fn exponent_value(e: Seq<char>) -> Option<int> {
    if parses_i64(e) && i32::MIN <= i64_literal_value(e) <= i32::MAX {
        Some(i64_literal_value(e))
    } else {
        None
    }
}

/// Digits after the decimal point in the mantissa.
pub open spec fn mantissa_scale(s: NumericScan) -> int {
    match s.decimal_index {
        Some(p) => s.mantissa.len() - p,
        None => 0,
    }
}

/// The observation for a completed scan.
pub open spec fn observation_of(s: NumericScan, paren: bool) -> Option<NumericObservation> {
    if s.mantissa.len() == 0 {
        None
    } else if s.decimal_index is None && !s.in_exponent && s.mantissa.len() > 1 && s.mantissa[0]
        == '0' {
        None
    } else {
        let ev = if s.in_exponent {
            exponent_value(s.exponent)
        } else {
            Some(0int)
        };
        match ev {
            None => None,
            Some(e) => observation_from_parts(
                s.mantissa.len() as int,
                mantissa_scale(s),
                s.in_exponent || s.decimal_index is Some,
                e,
                s.currency_symbol || paren,
            ),
        }
    }
}

/// The observation for a mantissa of `n` digits, `mscale` of them after the
/// point, and exponent `e`: the digits are padded with zeros when the
/// exponent moves the point past them.
pub open spec fn observation_from_parts(
    n: int,
    mscale: int,
    fractional: bool,
    e: int,
    symbol: bool,
) -> Option<NumericObservation> {
    let k = mscale - e;
    let scale: int = if k < 0 {
        0
    } else {
        k
    };
    let digits_len: int = if k < 0 {
        n - k
    } else {
        n
    };
    let int_digits: int = if digits_len > scale {
        digits_len - scale
    } else {
        0
    };
    let precision: int = if int_digits == 0 {
        if scale > 1 {
            scale
        } else {
            1
        }
    } else {
        int_digits + scale
    };
    let fits = scale == 0 || scale == 2 || scale == 4;
    let overflow = precision > DECIMAL_MAX_PRECISION || scale > DECIMAL_MAX_PRECISION;
    if fractional || scale > 0 {
        Some(
            NumericObservation {
                kind: NumericKind::Decimal,
                precision: precision as u32,
                scale: scale as u32,
                integer_digits: int_digits as u32,
                has_currency_symbol: symbol,
                fits_currency_scale: fits,
                overflow,
            },
        )
    } else if overflow {
        Some(
            NumericObservation {
                kind: NumericKind::Float,
                precision: 0,
                scale: 0,
                integer_digits: 0,
                has_currency_symbol: symbol,
                fits_currency_scale: false,
                overflow: false,
            },
        )
    } else {
        Some(
            NumericObservation {
                kind: NumericKind::Integer,
                precision: int_digits as u32,
                scale: 0,
                integer_digits: int_digits as u32,
                has_currency_symbol: symbol,
                fits_currency_scale: true,
                overflow: false,
            },
        )
    }
}

/// What `analyze_numeric_token` reports for a value.
pub open spec fn numeric_observation(value: Seq<char>) -> Option<NumericObservation> {
    let t = trim(value);
    let body = numeric_body(value);
    if t.len() == 0 || body.len() == 0 {
        None
    } else {
        match scan_token(body, scan_start(paren_wrapped(t))) {
            None => None,
            Some(s) => observation_of(s, paren_wrapped(t)),
        }
    }
}

/// The token stays within the 32-bit arithmetic the scale is computed in:
/// its body is shorter than 2^31 characters, and the mantissa's scale minus
/// the exponent does not exceed `i32::MAX`.
pub open spec fn numeric_token_fits(value: Seq<char>) -> bool {
    let t = trim(value);
    let body = numeric_body(value);
    &&& body.len() < 0x8000_0000
    &&& match scan_token(body, scan_start(paren_wrapped(t))) {
        Some(s) => (s.in_exponent && exponent_value(s.exponent) is Some) ==> mantissa_scale(s)
            - exponent_value(s.exponent).unwrap() <= i32::MAX,
        None => true,
    }
}

proof fn lemma_scan_none_extends(b: Seq<char>, start: NumericScan, k: int)
    requires
        0 <= k <= b.len(),
        scan_token(b.take(k), start) is None,
    ensures
        scan_token(b, start) is None,
    decreases b.len() - k,
{
    if k < b.len() {
        assert(b.take(k + 1).drop_last() =~= b.take(k));
        lemma_scan_none_extends(b, start, k + 1);
    } else {
        assert(b.take(k) =~= b);
    }
}

/// The characters of a finished scan, as executable values.
struct ScanOutcome {
    mantissa: Vec<char>,
    exponent: Vec<char>,
    in_exponent: bool,
    decimal_index: Option<usize>,
    currency_symbol: bool,
}

spec fn index_view(d: Option<usize>) -> Option<nat> {
    match d {
        Some(p) => Some(p as nat),
        None => None,
    }
}

fn token_body(value: &str) -> (r: (Vec<char>, bool))
    ensures
        r.0@ == numeric_body(value@),
        r.1 == paren_wrapped(trim(value@)),
{
    let raw = chars_of(value);
    let t = trim_chars(raw.as_slice());
    let paren = t.len() > 2 && t[0] == '(' && t[t.len() - 1] == ')';
    if paren {
        let inner = slice_chars(t.as_slice(), 1, t.len() - 1);
        (trim_chars(inner.as_slice()), true)
    } else {
        (trim_chars(t.as_slice()), false)
    }
}

fn scan_body(body: &[char], paren: bool) -> (r: Option<ScanOutcome>)
    ensures
        match scan_token(body@, scan_start(paren)) {
            None => r is None,
            Some(s) => r matches Some(o) && s.mantissa == o.mantissa@ && s.exponent == o.exponent@
                && s.in_exponent == o.in_exponent && s.decimal_index == index_view(o.decimal_index)
                && s.currency_symbol == o.currency_symbol && (o.decimal_index matches Some(p) ==> p
                <= o.mantissa@.len()) && o.mantissa@.len() <= body@.len(),
        },
{
    let ghost start = scan_start(paren);
    let mut mantissa: Vec<char> = Vec::new();
    let mut exponent: Vec<char> = Vec::new();
    let mut in_exp = false;
    let mut sign_allowed = false;
    let mut dot: Option<usize> = None;
    let mut sym = false;
    let mut sign_used = paren;
    assert(body@.take(0) =~= Seq::<char>::empty());
    for i in 0..body.len()
        invariant
            start == scan_start(paren),
            scan_token(body@.take(i as int), start) == Some(
                NumericScan {
                    mantissa: mantissa@,
                    exponent: exponent@,
                    in_exponent: in_exp,
                    sign_allowed,
                    decimal_index: index_view(dot),
                    currency_symbol: sym,
                    sign_consumed: sign_used,
                },
            ),
            mantissa@.len() <= i,
            dot matches Some(p) ==> p <= mantissa@.len(),
    {
        let ch = body[i];
        assert(body@.take(i + 1).drop_last() =~= body@.take(i as int));
        assert(body@.take(i + 1).last() == ch);
        if char_is_digit(ch) {
            if in_exp {
                exponent.push(ch);
            } else {
                mantissa.push(ch);
            }
            sign_allowed = false;
        } else if ch == '.' {
            if in_exp || dot.is_some() {
                proof {
                    lemma_scan_none_extends(body@, start, i + 1);
                }
                return None;
            }
            dot = Some(mantissa.len());
            sign_allowed = false;
        } else if ch == 'e' || ch == 'E' {
            if in_exp {
                proof {
                    lemma_scan_none_extends(body@, start, i + 1);
                }
                return None;
            }
            in_exp = true;
            sign_allowed = true;
        } else if ch == '+' || ch == '-' {
            if in_exp && sign_allowed {
                exponent.push(ch);
                sign_allowed = false;
            } else if !in_exp && mantissa.len() == 0 && !sign_used {
                sign_used = true;
            } else {
                proof {
                    lemma_scan_none_extends(body@, start, i + 1);
                }
                return None;
            }
        } else if ch == ',' || ch == '_' || ch == ' ' {
        } else if ch == '$' || ch == '€' || ch == '£' || ch == '¥' {
            sym = true;
        } else {
            proof {
                lemma_scan_none_extends(body@, start, i + 1);
            }
            return None;
        }
    }
    assert(body@.take(body@.len() as int) =~= body@);
    Some(
        ScanOutcome {
            mantissa,
            exponent,
            in_exponent: in_exp,
            decimal_index: dot,
            currency_symbol: sym,
        },
    )
}

/// Whether `value` can be analyzed (see `numeric_token_fits`).
pub fn numeric_token_in_range(value: &str) -> (r: bool)
    ensures
        r == numeric_token_fits(value@),
{
    let (body, paren) = token_body(value);
    if body.len() >= 0x8000_0000 {
        return false;
    }
    match scan_body(body.as_slice(), paren) {
        None => true,
        Some(o) => {
            if !o.in_exponent {
                return true;
            }
            match parse_i64(o.exponent.as_slice()) {
                None => true,
                Some(e) => {
                    if e < -2147483648 || e > 2147483647 {
                        return true;
                    }
                    let mscale: i64 = match o.decimal_index {
                        Some(p) => (o.mantissa.len() - p) as i64,
                        None => 0,
                    };
                    mscale - e <= 2147483647
                },
            }
        },
    }
}

/// Classifies a numeric token: an integer, a decimal with its precision and
/// scale, or (an integer too long for a decimal) a float; `None` when the
/// token is not numeric.
pub fn analyze_numeric_token(value: &str) -> (r: Option<NumericObservation>)
    requires
        numeric_token_fits(value@),
    ensures
        r == numeric_observation(value@),
{
    let (body, paren) = token_body(value);
    if body.len() == 0 {
        return None;
    }
    let o = match scan_body(body.as_slice(), paren) {
        None => {
            return None;
        },
        Some(o) => o,
    };
    let n = o.mantissa.len();
    if n == 0 {
        return None;
    }
    if o.decimal_index.is_none() && !o.in_exponent && n > 1 && o.mantissa[0] == '0' {
        return None;
    }
    let e: i64 = if o.in_exponent {
        match parse_i64(o.exponent.as_slice()) {
            Some(v) => {
                if v < -2147483648 || v > 2147483647 {
                    return None;
                }
                v
            },
            None => {
                return None;
            },
        }
    } else {
        0
    };
    let mscale: i64 = match o.decimal_index {
        Some(p) => (n - p) as i64,
        None => 0,
    };
    observe_parts(
        n as u64,
        mscale,
        o.in_exponent || o.decimal_index.is_some(),
        e,
        o.currency_symbol || paren,
    )
}

fn observe_parts(n: u64, mscale: i64, fractional: bool, e: i64, symbol: bool) -> (r: Option<
    NumericObservation,
>)
    requires
        n < 0x8000_0000,
        0 <= mscale <= n,
        i32::MIN <= e <= i32::MAX,
        mscale - e <= i32::MAX,
    ensures
        r == observation_from_parts(n as int, mscale as int, fractional, e as int, symbol),
{
    let k: i64 = mscale - e;
    let scale: u64 = if k < 0 {
        0
    } else {
        k as u64
    };
    let digits_len: u64 = if k < 0 {
        n + (0 - k) as u64
    } else {
        n
    };
    let int_digits: u64 = if digits_len > scale {
        digits_len - scale
    } else {
        0
    };
    let precision: u64 = if int_digits == 0 {
        if scale > 1 {
            scale
        } else {
            1
        }
    } else {
        int_digits + scale
    };
    let fits = scale == 0 || scale == 2 || scale == 4;
    let overflow = precision > 28 || scale > 28;
    if fractional || scale > 0 {
        Some(
            NumericObservation {
                kind: NumericKind::Decimal,
                precision: precision as u32,
                scale: scale as u32,
                integer_digits: int_digits as u32,
                has_currency_symbol: symbol,
                fits_currency_scale: fits,
                overflow,
            },
        )
    } else if overflow {
        Some(
            NumericObservation {
                kind: NumericKind::Float,
                precision: 0,
                scale: 0,
                integer_digits: 0,
                has_currency_symbol: symbol,
                fits_currency_scale: false,
                overflow: false,
            },
        )
    } else {
        Some(
            NumericObservation {
                kind: NumericKind::Integer,
                precision: int_digits as u32,
                scale: 0,
                integer_digits: int_digits as u32,
                has_currency_symbol: symbol,
                fits_currency_scale: true,
                overflow: false,
            },
        )
    }
}

// ---------------------------------------------------------------------------
// Placeholder tokens
// ---------------------------------------------------------------------------

/// `s` without its leading `#` characters.
pub open spec fn strip_leading_hashes(s: Seq<char>) -> Seq<char>
    decreases s.len(),
{
    if s.len() > 0 && s[0] == '#' {
        strip_leading_hashes(s.subrange(1, s.len() as int))
    } else {
        s
    }
}

/// Lowercased tokens that stand for a missing value: `na`, `n/a`, `n.a.`,
/// `null`, `none`, `unknown`, `missing`, anything starting with `invalid`,
/// or dashes only, each after leading `#` characters are dropped.
pub open spec fn is_placeholder_seq(lowered: Seq<char>) -> bool {
    let s = strip_leading_hashes(lowered);
    ||| s == "na"@
    ||| s == "n/a"@
    ||| s == "n.a."@
    ||| s == "null"@
    ||| s == "none"@
    ||| s == "unknown"@
    ||| s == "missing"@
    ||| crate::schema::has_prefix(s, "invalid"@)
    ||| forall|i: int| 0 <= i < s.len() ==> s[i] == '-'
}

pub fn is_placeholder_token(lowered: &[char]) -> (r: bool)
    ensures
        r == is_placeholder_seq(lowered@),
{
    let mut a: usize = 0;
    assert(lowered@.subrange(0, lowered@.len() as int) =~= lowered@);
    while a < lowered.len() && lowered[a] == '#'
        invariant
            a <= lowered@.len(),
            strip_leading_hashes(lowered@) == strip_leading_hashes(
                lowered@.subrange(a as int, lowered@.len() as int),
            ),
        decreases lowered.len() - a,
    {
        let ghost cur = lowered@.subrange(a as int, lowered@.len() as int);
        assert(cur.subrange(1, cur.len() as int) =~= lowered@.subrange(a + 1, lowered@.len() as int));
        a += 1;
    }
    let s = slice_chars(lowered, a, lowered.len());
    let ss = s.as_slice();
    assert(strip_leading_hashes(s@) == s@);
    if crate::text::str_eq_chars("na", ss) || crate::text::str_eq_chars("n/a", ss)
        || crate::text::str_eq_chars("n.a.", ss) || crate::text::str_eq_chars("null", ss)
        || crate::text::str_eq_chars("none", ss) || crate::text::str_eq_chars("unknown", ss)
        || crate::text::str_eq_chars("missing", ss) {
        return true;
    }
    let inv = chars_of("invalid");
    if crate::text::starts_with(ss, inv.as_slice()) {
        return true;
    }
    all_dashes(ss)
}

fn all_dashes(s: &[char]) -> (r: bool)
    ensures
        r == forall|i: int| 0 <= i < s@.len() ==> s@[i] == '-',
{
    for i in 0..s.len()
        invariant
            forall|j: int| 0 <= j < i ==> s@[j] == '-',
    {
        if s[i] != '-' {
            return false;
        }
    }
    true
}

/// The trimmed value when it is a placeholder token.
pub open spec fn placeholder_token(value: Seq<char>) -> Option<Seq<char>> {
    let t = trim(value);
    if t.len() > 0 && is_placeholder_seq(lower_seq(t)) {
        Some(t)
    } else {
        None
    }
}

pub fn placeholder_token_original(value: &str) -> (r: Option<String>)
    ensures
        match placeholder_token(value@) {
            Some(t) => r matches Some(s) && s@ == t,
            None => r is None,
        },
{
    let raw = chars_of(value);
    let t = trim_chars(raw.as_slice());
    if t.len() == 0 {
        return None;
    }
    let l = ascii_lower(t.as_slice());
    if is_placeholder_token(l.as_slice()) {
        Some(crate::text::string_of(t.as_slice()))
    } else {
        None
    }
}

// ---------------------------------------------------------------------------
// Type candidates
// ---------------------------------------------------------------------------

/// Per-column counters of how many sampled values each type accepts.
#[derive(Debug, Clone, Copy, PartialEq, Eq, Structural)]
pub struct TypeCandidate {
    pub non_empty: usize,
    pub boolean_matches: usize,
    pub integer_matches: usize,
    pub integer_max_digits: u32,
    pub float_matches: usize,
    pub decimal_matches: usize,
    pub decimal_max_precision: u32,
    pub decimal_max_scale: u32,
    pub decimal_max_integer_digits: u32,
    pub decimal_precision_overflow: bool,
    pub date_matches: usize,
    pub datetime_matches: usize,
    pub time_matches: usize,
    pub guid_matches: usize,
    pub currency_matches: usize,
    pub currency_symbol_hits: usize,
    pub unclassified: usize,
}

/// Every counter is bounded by the number of values counted.
pub open spec fn candidate_wf(c: TypeCandidate) -> bool {
    &&& c.boolean_matches <= c.non_empty
    &&& c.integer_matches <= c.non_empty
    &&& c.float_matches <= c.non_empty
    &&& c.decimal_matches <= c.non_empty
    &&& c.date_matches <= c.non_empty
    &&& c.datetime_matches <= c.non_empty
    &&& c.time_matches <= c.non_empty
    &&& c.guid_matches <= c.non_empty
    &&& c.currency_matches <= c.non_empty
    &&& c.currency_symbol_hits <= c.non_empty
    &&& c.unclassified <= c.non_empty
}

pub open spec fn empty_candidate() -> TypeCandidate {
    TypeCandidate {
        non_empty: 0,
        boolean_matches: 0,
        integer_matches: 0,
        integer_max_digits: 0,
        float_matches: 0,
        decimal_matches: 0,
        decimal_max_precision: 0,
        decimal_max_scale: 0,
        decimal_max_integer_digits: 0,
        decimal_precision_overflow: false,
        date_matches: 0,
        datetime_matches: 0,
        time_matches: 0,
        guid_matches: 0,
        currency_matches: 0,
        currency_symbol_hits: 0,
        unclassified: 0,
    }
}

/// The boolean words.
pub open spec fn is_boolean_word(l: Seq<char>) -> bool {
    ||| l == "true"@
    ||| l == "false"@
    ||| l == "t"@
    ||| l == "f"@
    ||| l == "yes"@
    ||| l == "no"@
    ||| l == "y"@
    ||| l == "n"@
}

pub fn boolean_word(l: &[char]) -> (r: bool)
    ensures
        r == is_boolean_word(l@),
{
    crate::text::str_eq_chars("true", l) || crate::text::str_eq_chars("false", l)
        || crate::text::str_eq_chars("t", l) || crate::text::str_eq_chars("f", l)
        || crate::text::str_eq_chars("yes", l) || crate::text::str_eq_chars("no", l)
        || crate::text::str_eq_chars("y", l) || crate::text::str_eq_chars("n", l)
}

pub open spec fn max_u32(a: u32, b: u32) -> u32 {
    if a >= b {
        a
    } else {
        b
    }
}

pub open spec fn inc(x: usize) -> usize {
    (x + 1) as usize
}

/// The counters after one numeric observation.
pub open spec fn record_numeric(c: TypeCandidate, o: NumericObservation) -> TypeCandidate {
    let c1 = match o.kind {
        NumericKind::Integer => TypeCandidate {
            integer_matches: inc(c.integer_matches),
            integer_max_digits: max_u32(c.integer_max_digits, o.integer_digits),
            currency_matches: if o.fits_currency_scale {
                inc(c.currency_matches)
            } else {
                c.currency_matches
            },
            ..c
        },
        NumericKind::Decimal => TypeCandidate {
            decimal_matches: inc(c.decimal_matches),
            decimal_max_precision: max_u32(c.decimal_max_precision, o.precision),
            decimal_max_scale: max_u32(c.decimal_max_scale, o.scale),
            decimal_max_integer_digits: max_u32(c.decimal_max_integer_digits, o.integer_digits),
            currency_matches: if o.fits_currency_scale {
                inc(c.currency_matches)
            } else {
                c.currency_matches
            },
            decimal_precision_overflow: c.decimal_precision_overflow || o.overflow,
            float_matches: if o.overflow {
                inc(c.float_matches)
            } else {
                c.float_matches
            },
            ..c
        },
        NumericKind::Float => TypeCandidate { float_matches: inc(c.float_matches), ..c },
    };
    if o.has_currency_symbol {
        TypeCandidate { currency_symbol_hits: inc(c1.currency_symbol_hits), ..c1 }
    } else {
        c1
    }
}

/// The counters after one sampled value. Empty values and placeholders are
/// not counted; a value is tried as a boolean word and as a number, and
/// only when neither accepts it as a date, a date-time, a time and a GUID
/// in turn (the first that accepts it counts); one that nothing accepts is
/// unclassified.
pub open spec fn candidate_update(c: TypeCandidate, value: Seq<char>) -> TypeCandidate {
    let t = trim(value);
    let l = lower_seq(t);
    if t.len() == 0 || is_placeholder_seq(l) {
        c
    } else {
        let c1 = TypeCandidate { non_empty: inc(c.non_empty), ..c };
        let b = is_boolean_word(l);
        let c2 = if b {
            TypeCandidate { boolean_matches: inc(c1.boolean_matches), ..c1 }
        } else {
            c1
        };
        let obs = numeric_observation(t);
        let c3 = match obs {
            Some(o) => record_numeric(c2, o),
            None => c2,
        };
        let p1 = b || obs is Some;
        let date = !p1 && first_date(t, date_formats()) is Some;
        let c4 = if date {
            TypeCandidate { date_matches: inc(c3.date_matches), ..c3 }
        } else {
            c3
        };
        let p2 = p1 || date;
        let dt = !p2 && first_datetime(t, datetime_formats()) is Some;
        let c5 = if dt {
            TypeCandidate { datetime_matches: inc(c4.datetime_matches), ..c4 }
        } else {
            c4
        };
        let p3 = p2 || dt;
        let tm = !p3 && first_time(t, time_formats()) is Some;
        let c6 = if tm {
            TypeCandidate { time_matches: inc(c5.time_matches), ..c5 }
        } else {
            c5
        };
        let p4 = p3 || tm;
        let g = !p4 && uuid_value(strip_braces(t)) is Some;
        let c7 = if g {
            TypeCandidate { guid_matches: inc(c6.guid_matches), ..c6 }
        } else {
            c6
        };
        let p5 = p4 || g;
        if !p5 {
            TypeCandidate { unclassified: inc(c7.unclassified), ..c7 }
        } else {
            c7
        }
    }
}

/// `a * b`, saturated at `usize::MAX`.
pub open spec fn sat_mul(a: int, b: int) -> int {
    if a * b > usize::MAX {
        usize::MAX as int
    } else {
        a * b
    }
}

fn saturating_mul(a: usize, b: usize) -> (r: usize)
    ensures
        r == sat_mul(a as int, b as int),
{
    match a.checked_mul(b) {
        Some(v) => v,
        None => usize::MAX,
    }
}

/// More than half of the counted values.
pub open spec fn is_majority(c: TypeCandidate, count: usize) -> bool {
    count > 0 && count * 2 > c.non_empty
}

/// At least 30% of the counted values carried a currency symbol.
pub open spec fn symbol_ratio_met(c: TypeCandidate) -> bool {
    c.non_empty != 0 && sat_mul(c.currency_symbol_hits as int, 100) >= sat_mul(
        c.non_empty as int,
        30,
    )
}

pub open spec fn promotes_currency(c: TypeCandidate) -> bool {
    c.currency_matches > 0 && c.currency_matches == c.non_empty && symbol_ratio_met(c)
}

/// The decimal type that holds every decimal and integer seen, if one does.
pub open spec fn candidate_decimal_spec(c: TypeCandidate) -> Option<DecimalSpec> {
    if c.decimal_matches == 0 || c.decimal_precision_overflow {
        None
    } else {
        let scale: int = if c.decimal_max_scale <= DECIMAL_MAX_PRECISION {
            c.decimal_max_scale as int
        } else {
            DECIMAL_MAX_PRECISION as int
        };
        let digits: int = max_u32(c.decimal_max_integer_digits, c.integer_max_digits) as int;
        let p0: int = if digits == 0 {
            if scale > 1 {
                scale
            } else {
                1
            }
        } else {
            digits + scale
        };
        let p: int = if p0 >= c.decimal_max_precision {
            p0
        } else {
            c.decimal_max_precision as int
        };
        if p > DECIMAL_MAX_PRECISION {
            None
        } else {
            Some(DecimalSpec { precision: p as u32, scale: scale as u32 })
        }
    }
}

/// The type chosen for a column from its counters.
pub open spec fn candidate_decision(c: TypeCandidate) -> ColumnType {
    if c.non_empty == 0 || c.unclassified > 0 {
        ColumnType::String
    } else if is_majority(c, c.boolean_matches) {
        ColumnType::Boolean
    } else if promotes_currency(c) {
        ColumnType::Currency
    } else if candidate_decimal_spec(c) is Some {
        ColumnType::Decimal(candidate_decimal_spec(c).unwrap())
    } else if c.decimal_matches > 0 {
        ColumnType::Float
    } else if is_majority(c, c.integer_matches) {
        ColumnType::Integer
    } else if is_majority(c, c.currency_matches) && c.currency_symbol_hits > 0 {
        ColumnType::Currency
    } else if is_majority(c, c.float_matches) {
        ColumnType::Float
    } else if is_majority(c, c.date_matches) {
        ColumnType::Date
    } else if is_majority(c, c.datetime_matches) {
        ColumnType::DateTime
    } else if is_majority(c, c.time_matches) {
        ColumnType::Time
    } else if is_majority(c, c.guid_matches) {
        ColumnType::Guid
    } else {
        ColumnType::String
    }
}

fn max32(a: u32, b: u32) -> (r: u32)
    ensures
        r == max_u32(a, b),
{
    if a >= b {
        a
    } else {
        b
    }
}

impl TypeCandidate {
    pub fn new() -> (r: Self)
        ensures
            r == empty_candidate(),
    {
        TypeCandidate {
            non_empty: 0,
            boolean_matches: 0,
            integer_matches: 0,
            integer_max_digits: 0,
            float_matches: 0,
            decimal_matches: 0,
            decimal_max_precision: 0,
            decimal_max_scale: 0,
            decimal_max_integer_digits: 0,
            decimal_precision_overflow: false,
            date_matches: 0,
            datetime_matches: 0,
            time_matches: 0,
            guid_matches: 0,
            currency_matches: 0,
            currency_symbol_hits: 0,
            unclassified: 0,
        }
    }

    fn record_numeric(&mut self, o: NumericObservation)
        requires
            old(self).integer_matches < usize::MAX,
            old(self).decimal_matches < usize::MAX,
            old(self).float_matches < usize::MAX,
            old(self).currency_matches < usize::MAX,
            old(self).currency_symbol_hits < usize::MAX,
        ensures
            *final(self) == record_numeric(*old(self), o),
    {
        match o.kind {
            NumericKind::Integer => {
                self.integer_matches = self.integer_matches + 1;
                self.integer_max_digits = max32(self.integer_max_digits, o.integer_digits);
                if o.fits_currency_scale {
                    self.currency_matches = self.currency_matches + 1;
                }
            },
            NumericKind::Decimal => {
                self.decimal_matches = self.decimal_matches + 1;
                self.decimal_max_precision = max32(self.decimal_max_precision, o.precision);
                self.decimal_max_scale = max32(self.decimal_max_scale, o.scale);
                self.decimal_max_integer_digits = max32(
                    self.decimal_max_integer_digits,
                    o.integer_digits,
                );
                if o.fits_currency_scale {
                    self.currency_matches = self.currency_matches + 1;
                }
                if o.overflow {
                    self.decimal_precision_overflow = true;
                    self.float_matches = self.float_matches + 1;
                }
            },
            NumericKind::Float => {
                self.float_matches = self.float_matches + 1;
            },
        }
        if o.has_currency_symbol {
            self.currency_symbol_hits = self.currency_symbol_hits + 1;
        }
    }

    /// Counts one sampled value.
    pub fn update(&mut self, value: &str)
        requires
            candidate_wf(*old(self)),
            old(self).non_empty < usize::MAX,
            numeric_token_fits(value@),
        ensures
            *final(self) == candidate_update(*old(self), value@),
            candidate_wf(*final(self)),
    {
        let raw = chars_of(value);
        let t = trim_chars(raw.as_slice());
        if t.len() == 0 {
            return;
        }
        let l = ascii_lower(t.as_slice());
        if is_placeholder_token(l.as_slice()) {
            return;
        }
        proof {
            crate::text::lemma_trim_idempotent(value@);
        }
        self.non_empty = self.non_empty + 1;
        let mut parsed = false;
        if boolean_word(l.as_slice()) {
            self.boolean_matches = self.boolean_matches + 1;
            parsed = true;
        }
        let ts = crate::text::string_of(t.as_slice());
        assert(numeric_body(ts@) == numeric_body(value@));
        match analyze_numeric_token(ts.as_str()) {
            Some(o) => {
                parsed = true;
                self.record_numeric(o);
            },
            None => {},
        }
        if !parsed && parse_naive_date(ts.as_str()).is_ok() {
            self.date_matches = self.date_matches + 1;
            parsed = true;
        }
        if !parsed && parse_naive_datetime(ts.as_str()).is_ok() {
            self.datetime_matches = self.datetime_matches + 1;
            parsed = true;
        }
        if !parsed && parse_naive_time(ts.as_str()).is_ok() {
            self.time_matches = self.time_matches + 1;
            parsed = true;
        }
        if !parsed && parse_guid(ts.as_str()).is_some() {
            self.guid_matches = self.guid_matches + 1;
            parsed = true;
        }
        if !parsed {
            self.unclassified = self.unclassified + 1;
        }
    }

    pub fn majority(&self, count: usize) -> (r: bool)
        ensures
            r == is_majority(*self, count),
    {
        count > 0 && (count as u128) * 2 > self.non_empty as u128
    }

    pub fn currency_symbol_ratio_meets_threshold(&self) -> (r: bool)
        ensures
            r == symbol_ratio_met(*self),
    {
        if self.non_empty == 0 {
            return false;
        }
        saturating_mul(self.currency_symbol_hits, 100) >= saturating_mul(self.non_empty, 30)
    }

    pub fn should_promote_currency(&self) -> (r: bool)
        ensures
            r == promotes_currency(*self),
    {
        self.currency_matches > 0 && self.currency_matches == self.non_empty
            && self.currency_symbol_ratio_meets_threshold()
    }

    pub fn decimal_spec(&self) -> (r: Option<DecimalSpec>)
        ensures
            r == candidate_decimal_spec(*self),
    {
        if self.decimal_matches == 0 || self.decimal_precision_overflow {
            return None;
        }
        let scale: u64 = if self.decimal_max_scale <= 28 {
            self.decimal_max_scale as u64
        } else {
            28
        };
        let digits: u64 = max32(self.decimal_max_integer_digits, self.integer_max_digits) as u64;
        let p0: u64 = if digits == 0 {
            if scale > 1 {
                scale
            } else {
                1
            }
        } else {
            digits + scale
        };
        let p: u64 = if p0 >= self.decimal_max_precision as u64 {
            p0
        } else {
            self.decimal_max_precision as u64
        };
        if p > 28 {
            return None;
        }
        match DecimalSpec::new(p as u32, scale as u32) {
            Ok(spec) => Some(spec),
            Err(_) => None,
        }
    }

    /// The column type the counters call for.
    pub fn decide(&self) -> (r: ColumnType)
        ensures
            r == candidate_decision(*self),
    {
        if self.non_empty == 0 || self.unclassified > 0 {
            return ColumnType::String;
        }
        let promote = self.should_promote_currency();
        if self.majority(self.boolean_matches) {
            ColumnType::Boolean
        } else if promote {
            ColumnType::Currency
        } else if let Some(spec) = self.decimal_spec() {
            ColumnType::Decimal(spec)
        } else if self.decimal_matches > 0 {
            ColumnType::Float
        } else if self.majority(self.integer_matches) {
            ColumnType::Integer
        } else if self.majority(self.currency_matches) && self.currency_symbol_hits > 0 {
            ColumnType::Currency
        } else if self.majority(self.float_matches) {
            ColumnType::Float
        } else if self.majority(self.date_matches) {
            ColumnType::Date
        } else if self.majority(self.datetime_matches) {
            ColumnType::DateTime
        } else if self.majority(self.time_matches) {
            ColumnType::Time
        } else if self.majority(self.guid_matches) {
            ColumnType::Guid
        } else {
            ColumnType::String
        }
    }
}

// ---------------------------------------------------------------------------
// Format hints
// ---------------------------------------------------------------------------

/// A short description of how a sampled value of the column is written;
/// none for strings or without a sample.
pub open spec fn format_hint(datatype: ColumnType, sample: Option<Seq<char>>) -> Option<Seq<char>> {
    match sample {
        None => None,
        Some(s) => match datatype {
            ColumnType::DateTime => Some(
                if s.contains('T') {
                    "ISO 8601 date-time"@
                } else if s.contains('/') {
                    "Slash-separated date-time"@
                } else if s.contains('-') {
                    "Hyphen-separated date-time"@
                } else {
                    "Date-time without delimiter hints"@
                },
            ),
            ColumnType::Date => Some(
                if s.contains('/') {
                    "Slash-separated date"@
                } else if s.contains('-') {
                    "Hyphen-separated date"@
                } else if s.contains('.') {
                    "Dot-separated date"@
                } else {
                    "Date without delimiter hints"@
                },
            ),
            ColumnType::Time => Some(
                if s.contains('.') {
                    "Time with fractional seconds"@
                } else {
                    "Colon-separated time"@
                },
            ),
            ColumnType::Boolean => {
                let n = lower_seq(trim(s));
                Some(
                    if n == "true"@ || n == "false"@ || n == "t"@ || n == "f"@ {
                        "Boolean (true/false tokens)"@
                    } else if n == "yes"@ || n == "no"@ || n == "y"@ || n == "n"@ {
                        "Boolean (yes/no tokens)"@
                    } else if n == "1"@ || n == "0"@ {
                        "Boolean (1/0 tokens)"@
                    } else {
                        "Boolean (mixed tokens)"@
                    },
                )
            },
            ColumnType::Float => Some(
                if s.contains('$') || s.contains('€') || s.contains('£') || s.contains('¥') {
                    "Currency symbol detected"@
                } else if s.contains(',') {
                    "Thousands separator present"@
                } else if s.contains('.') {
                    "Decimal point"@
                } else {
                    "Floating number without decimal point"@
                },
            ),
            ColumnType::Decimal(spec) => Some(
                "Fixed decimal (precision "@ + crate::text::nat_to_seq(spec.precision as nat)
                    + ", scale "@ + crate::text::nat_to_seq(spec.scale as nat) + ")"@,
            ),
            ColumnType::Currency => Some("Currency amount (2 or 4 decimal places)"@),
            ColumnType::Integer => Some(
                if s.len() > 1 && s[0] == '0' {
                    "Leading zeros preserved"@
                } else {
                    "Whole number"@
                },
            ),
            ColumnType::Guid => Some(
                if s.contains('{') || s.contains('}') {
                    "GUID with braces"@
                } else if s.contains('-') {
                    "Canonical GUID"@
                } else {
                    "GUID without separators"@
                },
            ),
            ColumnType::String => None,
        },
    }
}

/// The text of an optional string slice.
pub open spec fn opt_str_view(o: Option<&str>) -> Option<Seq<char>> {
    match o {
        Some(x) => Some(x@),
        None => None,
    }
}

fn has_char(s: &[char], c: char) -> (r: bool)
    ensures
        r == s@.contains(c),
{
    crate::text::contains_char(s, c)
}

pub fn format_hint_for(datatype: &ColumnType, sample: Option<&str>) -> (r: Option<String>)
    ensures
        r matches Some(h) ==> format_hint(*datatype, opt_str_view(sample)) == Some(h@),
        r is None ==> format_hint(*datatype, opt_str_view(sample)) is None,
{
    let sample = match sample {
        None => {
            return None;
        },
        Some(x) => x,
    };
    let cs = chars_of(sample);
    let c = cs.as_slice();
    match datatype {
        ColumnType::DateTime => {
            if has_char(c, 'T') {
                Some("ISO 8601 date-time".to_string())
            } else if has_char(c, '/') {
                Some("Slash-separated date-time".to_string())
            } else if has_char(c, '-') {
                Some("Hyphen-separated date-time".to_string())
            } else {
                Some("Date-time without delimiter hints".to_string())
            }
        },
        ColumnType::Date => {
            if has_char(c, '/') {
                Some("Slash-separated date".to_string())
            } else if has_char(c, '-') {
                Some("Hyphen-separated date".to_string())
            } else if has_char(c, '.') {
                Some("Dot-separated date".to_string())
            } else {
                Some("Date without delimiter hints".to_string())
            }
        },
        ColumnType::Time => {
            if has_char(c, '.') {
                Some("Time with fractional seconds".to_string())
            } else {
                Some("Colon-separated time".to_string())
            }
        },
        ColumnType::Boolean => {
            let t = trim_chars(c);
            let n = ascii_lower(t.as_slice());
            let ns = n.as_slice();
            if crate::text::str_eq_chars("true", ns) || crate::text::str_eq_chars("false", ns)
                || crate::text::str_eq_chars("t", ns) || crate::text::str_eq_chars("f", ns) {
                Some("Boolean (true/false tokens)".to_string())
            } else if crate::text::str_eq_chars("yes", ns) || crate::text::str_eq_chars("no", ns)
                || crate::text::str_eq_chars("y", ns) || crate::text::str_eq_chars("n", ns) {
                Some("Boolean (yes/no tokens)".to_string())
            } else if crate::text::str_eq_chars("1", ns) || crate::text::str_eq_chars("0", ns) {
                Some("Boolean (1/0 tokens)".to_string())
            } else {
                Some("Boolean (mixed tokens)".to_string())
            }
        },
        ColumnType::Float => {
            if has_char(c, '$') || has_char(c, '€') || has_char(c, '£') || has_char(c, '¥') {
                Some("Currency symbol detected".to_string())
            } else if has_char(c, ',') {
                Some("Thousands separator present".to_string())
            } else if has_char(c, '.') {
                Some("Decimal point".to_string())
            } else {
                Some("Floating number without decimal point".to_string())
            }
        },
        ColumnType::Decimal(spec) => {
            let p = crate::text::usize_to_chars(spec.precision as usize);
            let s = crate::text::usize_to_chars(spec.scale as usize);
            Some(
                crate::text::cat5(
                    "Fixed decimal (precision ",
                    p.as_slice(),
                    ", scale ",
                    s.as_slice(),
                    ")",
                ),
            )
        },
        ColumnType::Currency => Some("Currency amount (2 or 4 decimal places)".to_string()),
        ColumnType::Integer => {
            if c.len() > 1 && c[0] == '0' {
                Some("Leading zeros preserved".to_string())
            } else {
                Some("Whole number".to_string())
            }
        },
        ColumnType::Guid => {
            if has_char(c, '{') || has_char(c, '}') {
                Some("GUID with braces".to_string())
            } else if has_char(c, '-') {
                Some("Canonical GUID".to_string())
            } else {
                Some("GUID without separators".to_string())
            }
        },
        ColumnType::String => None,
    }
}

// ---------------------------------------------------------------------------
// Laws
// ---------------------------------------------------------------------------

/// Empty values and placeholder tokens leave a column's counters as they
/// were, so they never decide its type.
pub proof fn law_placeholders_not_counted(c: TypeCandidate, value: Seq<char>)
    requires
        trim(value).len() == 0 || placeholder_token(value) is Some,
    ensures
        candidate_update(c, value) == c,
{
}

/// A column with no counted value is a string column.
pub proof fn law_no_values_means_string()
    ensures
        candidate_decision(empty_candidate()) == ColumnType::String,
{
}

/// Counting a value keeps every counter within the number of values
/// counted.
pub proof fn law_update_keeps_counters_bounded(c: TypeCandidate, value: Seq<char>)
    requires
        candidate_wf(c),
        c.non_empty < usize::MAX,
    ensures
        candidate_wf(candidate_update(c, value)),
{
}

/// A counted value (not blank, not a placeholder) raises the number of
/// counted values by one, and lands in exactly one of the date, date-time,
/// time, GUID and unclassified counters unless it was read as a boolean
/// word or a number, in which case it lands in none of them.
pub proof fn law_update_counts_one_value(c: TypeCandidate, value: Seq<char>)
    requires
        candidate_wf(c),
        c.non_empty < usize::MAX,
        trim(value).len() > 0,
        placeholder_token(value) is None,
    ensures
        ({
            let n = candidate_update(c, value);
            let t = trim(value);
            let read_early = is_boolean_word(lower_seq(t)) || numeric_observation(t) is Some;
            &&& n.non_empty == c.non_empty + 1
            &&& (n.date_matches - c.date_matches) + (n.datetime_matches - c.datetime_matches)
                + (n.time_matches - c.time_matches) + (n.guid_matches - c.guid_matches)
                + (n.unclassified - c.unclassified) == if read_early {
                0int
            } else {
                1int
            }
        }),
{
}

/// The decided type is read by a majority: a column decided as a boolean,
/// an integer, a date, a date-time, a time or a GUID column has more than
/// half of its counted values accepted as that type.
pub proof fn law_decision_has_majority(c: TypeCandidate)
    ensures
        candidate_decision(c) == ColumnType::Boolean ==> c.boolean_matches * 2 > c.non_empty,
        candidate_decision(c) == ColumnType::Integer ==> c.integer_matches * 2 > c.non_empty,
        candidate_decision(c) == ColumnType::Date ==> c.date_matches * 2 > c.non_empty,
        candidate_decision(c) == ColumnType::DateTime ==> c.datetime_matches * 2 > c.non_empty,
        candidate_decision(c) == ColumnType::Time ==> c.time_matches * 2 > c.non_empty,
        candidate_decision(c) == ColumnType::Guid ==> c.guid_matches * 2 > c.non_empty,
        candidate_decision(c) == ColumnType::Currency ==> c.currency_matches * 2 > c.non_empty
            && c.currency_symbol_hits > 0,
        candidate_decision(c) == ColumnType::Float ==> c.decimal_matches > 0 || c.float_matches * 2
            > c.non_empty,
        candidate_decision(c) is Decimal ==> c.decimal_matches > 0 && !c.decimal_precision_overflow,
        c.non_empty == 0 || c.unclassified > 0 ==> candidate_decision(c) == ColumnType::String,
        c.non_empty > 0 && c.unclassified == 0 && c.boolean_matches * 2 > c.non_empty
            ==> candidate_decision(c) == ColumnType::Boolean,
{
    if promotes_currency(c) {
        if c.currency_symbol_hits == 0 {
            assert(sat_mul(0, 100) == 0);
            assert(c.non_empty as int * 30 > 0) by (nonlinear_arith)
                requires
                    c.non_empty > 0,
            ;
        }
    }
}

/// A column whose counted values were neither booleans nor numbers and
/// were all read as one temporal or GUID kind is decided as that kind:
/// all dates give a date column; with no dates, all date-times a date-time
/// column; with neither, all times a time column; with none of these, all
/// GUIDs a GUID column.
pub proof fn law_single_kind_decides(c: TypeCandidate)
    requires
        c.non_empty > 0,
        c.unclassified == 0,
        c.boolean_matches == 0,
        c.integer_matches == 0,
        c.float_matches == 0,
        c.decimal_matches == 0,
        c.currency_matches == 0,
    ensures
        c.date_matches == c.non_empty ==> candidate_decision(c) == ColumnType::Date,
        c.date_matches == 0 && c.datetime_matches == c.non_empty ==> candidate_decision(c)
            == ColumnType::DateTime,
        c.date_matches == 0 && c.datetime_matches == 0 && c.time_matches == c.non_empty
            ==> candidate_decision(c) == ColumnType::Time,
        c.date_matches == 0 && c.datetime_matches == 0 && c.time_matches == 0 && c.guid_matches
            == c.non_empty ==> candidate_decision(c) == ColumnType::Guid,
{
}

/// A column decided as a decimal gets a valid specification wide enough for
/// every value counted: its scale is the largest scale seen (at most 28),
/// its precision at least the largest precision seen, and its integer
/// digits at least the most integer digits of any decimal or integer seen.
pub proof fn law_decided_decimal_holds_values(c: TypeCandidate)
    ensures
        candidate_decision(c) matches ColumnType::Decimal(spec) ==> {
            &&& 1 <= spec.precision <= 28
            &&& spec.scale <= spec.precision
            &&& spec.scale == if c.decimal_max_scale <= 28 {
                c.decimal_max_scale
            } else {
                28
            }
            &&& spec.precision >= c.decimal_max_precision
            &&& spec.precision - spec.scale >= c.decimal_max_integer_digits
            &&& spec.precision - spec.scale >= c.integer_max_digits
        },
{
}

} // verus!
