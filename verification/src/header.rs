//! Header detection: whether the first row of a file names its columns, the
//! aliases under which a header may reappear among the data rows, and the
//! synthetic names given to headerless files.
use vstd::prelude::*;

use crate::data::{
    date_formats, datetime_formats, first_date, first_datetime, first_time,
    float_literal_is_valid, float_literal_ok, literal_outcome, parse_currency_decimal,
    parse_decimal_literal, parse_guid, parse_i64, parse_naive_date, parse_naive_datetime,
    parse_naive_time, parses_i64, strip_braces, time_formats, uuid_value,
};
use crate::inference::{boolean_word, is_boolean_word, sat_mul};
use crate::text::{
    ascii_lower, char_is_alnum, char_is_alpha, chars_of, is_alnum, is_alpha, lower_seq,
    nat_to_seq, slice_chars, str_eq_chars, string_of, trim, trim_chars, usize_to_chars,
};

verus! {

/// Rows sampled to decide whether a file has a header.
pub const HEADER_DETECTION_SAMPLE_ROWS: usize = 6;

/// Least number of matching fields for a data row to be taken for a
/// repeated header.
pub const HEADER_ALIAS_MIN_MATCHES: usize = 4;

/// Share (in percent) of non-empty fields that must match.
pub const HEADER_ALIAS_THRESHOLD_PERCENT: usize = 80;

// ---------------------------------------------------------------------------
// Counting
// ---------------------------------------------------------------------------

/// Number of `true` entries.
pub open spec fn count_true(s: Seq<bool>) -> nat
    decreases s.len(),
{
    if s.len() == 0 {
        0
    } else {
        count_true(s.drop_last()) + if s.last() {
            1nat
        } else {
            0nat
        }
    }
}

proof fn lemma_count_true_le(s: Seq<bool>)
    ensures
        count_true(s) <= s.len(),
    decreases s.len(),
{
    if s.len() > 0 {
        lemma_count_true_le(s.drop_last());
    }
}

// ---------------------------------------------------------------------------
// Value classes
// ---------------------------------------------------------------------------

/// `Decimal::from_str` accepts what the literal parser hands it.
pub open spec fn decimal_literal_parses(raw: Seq<char>, allow_symbols: bool) -> bool {
    literal_outcome(raw, allow_symbols) is Ok
}

/// A value that reads as data: a boolean word or `1`/`0`, a decimal or
/// currency literal, an integer, a float, a date-time, a date, a time or a
/// GUID.
pub open spec fn data_like(value: Seq<char>) -> bool {
    let t = trim(value);
    let l = lower_seq(t);
    &&& t.len() > 0
    &&& {
        ||| is_boolean_word(l)
        ||| l == "1"@
        ||| l == "0"@
        ||| decimal_literal_parses(t, false)
        ||| decimal_literal_parses(t, true)
        ||| parses_i64(t)
        ||| float_literal_ok(t)
        ||| first_datetime(t, datetime_formats()) is Some
        ||| first_date(t, date_formats()) is Some
        ||| first_time(t, time_formats()) is Some
        ||| uuid_value(strip_braces(t)) is Some
    }
}

pub fn value_is_data_like(value: &str) -> (r: bool)
    ensures
        r == data_like(value@),
{
    let raw = chars_of(value);
    let t = trim_chars(raw.as_slice());
    if t.len() == 0 {
        return false;
    }
    let l = ascii_lower(t.as_slice());
    if boolean_word(l.as_slice()) || str_eq_chars("1", l.as_slice()) || str_eq_chars(
        "0",
        l.as_slice(),
    ) {
        return true;
    }
    let ts = string_of(t.as_slice());
    proof {
        crate::text::lemma_trim_idempotent(value@);
    }
    if parse_decimal_literal(ts.as_str()).is_ok() {
        return true;
    }
    if parse_currency_decimal(ts.as_str()).is_ok() {
        return true;
    }
    if parse_i64(t.as_slice()).is_some() {
        return true;
    }
    if float_literal_is_valid(t.as_slice()) {
        return true;
    }
    if parse_naive_datetime(ts.as_str()).is_ok() {
        return true;
    }
    if parse_naive_date(ts.as_str()).is_ok() {
        return true;
    }
    if parse_naive_time(ts.as_str()).is_ok() {
        return true;
    }
    parse_guid(ts.as_str()).is_some()
}

/// The header names that commonly occur.
pub open spec fn common_header_tokens() -> Seq<Seq<char>> {
    seq![
        "address"@,
        "amount"@,
        "category"@,
        "city"@,
        "code"@,
        "country"@,
        "created"@,
        "currency"@,
        "date"@,
        "description"@,
        "email"@,
        "first_name"@,
        "id"@,
        "item"@,
        "last_name"@,
        "name"@,
        "phone"@,
        "price"@,
        "quantity"@,
        "state"@,
        "status"@,
        "total"@,
        "type"@,
        "updated"@,
        "zip"@,
    ]
}

fn common_header_list() -> (r: Vec<&'static str>)
    ensures
        r@.map_values(|s: &'static str| s@) == common_header_tokens(),
{
    let r = vec![
        "address",
        "amount",
        "category",
        "city",
        "code",
        "country",
        "created",
        "currency",
        "date",
        "description",
        "email",
        "first_name",
        "id",
        "item",
        "last_name",
        "name",
        "phone",
        "price",
        "quantity",
        "state",
        "status",
        "total",
        "type",
        "updated",
        "zip",
    ];
    assert(r@.map_values(|s: &'static str| s@) =~= common_header_tokens());
    r
}

fn is_common_token(s: &[char]) -> (r: bool)
    ensures
        r == common_header_tokens().contains(s@),
{
    let list = common_header_list();
    let ghost names = common_header_tokens();
    for i in 0..list.len()
        invariant
            list@.map_values(|s: &'static str| s@) == names,
            names == common_header_tokens(),
            forall|j: int| 0 <= j < i ==> names[j] != s@,
    {
        assert(names[i as int] == list@[i as int]@);
        if str_eq_chars(list[i], s) {
            return true;
        }
    }
    false
}

/// ` `, `-` and `/` read as `_`.
pub open spec fn underscore_char(c: char) -> char {
    if c == ' ' || c == '-' || c == '/' {
        '_'
    } else {
        c
    }
}

/// A common header name, as written or with ` `, `-`, `/` for `_`.
pub open spec fn common_header(value: Seq<char>) -> bool {
    let n = lower_seq(trim(value));
    &&& value.len() > 0
    &&& n.len() > 0
    &&& (common_header_tokens().contains(n) || common_header_tokens().contains(
        n.map_values(|c: char| underscore_char(c)),
    ))
}

pub fn token_is_common_header(value: &str) -> (r: bool)
    ensures
        r == common_header(value@),
{
    let raw = chars_of(value);
    if raw.len() == 0 {
        return false;
    }
    let t = trim_chars(raw.as_slice());
    let n = ascii_lower(t.as_slice());
    if n.len() == 0 {
        return false;
    }
    if is_common_token(n.as_slice()) {
        return true;
    }
    let mut m: Vec<char> = Vec::new();
    for i in 0..n.len()
        invariant
            m@ == n@.take(i as int).map_values(|c: char| underscore_char(c)),
    {
        let c = n[i];
        if c == ' ' || c == '-' || c == '/' {
            m.push('_');
        } else {
            m.push(c);
        }
        assert(n@.take(i + 1).map_values(|c: char| underscore_char(c)) =~= n@.take(
            i as int,
        ).map_values(|c: char| underscore_char(c)).push(underscore_char(c)));
    }
    assert(n@.take(n@.len() as int) =~= n@);
    is_common_token(m.as_slice())
}

/// A value that reads as a column name: not data, and with an ASCII letter
/// or a common header name.
pub open spec fn header_like(value: Seq<char>) -> bool {
    let t = trim(value);
    &&& t.len() > 0
    &&& !data_like(t)
    &&& ((exists|i: int| 0 <= i < t.len() && is_alpha(#[trigger] t[i])) || common_header(t))
}

pub fn value_is_header_like(value: &str) -> (r: bool)
    ensures
        r == header_like(value@),
{
    let raw = chars_of(value);
    let t = trim_chars(raw.as_slice());
    if t.len() == 0 {
        return false;
    }
    let ts = string_of(t.as_slice());
    if value_is_data_like(ts.as_str()) {
        return false;
    }
    let mut alpha = false;
    for i in 0..t.len()
        invariant
            alpha <==> exists|j: int| 0 <= j < i && is_alpha(#[trigger] t@[j]),
    {
        if char_is_alpha(t[i]) {
            alpha = true;
        }
    }
    alpha || token_is_common_header(ts.as_str())
}

/// The values of a row, as character sequences.
pub open spec fn row_view(row: Seq<String>) -> Seq<Seq<char>> {
    row.map_values(|s: String| s@)
}

/// At least two values of the row are common header names.
pub open spec fn dictionary_match(row: Seq<Seq<char>>) -> bool {
    count_true(row.map_values(|v: Seq<char>| common_header(trim(v)))) >= 2
}

pub fn header_tokens_match_dictionary(row: &[String]) -> (r: bool)
    ensures
        r == dictionary_match(row_view(row@)),
{
    let ghost rv = row_view(row@);
    let ghost flags = rv.map_values(|v: Seq<char>| common_header(trim(v)));
    let mut count: usize = 0;
    for i in 0..row.len()
        invariant
            rv == row_view(row@),
            flags == rv.map_values(|v: Seq<char>| common_header(trim(v))),
            count == count_true(flags.take(i as int)),
            count <= i,
    {
        let t = trim_chars(chars_of(row[i].as_str()).as_slice());
        let ts = string_of(t.as_slice());
        assert(flags.take(i + 1).drop_last() =~= flags.take(i as int));
        assert(flags[i as int] == common_header(trim(row@[i as int]@)));
        if token_is_common_header(ts.as_str()) {
            count = count + 1;
        }
    }
    assert(flags.take(row@.len() as int) =~= flags);
    count >= 2
}

// ---------------------------------------------------------------------------
// Header inference
// ---------------------------------------------------------------------------

/// Some later row has data in column `c`.
pub open spec fn other_has_data(others: Seq<Seq<Seq<char>>>, c: int) -> bool {
    exists|r: int| 0 <= r < others.len() && c < others[r].len() && #[trigger] data_like(others[r][c])
}

/// Columns whose first value reads as a name over data below it.
pub open spec fn header_signals(first: Seq<Seq<char>>, others: Seq<Seq<Seq<char>>>) -> nat {
    count_true(
        Seq::new(first.len(), |c: int| header_like(first[c]) && other_has_data(others, c)),
    )
}

/// Columns whose first value reads as data over data below it.
pub open spec fn data_signals(first: Seq<Seq<char>>, others: Seq<Seq<Seq<char>>>) -> nat {
    count_true(
        Seq::new(
            first.len(),
            |c: int|
                !header_like(first[c]) && data_like(first[c]) && other_has_data(others, c),
        ),
    )
}

/// Whether the first row is a header, judged from the first row and the
/// rows after it.
/// How many values of the first row read as names.
pub open spec fn header_like_count(first: Seq<Seq<char>>) -> nat {
    count_true(first.map_values(|v: Seq<char>| header_like(v)))
}

/// How many values of the first row read as data.
pub open spec fn data_like_count(first: Seq<Seq<char>>) -> nat {
    count_true(first.map_values(|v: Seq<char>| data_like(v)))
}

pub open spec fn has_header(first: Seq<Seq<char>>, others: Seq<Seq<Seq<char>>>) -> bool {
    let hf = header_like_count(first);
    let df = data_like_count(first);
    if hf == 0 && df == 0 {
        false
    } else if df > hf {
        false
    } else if others.len() == 0 {
        hf >= 2 || dictionary_match(first)
    } else {
        let hs = header_signals(first, others);
        let ds = data_signals(first, others);
        if hs > ds {
            true
        } else if ds > hs {
            false
        } else if dictionary_match(first) && hf >= 1 {
            true
        } else {
            hf > df
        }
    }
}

/// The rows, as sequences of character sequences.
pub open spec fn rows_view(rows: Seq<Vec<String>>) -> Seq<Seq<Seq<char>>> {
    rows.map_values(|r: Vec<String>| row_view(r@))
}

fn count_classes(row: &[String]) -> (r: (usize, usize))
    ensures
        r.0 == count_true(row_view(row@).map_values(|v: Seq<char>| header_like(v))),
        r.1 == count_true(row_view(row@).map_values(|v: Seq<char>| data_like(v))),
{
    let ghost rv = row_view(row@);
    let ghost hfl = rv.map_values(|v: Seq<char>| header_like(v));
    let ghost dfl = rv.map_values(|v: Seq<char>| data_like(v));
    let mut h: usize = 0;
    let mut d: usize = 0;
    for i in 0..row.len()
        invariant
            rv == row_view(row@),
            hfl == rv.map_values(|v: Seq<char>| header_like(v)),
            dfl == rv.map_values(|v: Seq<char>| data_like(v)),
            h == count_true(hfl.take(i as int)),
            d == count_true(dfl.take(i as int)),
            h <= i,
            d <= i,
    {
        assert(hfl.take(i + 1).drop_last() =~= hfl.take(i as int));
        assert(dfl.take(i + 1).drop_last() =~= dfl.take(i as int));
        if value_is_header_like(row[i].as_str()) {
            h = h + 1;
        }
        if value_is_data_like(row[i].as_str()) {
            d = d + 1;
        }
    }
    assert(hfl.take(row@.len() as int) =~= hfl);
    assert(dfl.take(row@.len() as int) =~= dfl);
    (h, d)
}

fn column_has_data(others: &[Vec<String>], c: usize) -> (r: bool)
    ensures
        r == other_has_data(rows_view(others@), c as int),
{
    let ghost ov = rows_view(others@);
    for k in 0..others.len()
        invariant
            ov == rows_view(others@),
            forall|j: int|
                0 <= j < k ==> !(c < ov[j].len() && #[trigger] data_like(ov[j][c as int])),
    {
        assert(ov[k as int] == row_view(others@[k as int]@));
        if c < others[k].len() {
            assert(ov[k as int][c as int] == others@[k as int]@[c as int]@);
            if value_is_data_like(others[k][c].as_str()) {
                return true;
            }
        }
    }
    false
}

pub fn infer_has_header(first_row: &[String], other_rows: &[Vec<String>]) -> (r: bool)
    ensures
        r == has_header(row_view(first_row@), rows_view(other_rows@)),
{
    let ghost fv = row_view(first_row@);
    let ghost ov = rows_view(other_rows@);
    let (hf, df) = count_classes(first_row);
    if hf == 0 && df == 0 {
        return false;
    }
    if df > hf {
        return false;
    }
    if other_rows.len() == 0 {
        return hf >= 2 || header_tokens_match_dictionary(first_row);
    }
    let ghost hsf = Seq::new(
        fv.len(),
        |c: int| header_like(fv[c]) && other_has_data(ov, c),
    );
    let ghost dsf = Seq::new(
        fv.len(),
        |c: int| !header_like(fv[c]) && data_like(fv[c]) && other_has_data(ov, c),
    );
    let mut hs: usize = 0;
    let mut ds: usize = 0;
    for c in 0..first_row.len()
        invariant
            fv == row_view(first_row@),
            ov == rows_view(other_rows@),
            hsf == Seq::new(fv.len(), |c: int| header_like(fv[c]) && other_has_data(ov, c)),
            dsf == Seq::new(
                fv.len(),
                |c: int| !header_like(fv[c]) && data_like(fv[c]) && other_has_data(ov, c),
            ),
            hs == count_true(hsf.take(c as int)),
            ds == count_true(dsf.take(c as int)),
            hs <= c,
            ds <= c,
    {
        assert(hsf.take(c + 1).drop_last() =~= hsf.take(c as int));
        assert(dsf.take(c + 1).drop_last() =~= dsf.take(c as int));
        let is_h = value_is_header_like(first_row[c].as_str());
        let is_d = value_is_data_like(first_row[c].as_str());
        let od = column_has_data(other_rows, c);
        if is_h && od {
            hs = hs + 1;
        } else if is_d && od {
            ds = ds + 1;
        }
    }
    assert(hsf.take(first_row@.len() as int) =~= hsf);
    assert(dsf.take(first_row@.len() as int) =~= dsf);
    if hs > ds {
        return true;
    }
    if ds > hs {
        return false;
    }
    if header_tokens_match_dictionary(first_row) && hf >= 1 {
        return true;
    }
    hf > df
}

// ---------------------------------------------------------------------------
// Header aliases
// ---------------------------------------------------------------------------

/// The characters after the last `sep` (all of `t` when `sep` does not
/// occur).
pub open spec fn last_segment(t: Seq<char>, sep: char) -> Seq<char>
    decreases t.len(),
{
    if t.len() == 0 {
        t
    } else if t.last() == sep {
        Seq::empty()
    } else {
        last_segment(t.drop_last(), sep).push(t.last())
    }
}

/// The alias a candidate contributes: its trimmed, lowercased text, if any.
pub open spec fn alias_of(c: Seq<char>) -> Seq<Seq<char>> {
    let tk = trim(c);
    if tk.len() == 0 {
        Seq::empty()
    } else {
        seq![lower_seq(tk)]
    }
}

pub open spec fn segment_alias(t: Seq<char>, sep: char) -> Seq<Seq<char>> {
    let p = last_segment(t, sep);
    if p != t {
        alias_of(p)
    } else {
        Seq::empty()
    }
}

pub open spec fn alias_char(c: char) -> bool {
    is_alnum(c) || c == '+' || c == '-'
}

pub open spec fn sanitized_aliases(s: Seq<char>) -> Seq<Seq<char>> {
    if s.len() == 0 {
        Seq::empty()
    } else {
        alias_of(s) + (if s.len() >= 2 {
            alias_of(seq![s[0], s.last()])
        } else {
            Seq::empty()
        }) + (if s.len() >= 3 {
            alias_of(s.take(3))
        } else {
            Seq::empty()
        }) + (if s.len() >= 4 {
            alias_of(s.take(4))
        } else {
            Seq::empty()
        })
    }
}

/// The lowercased names under which a header may be written: the header
/// itself, its last `_`-, space- and `/`-separated segment, its letters,
/// digits and signs, their first and last character, and their first three
/// and four characters.
pub open spec fn header_alias_list(header: Seq<char>) -> Seq<Seq<char>> {
    let t = trim(header);
    if t.len() == 0 {
        Seq::empty()
    } else {
        let s = t.filter(|c: char| alias_char(c));
        alias_of(t) + segment_alias(t, '_') + segment_alias(t, ' ') + segment_alias(t, '/')
            + sanitized_aliases(s)
    }
}

/// The views of a list of strings.
pub open spec fn strs_view(v: Seq<String>) -> Seq<Seq<char>> {
    v.map_values(|s: String| s@)
}

fn try_insert(out: &mut Vec<String>, cand: &[char])
    ensures
        strs_view(final(out)@) == strs_view(old(out)@) + alias_of(cand@),
{
    let tk = trim_chars(cand);
    if tk.len() == 0 {
        assert(strs_view(out@) =~= strs_view(out@) + alias_of(cand@));
        return;
    }
    let l = ascii_lower(tk.as_slice());
    let ghost before = strs_view(out@);
    out.push(string_of(l.as_slice()));
    assert(strs_view(out@) =~= before + alias_of(cand@));
}

fn last_segment_chars(t: &[char], sep: char) -> (r: Vec<char>)
    ensures
        r@ == last_segment(t@, sep),
{
    let mut r: Vec<char> = Vec::new();
    for i in 0..t.len()
        invariant
            r@ == last_segment(t@.take(i as int), sep),
    {
        assert(t@.take(i + 1).drop_last() =~= t@.take(i as int));
        if t[i] == sep {
            r = Vec::new();
        } else {
            r.push(t[i]);
        }
    }
    assert(t@.take(t@.len() as int) =~= t@);
    r
}

fn push_segment_alias(out: &mut Vec<String>, t: &[char], sep: char)
    ensures
        strs_view(final(out)@) == strs_view(old(out)@) + segment_alias(t@, sep),
{
    let p = last_segment_chars(t, sep);
    if !crate::text::chars_eq(p.as_slice(), t) {
        try_insert(out, p.as_slice());
    } else {
        assert(strs_view(out@) =~= strs_view(out@) + segment_alias(t@, sep));
    }
}

fn alias_chars(t: &[char]) -> (r: Vec<char>)
    ensures
        r@ == t@.filter(|c: char| alias_char(c)),
{
    let mut s: Vec<char> = Vec::new();
    for i in 0..t.len()
        invariant
            s@ == t@.take(i as int).filter(|c: char| alias_char(c)),
    {
        assert(t@.take(i + 1).drop_last() =~= t@.take(i as int));
        proof {
            reveal(Seq::filter);
        }
        let c = t[i];
        if char_is_alnum(c) || c == '+' || c == '-' {
            s.push(c);
        }
    }
    assert(t@.take(t@.len() as int) =~= t@);
    s
}

fn push_sanitized_aliases(out: &mut Vec<String>, s: &[char])
    ensures
        strs_view(final(out)@) == strs_view(old(out)@) + sanitized_aliases(s@),
{
    let ghost acc1 = strs_view(out@);
    if s.len() == 0 {
        assert(strs_view(out@) =~= acc1 + sanitized_aliases(s@));
        return;
    }
    try_insert(out, s);
    let ghost a2 = acc1 + alias_of(s@);
    if s.len() >= 2 {
        let fl = vec![s[0], s[s.len() - 1]];
        assert(fl@ =~= seq![s@[0], s@.last()]);
        try_insert(out, fl.as_slice());
    }
    let ghost a3 = a2 + (if s@.len() >= 2 {
        alias_of(seq![s@[0], s@.last()])
    } else {
        Seq::empty()
    });
    assert(strs_view(out@) =~= a3);
    if s.len() >= 3 {
        let f3 = slice_chars(s, 0, 3);
        assert(f3@ =~= s@.take(3));
        try_insert(out, f3.as_slice());
    }
    let ghost a4 = a3 + (if s@.len() >= 3 {
        alias_of(s@.take(3))
    } else {
        Seq::empty()
    });
    assert(strs_view(out@) =~= a4);
    if s.len() >= 4 {
        let f4 = slice_chars(s, 0, 4);
        assert(f4@ =~= s@.take(4));
        try_insert(out, f4.as_slice());
    }
    assert(strs_view(out@) =~= acc1 + sanitized_aliases(s@));
}

pub fn build_header_aliases(header: &str) -> (r: Vec<String>)
    ensures
        strs_view(r@) == header_alias_list(header@),
{
    let mut out: Vec<String> = Vec::new();
    let raw = chars_of(header);
    let t = trim_chars(raw.as_slice());
    assert(strs_view(out@) =~= Seq::<Seq<char>>::empty());
    if t.len() == 0 {
        return out;
    }
    try_insert(&mut out, t.as_slice());
    push_segment_alias(&mut out, t.as_slice(), '_');
    push_segment_alias(&mut out, t.as_slice(), ' ');
    push_segment_alias(&mut out, t.as_slice(), '/');
    let s = alias_chars(t.as_slice());
    push_sanitized_aliases(&mut out, s.as_slice());
    assert(strs_view(out@) =~= header_alias_list(header@));
    out
}

// ---------------------------------------------------------------------------
// Repeated header rows
// ---------------------------------------------------------------------------

/// A cell's trimmed text (empty when the cell is missing).
pub open spec fn cell_text(c: Option<Seq<char>>) -> Seq<char> {
    match c {
        Some(x) => trim(x),
        None => Seq::empty(),
    }
}

/// The texts of optional cells.
pub open spec fn opt_views(row: Seq<Option<String>>) -> Seq<Option<Seq<char>>> {
    row.map_values(
        |c: Option<String>|
            match c {
                Some(x) => Some(x@),
                None => None,
            },
    )
}

/// The alias lists of a schema's columns.
pub open spec fn alias_lists(a: Seq<Vec<String>>) -> Seq<Seq<Seq<char>>> {
    a.map_values(|v: Vec<String>| strs_view(v@))
}

pub open spec fn min_len(a: int, b: int) -> int {
    if a <= b {
        a
    } else {
        b
    }
}

/// Non-empty fields among the first `aliases.len()`.
pub open spec fn header_row_fields(row: Seq<Option<Seq<char>>>, aliases: Seq<Seq<Seq<char>>>) -> nat {
    count_true(
        Seq::new(
            min_len(row.len() as int, aliases.len() as int) as nat,
            |i: int| cell_text(row[i]).len() > 0,
        ),
    )
}

/// Non-empty fields that match one of their column's aliases.
pub open spec fn header_row_hits(row: Seq<Option<Seq<char>>>, aliases: Seq<Seq<Seq<char>>>) -> nat {
    count_true(
        Seq::new(
            min_len(row.len() as int, aliases.len() as int) as nat,
            |i: int|
                cell_text(row[i]).len() > 0 && aliases[i].contains(lower_seq(cell_text(row[i]))),
        ),
    )
}

/// A data row that repeats the header: at least four non-empty fields, at
/// least four of them aliases of their column, and those at least 80% of
/// the non-empty fields.
pub open spec fn looks_like_header(row: Seq<Option<Seq<char>>>, aliases: Seq<Seq<Seq<char>>>) -> bool {
    let ne = header_row_fields(row, aliases);
    let hits = header_row_hits(row, aliases);
    ne >= HEADER_ALIAS_MIN_MATCHES && hits >= HEADER_ALIAS_MIN_MATCHES && sat_mul(hits as int, 100)
        >= sat_mul(ne as int, HEADER_ALIAS_THRESHOLD_PERCENT as int)
}

fn list_contains(v: &[String], x: &[char]) -> (r: bool)
    ensures
        r == strs_view(v@).contains(x@),
{
    let ghost sv = strs_view(v@);
    for i in 0..v.len()
        invariant
            sv == strs_view(v@),
            forall|j: int| 0 <= j < i ==> sv[j] != x@,
    {
        let c = chars_of(v[i].as_str());
        if crate::text::chars_eq(c.as_slice(), x) {
            assert(sv[i as int] == x@);
            return true;
        }
    }
    false
}

fn sat_mul_usize(a: usize, b: usize) -> (r: usize)
    ensures
        r == sat_mul(a as int, b as int),
{
    match a.checked_mul(b) {
        Some(v) => v,
        None => usize::MAX,
    }
}

pub fn option_row_looks_like_header(row: &[Option<String>], header_aliases: &[Vec<String>]) -> (r:
    bool)
    ensures
        r == looks_like_header(opt_views(row@), alias_lists(header_aliases@)),
{
    let ghost al = alias_lists(header_aliases@);
    let ghost rw = opt_views(row@);
    let n: usize = if row.len() <= header_aliases.len() {
        row.len()
    } else {
        header_aliases.len()
    };
    let ghost nef = Seq::new(n as nat, |i: int| cell_text(rw[i]).len() > 0);
    let ghost hitf = Seq::new(
        n as nat,
        |i: int| cell_text(rw[i]).len() > 0 && al[i].contains(lower_seq(cell_text(rw[i]))),
    );
    let mut ne: usize = 0;
    let mut hits: usize = 0;
    for i in 0..n
        invariant
            n <= row@.len(),
            n <= header_aliases@.len(),
            al == alias_lists(header_aliases@),
            rw == opt_views(row@),
            nef == Seq::new(n as nat, |i: int| cell_text(rw[i]).len() > 0),
            hitf == Seq::new(
                n as nat,
                |i: int|
                    cell_text(rw[i]).len() > 0 && al[i].contains(lower_seq(cell_text(rw[i]))),
            ),
            ne == count_true(nef.take(i as int)),
            hits == count_true(hitf.take(i as int)),
            ne <= i,
            hits <= i,
    {
        assert(nef.take(i + 1).drop_last() =~= nef.take(i as int));
        assert(hitf.take(i + 1).drop_last() =~= hitf.take(i as int));
        match &row[i] {
            None => {},
            Some(v) => {
                assert(rw[i as int] == Some(v@));
                let t = trim_chars(chars_of(v.as_str()).as_slice());
                if t.len() > 0 {
                    ne = ne + 1;
                    let l = ascii_lower(t.as_slice());
                    assert(al[i as int] == strs_view(header_aliases@[i as int]@));
                    if list_contains(header_aliases[i].as_slice(), l.as_slice()) {
                        hits = hits + 1;
                    }
                }
            },
        }
    }
    assert(nef.take(n as int) =~= nef);
    assert(hitf.take(n as int) =~= hitf);
    ne >= 4 && hits >= 4 && sat_mul_usize(hits, 100) >= sat_mul_usize(ne, 80)
}

/// The cells of a row, each present.
pub open spec fn present_cells(row: Seq<String>) -> Seq<Option<Seq<char>>> {
    row.map_values(|s: String| Some(s@))
}

pub fn row_looks_like_header(row: &[String], header_aliases: &[Vec<String>]) -> (r: bool)
    ensures
        r == looks_like_header(present_cells(row@), alias_lists(header_aliases@)),
{
    let mut cells: Vec<Option<String>> = Vec::new();
    for i in 0..row.len()
        invariant
            cells@.len() == i,
            forall|j: int| 0 <= j < i ==> #[trigger] cells@[j] == Some(row@[j]),
    {
        cells.push(Some(row[i].clone()));
    }
    let r = option_row_looks_like_header(cells.as_slice(), header_aliases);
    proof {
        let al = alias_lists(header_aliases@);
        assert(opt_views(cells@) =~= present_cells(row@));
    }
    r
}

// ---------------------------------------------------------------------------
// Layout
// ---------------------------------------------------------------------------

/// The name given to column `i` of a file without a header.
pub open spec fn field_name(i: int) -> Seq<char> {
    "field_"@ + nat_to_seq(i as nat)
}

pub fn generate_field_names(count: usize) -> (r: Vec<String>)
    ensures
        r@.len() == count,
        forall|i: int| 0 <= i < count ==> #[trigger] r@[i]@ == field_name(i),
{
    let mut r: Vec<String> = Vec::new();
    for i in 0..count
        invariant
            r@.len() == i,
            forall|j: int| 0 <= j < i ==> #[trigger] r@[j]@ == field_name(j),
    {
        let d = usize_to_chars(i);
        r.push(crate::text::cat3("field_", d.as_slice(), ""));
        proof {
            reveal_strlit("");
        }
        assert(r@[i as int]@ =~= field_name(i as int));
    }
    r
}

/// The column names of a file and whether its first row holds them.
#[derive(Debug, Clone)]
pub struct CsvLayout {
    pub headers: Vec<String>,
    pub has_headers: bool,
}

impl CsvLayout {
    pub fn field_count(&self) -> (r: usize)
        ensures
            r == self.headers@.len(),
    {
        self.headers.len()
    }
}

/// The layout read from the sampled leading rows of a file: a header when
/// `has_header` judges the first row to be one, otherwise `field_0`,
/// `field_1`, ...; a file without rows is taken to have a (still empty)
/// header.
pub open spec fn sampled_layout(rows: Seq<Seq<Seq<char>>>) -> (Seq<Seq<char>>, bool) {
    if rows.len() == 0 {
        (Seq::empty(), true)
    } else if has_header(rows[0], rows.drop_first()) {
        (rows[0], true)
    } else {
        (Seq::new(rows[0].len(), |i: int| field_name(i)), false)
    }
}

pub fn layout_from_sample(rows: &[Vec<String>]) -> (r: CsvLayout)
    ensures
        (strs_view(r.headers@), r.has_headers) == sampled_layout(rows_view(rows@)),
{
    let ghost rv = rows_view(rows@);
    if rows.len() == 0 {
        let r = CsvLayout { headers: Vec::new(), has_headers: true };
        assert(strs_view(r.headers@) =~= Seq::<Seq<char>>::empty());
        return r;
    }
    let mut others: Vec<Vec<String>> = Vec::new();
    for k in 1..rows.len()
        invariant
            1 <= rows@.len(),
            others@.len() == k - 1,
            forall|j: int| 0 <= j < k - 1 ==> strs_view(#[trigger] others@[j]@) == strs_view(
                rows@[j + 1]@,
            ),
    {
        let c = crate::text::clone_strings(rows[k].as_slice());
        assert(strs_view(c@) =~= strs_view(rows@[k as int]@));
        others.push(c);
    }
    assert(rows_view(others@) =~= rv.drop_first());
    let first = &rows[0];
    assert(rv[0] == row_view(first@));
    let has = infer_has_header(first.as_slice(), others.as_slice());
    if has {
        let headers = crate::text::clone_strings(first.as_slice());
        assert(strs_view(headers@) =~= rv[0]);
        CsvLayout { headers, has_headers: true }
    } else {
        let headers = generate_field_names(first.len());
        assert(strs_view(headers@) =~= Seq::new(rv[0].len(), |i: int| field_name(i)));
        CsvLayout { headers, has_headers: false }
    }
}

// ---------------------------------------------------------------------------
// Laws
// ---------------------------------------------------------------------------

/// Headerless files get distinct column names.
pub proof fn law_field_names_distinct(i: nat, j: nat)
    requires
        i != j,
    ensures
        field_name(i as int) != field_name(j as int),
{
    reveal_strlit("field_");
    if field_name(i as int) == field_name(j as int) {
        assert(field_name(i as int).skip(6) =~= nat_to_seq(i));
        assert(field_name(j as int).skip(6) =~= nat_to_seq(j));
        crate::text::lemma_nat_to_seq_roundtrip(i);
        crate::text::lemma_nat_to_seq_roundtrip(j);
    }
}

/// A data row that repeats the header (with at least four non-empty names)
/// is recognized as a header row.
pub proof fn law_repeated_header_recognized(headers: Seq<Seq<char>>)
    requires
        count_true(headers.map_values(|h: Seq<char>| trim(h).len() > 0)) >= HEADER_ALIAS_MIN_MATCHES,
    ensures
        looks_like_header(
            headers.map_values(|h: Seq<char>| Some(h)),
            headers.map_values(|h: Seq<char>| header_alias_list(h)),
        ),
{
    let row = headers.map_values(|h: Seq<char>| Some(h));
    let al = headers.map_values(|h: Seq<char>| header_alias_list(h));
    let n = headers.len();
    let ne_flags = Seq::new(
        min_len(row.len() as int, al.len() as int) as nat,
        |i: int| cell_text(row[i]).len() > 0,
    );
    let hit_flags = Seq::new(
        min_len(row.len() as int, al.len() as int) as nat,
        |i: int| cell_text(row[i]).len() > 0 && al[i].contains(lower_seq(cell_text(row[i]))),
    );
    assert(ne_flags =~= headers.map_values(|h: Seq<char>| trim(h).len() > 0));
    assert(hit_flags =~= ne_flags) by {
        assert forall|i: int| 0 <= i < n implies hit_flags[i] == ne_flags[i] by {
            let h = headers[i];
            let t = trim(h);
            if t.len() > 0 {
                crate::text::lemma_trim_idempotent(h);
                assert(al[i] == header_alias_list(h));
                assert(header_alias_list(h)[0] == lower_seq(t));
                assert(al[i].contains(lower_seq(t)));
            }
        }
    }
    let ne = count_true(ne_flags);
    assert(sat_mul(ne as int, 100) >= sat_mul(ne as int, 80)) by (nonlinear_arith)
        requires
            ne >= 0,
    ;
}

/// How the first row is judged when rows follow it: more columns whose
/// first value reads as a name over data than columns whose first value
/// reads as data make it a header, fewer make it data; on a tie it is a
/// header when more of its values read as names than as data. A first row
/// with more data-like than name-like values, or with no name-like value,
/// is never a header; with no rows after it, one with at least two
/// name-like values and no more data-like ones is a header.
pub proof fn law_header_judgement(first: Seq<Seq<char>>, others: Seq<Seq<Seq<char>>>)
    ensures
        data_like_count(first) > header_like_count(first) ==> !has_header(first, others),
        others.len() > 0 && header_like_count(first) >= data_like_count(first) && header_like_count(first)
            > 0 && header_signals(first, others) > data_signals(first, others) ==> has_header(
            first,
            others,
        ),
        others.len() > 0 && data_like_count(first) <= header_like_count(first) && data_signals(first, others)
            > header_signals(first, others) ==> !has_header(first, others),
        others.len() > 0 && header_signals(first, others) == data_signals(first, others)
            && header_like_count(first) > data_like_count(first) ==> has_header(first, others),
        header_like_count(first) == 0 ==> !has_header(first, others),
        others.len() == 0 && header_like_count(first) >= 2 && data_like_count(first) <= header_like_count(
            first,
        ) ==> has_header(first, others),
{
}

} // verus!
