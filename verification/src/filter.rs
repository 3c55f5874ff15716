//! Parsing `--filter` expressions: a column, a comparison and a value.
use vstd::prelude::*;

use crate::header::strs_view;
use crate::text::{
    ascii_lower, chars_of, contains_seq, find_chars, find_seq, lower_seq, slice_chars, string_of, trim,
    trim_chars, is_ws, trim_start, trim_end,
};

verus! {

/// Comparison operators of filter expressions.
#[derive(Debug, Clone, Copy, PartialEq, Eq, Structural)]
pub enum ComparisonOperator {
    /// `=`
    Eq,
    /// `!=`
    NotEq,
    /// `>`
    Gt,
    /// `>=`
    Ge,
    /// `<`
    Lt,
    /// `<=`
    Le,
    /// ` contains ` (case-sensitive substring)
    Contains,
    /// ` startswith `
    StartsWith,
    /// ` endswith `
    EndsWith,
}

/// A parsed filter: column name, operator and the value compared against.
#[derive(Debug, Clone)]
pub struct FilterCondition {
    pub column: String,
    pub operator: ComparisonOperator,
    pub raw_value: String,
}

/// A value without one pair of surrounding double or single quotes.
pub open spec fn unquoted(v: Seq<char>) -> Seq<char> {
    if v.len() >= 2 && ((v[0] == '"' && v.last() == '"') || (v[0] == '\'' && v.last() == '\'')) {
        v.subrange(1, v.len() - 1)
    } else {
        v
    }
}

pub fn unquote(value: &[char]) -> (r: Vec<char>)
    ensures
        r@ == unquoted(value@),
{
    let n = value.len();
    if n >= 2 && ((value[0] == '"' && value[n - 1] == '"') || (value[0] == '\'' && value[n - 1]
        == '\'')) {
        slice_chars(value, 1, n - 1)
    } else {
        crate::text::clone_chars(value)
    }
}

/// A filter as plain values.
pub type FilterView = (Seq<char>, ComparisonOperator, Seq<char>);

/// A condition split at position `i` of the trimmed text, the operator
/// `n` characters long.
pub open spec fn split_condition(t: Seq<char>, i: int, n: int, op: ComparisonOperator) -> FilterView {
    (trim(t.take(i)), op, unquoted(trim(t.skip(i + n))))
}

/// The symbolic operators, tried in this order (the first found anywhere
/// wins).
pub open spec fn symbol_ops() -> Seq<(Seq<char>, ComparisonOperator)> {
    seq![
        ("!="@, ComparisonOperator::NotEq),
        (">="@, ComparisonOperator::Ge),
        ("<="@, ComparisonOperator::Le),
        ("="@, ComparisonOperator::Eq),
        (">"@, ComparisonOperator::Gt),
        ("<"@, ComparisonOperator::Lt),
    ]
}

/// The word operators, found case-insensitively with a space on each side.
pub open spec fn word_ops() -> Seq<(Seq<char>, ComparisonOperator)> {
    seq![
        (" contains "@, ComparisonOperator::Contains),
        (" startswith "@, ComparisonOperator::StartsWith),
        (" endswith "@, ComparisonOperator::EndsWith),
    ]
}

/// The first operator of `ops` (from `k` on) found in `hay`, split out of
/// the trimmed text `t`.
pub open spec fn first_op_split(
    t: Seq<char>,
    hay: Seq<char>,
    ops: Seq<(Seq<char>, ComparisonOperator)>,
    k: int,
) -> Option<FilterView>
    decreases ops.len() - k,
{
    if k < 0 || k >= ops.len() {
        None
    } else {
        match find_seq(hay, ops[k].0) {
            Some(i) => Some(split_condition(t, i, ops[k].0.len() as int, ops[k].1)),
            None => first_op_split(t, hay, ops, k + 1),
        }
    }
}

/// What a filter expression reads as, or its error.
pub open spec fn filter_parse(f: Seq<char>) -> Result<FilterView, Seq<char>> {
    let t = trim(f);
    if t.len() == 0 {
        Err("Empty filter expression"@)
    } else {
        match first_op_split(t, lower_seq(t), word_ops(), 0) {
            Some(v) => Ok(v),
            None => match first_op_split(t, t, symbol_ops(), 0) {
                Some(v) => Ok(v),
                None => Err("Failed to parse filter expression '"@ + t + "'"@),
            },
        }
    }
}

pub open spec fn condition_view(c: FilterCondition) -> FilterView {
    (c.column@, c.operator, c.raw_value@)
}

fn word_op_list() -> (r: Vec<(&'static str, ComparisonOperator)>)
    ensures
        r@.map_values(|p: (&'static str, ComparisonOperator)| (p.0@, p.1)) == word_ops(),
{
    let r = vec![
        (" contains ", ComparisonOperator::Contains),
        (" startswith ", ComparisonOperator::StartsWith),
        (" endswith ", ComparisonOperator::EndsWith),
    ];
    assert(r@.map_values(|p: (&'static str, ComparisonOperator)| (p.0@, p.1)) =~= word_ops());
    r
}

fn symbol_op_list() -> (r: Vec<(&'static str, ComparisonOperator)>)
    ensures
        r@.map_values(|p: (&'static str, ComparisonOperator)| (p.0@, p.1)) == symbol_ops(),
{
    let r = vec![
        ("!=", ComparisonOperator::NotEq),
        (">=", ComparisonOperator::Ge),
        ("<=", ComparisonOperator::Le),
        ("=", ComparisonOperator::Eq),
        (">", ComparisonOperator::Gt),
        ("<", ComparisonOperator::Lt),
    ];
    assert(r@.map_values(|p: (&'static str, ComparisonOperator)| (p.0@, p.1)) =~= symbol_ops());
    r
}

fn split_first_op(
    t: &[char],
    hay: &[char],
    ops: &Vec<(&'static str, ComparisonOperator)>,
) -> (r: Option<FilterCondition>)
    requires
        t@.len() == hay@.len(),
    ensures
        match first_op_split(
            t@,
            hay@,
            ops@.map_values(|p: (&'static str, ComparisonOperator)| (p.0@, p.1)),
            0,
        ) {
            Some(v) => r matches Some(c) && condition_view(c) == v,
            None => r is None,
        },
{
    let ghost ov = ops@.map_values(|p: (&'static str, ComparisonOperator)| (p.0@, p.1));
    for k in 0..ops.len()
        invariant
            ov == ops@.map_values(|p: (&'static str, ComparisonOperator)| (p.0@, p.1)),
            t@.len() == hay@.len(),
            first_op_split(t@, hay@, ov, 0) == first_op_split(t@, hay@, ov, k as int),
    {
        let (needle, op) = ops[k];
        assert(ov[k as int] == (needle@, op));
        let nv = chars_of(needle);
        match find_chars(hay, nv.as_slice()) {
            Some(i) => {
                let head = slice_chars(t, 0, i);
                assert(head@ =~= t@.take(i as int));
                let left = trim_chars(head.as_slice());
                assert(crate::text::occurs_at(hay@, nv@, i as int));
                assert(hay@.len() == hay.len());
                assert(nv@.len() == nv.len());
                let rest = slice_chars(t, i + nv.len(), t.len());
                assert(rest@ =~= t@.skip(i + nv@.len()));
                let right = unquote(trim_chars(rest.as_slice()).as_slice());
                let c = FilterCondition {
                    column: string_of(left.as_slice()),
                    operator: op,
                    raw_value: string_of(right.as_slice()),
                };
                return Some(c);
            },
            None => {},
        }
    }
    None
}

/// Parses one filter expression: `column op value` with `op` one of
/// ` contains `, ` startswith `, ` endswith ` (any case) or `!=`, `>=`,
/// `<=`, `=`, `>`, `<`; the value may be quoted.
pub fn parse_filter(filter: &str) -> (r: Result<FilterCondition, String>)
    ensures
        match filter_parse(filter@) {
            Ok(v) => r matches Ok(c) && condition_view(c) == v,
            Err(e) => r matches Err(x) && x@ == e,
        },
{
    let t = crate::text::trim_str(filter);
    if t.len() == 0 {
        return Err("Empty filter expression".to_string());
    }
    let l = ascii_lower(t.as_slice());
    let words = word_op_list();
    match split_first_op(t.as_slice(), l.as_slice(), &words) {
        Some(c) => {
            return Ok(c);
        },
        None => {},
    }
    let symbols = symbol_op_list();
    match split_first_op(t.as_slice(), t.as_slice(), &symbols) {
        Some(c) => Ok(c),
        None => Err(crate::text::cat3("Failed to parse filter expression '", t.as_slice(), "'")),
    }
}

/// The filters parsed in order, or the first error.
pub open spec fn filters_parse(fs: Seq<Seq<char>>) -> Result<Seq<FilterView>, Seq<char>>
    decreases fs.len(),
{
    if fs.len() == 0 {
        Ok(Seq::empty())
    } else {
        match filters_parse(fs.drop_last()) {
            Err(e) => Err(e),
            Ok(v) => match filter_parse(fs.last()) {
                Err(e) => Err(e),
                Ok(c) => Ok(v.push(c)),
            },
        }
    }
}

pub open spec fn conditions_view(cs: Seq<FilterCondition>) -> Seq<FilterView> {
    cs.map_values(|c: FilterCondition| condition_view(c))
}

proof fn lemma_filters_err_extends(fs: Seq<Seq<char>>, k: int)
    requires
        0 <= k <= fs.len(),
        filters_parse(fs.take(k)) is Err,
    ensures
        filters_parse(fs) == filters_parse(fs.take(k)),
    decreases fs.len() - k,
{
    if k < fs.len() {
        assert(fs.take(k + 1).drop_last() =~= fs.take(k));
        lemma_filters_err_extends(fs, k + 1);
    } else {
        assert(fs.take(k) =~= fs);
    }
}

/// Parses every filter expression, failing on the first that does not
/// parse.
pub fn parse_filters(filters: &[String]) -> (r: Result<Vec<FilterCondition>, String>)
    ensures
        match filters_parse(strs_view(filters@)) {
            Ok(v) => r matches Ok(cs) && conditions_view(cs@) == v,
            Err(e) => r matches Err(x) && x@ == e,
        },
{
    let ghost fv = strs_view(filters@);
    let mut out: Vec<FilterCondition> = Vec::new();
    assert(fv.take(0) =~= Seq::<Seq<char>>::empty());
    assert(conditions_view(out@) =~= Seq::<FilterView>::empty());
    for i in 0..filters.len()
        invariant
            fv == strs_view(filters@),
            filters_parse(fv.take(i as int)) == Ok::<Seq<FilterView>, Seq<char>>(conditions_view(out@)),
    {
        assert(fv.take(i + 1).drop_last() =~= fv.take(i as int));
        assert(fv.take(i + 1).last() == filters@[i as int]@);
        match parse_filter(filters[i].as_str()) {
            Err(e) => {
                proof {
                    lemma_filters_err_extends(fv, i + 1);
                }
                return Err(e);
            },
            Ok(c) => {
                let ghost before = conditions_view(out@);
                let ghost cv = condition_view(c);
                out.push(c);
                assert(conditions_view(out@) =~= before.push(cv));
            },
        }
    }
    assert(fv.take(filters@.len() as int) =~= fv);
    Ok(out)
}


// ---------------------------------------------------------------------------
// Evaluating conditions
// ---------------------------------------------------------------------------

/// The first header equal to `name`.
pub open spec fn first_header(headers: Seq<Seq<char>>, name: Seq<char>) -> Option<int> {
    if exists|i: int| 0 <= i < headers.len() && headers[i] == name {
        Some(choose|i: int| 0 <= i < headers.len() && headers[i] == name && forall|j: int| 0 <= j < i ==> headers[j] != name)
    } else {
        None
    }
}

/// The column a filter reads: one the schema knows under the name, else
/// the first header of that name.
pub open spec fn filter_column(
    cols: Seq<crate::schema::ColumnMeta>,
    headers: Seq<Seq<char>>,
    name: Seq<char>,
) -> Option<int> {
    match crate::schema::first_column_named(cols, name) {
        Some(i) => Some(i),
        None => first_header(headers, name),
    }
}

/// Resolves the column of a filter condition.
pub fn filter_column_index(schema: &crate::schema::Schema, headers: &[String], column: &str) -> (r: Result<usize, String>)
    ensures
        match filter_column(schema.columns@, strs_view(headers@), column@) {
            Some(i) => r == Ok::<usize, String>(i as usize),
            None => r matches Err(e) && e@ == "Column '"@ + column@ + "' not found for filter"@,
        },
{
    match schema.column_index(column) {
        Some(i) => Ok(i),
        None => {
            let ghost hv = strs_view(headers@);
            for i in 0..headers.len()
                invariant
                    hv == strs_view(headers@),
                    crate::schema::first_column_named(schema.columns@, column@) is None,
                    forall|j: int| 0 <= j < i ==> hv[j] != column@,
            {
                if crate::text::str_eq(headers[i].as_str(), column) {
                    proof {
                        assert(hv[i as int] == column@);
                        assert(0 <= i < hv.len() && hv[i as int] == column@ && forall|j: int| 0 <= j < i ==> hv[j] != column@);
                        let k = choose|k: int| 0 <= k < hv.len() && hv[k] == column@ && forall|j: int| 0 <= j < k ==> hv[j] != column@;
                        if k < i {
                            assert(hv[k] != column@);
                        } else if k > i {
                            assert(hv[i as int] != column@);
                        }
                        assert(first_header(hv, column@) == Some(i as int));
                    }
                    return Ok(i);
                }
            }
            let c = chars_of(column);
            Err(crate::text::cat3("Column '", c.as_slice(), "' not found for filter"))
        },
    }
}

/// Whether a text condition holds of a cell (a missing cell reads as
/// empty); `None` for the comparison operators, which compare typed values.
pub open spec fn text_condition(op: ComparisonOperator, raw: Seq<char>, needle: Seq<char>) -> Option<bool> {
    match op {
        ComparisonOperator::Contains => Some(crate::text::contains_seq(raw, needle)),
        ComparisonOperator::StartsWith => Some(needle.len() <= raw.len() && raw.take(needle.len() as int) == needle),
        ComparisonOperator::EndsWith => Some(needle.len() <= raw.len() && raw.skip(raw.len() - needle.len()) == needle),
        _ => None,
    }
}

pub fn evaluate_text_condition(condition: &FilterCondition, raw_value: Option<&str>) -> (r: Option<bool>)
    ensures
        r == text_condition(
            condition.operator,
            match raw_value {
                Some(v) => v@,
                None => Seq::<char>::empty(),
            },
            condition.raw_value@,
        ),
{
    let raw = match raw_value {
        Some(v) => chars_of(v),
        None => Vec::new(),
    };
    let needle = chars_of(condition.raw_value.as_str());
    match condition.operator {
        ComparisonOperator::Contains => Some(crate::text::find_chars(raw.as_slice(), needle.as_slice()).is_some()),
        ComparisonOperator::StartsWith => Some(crate::text::starts_with(raw.as_slice(), needle.as_slice())),
        ComparisonOperator::EndsWith => Some(crate::text::ends_with(raw.as_slice(), needle.as_slice())),
        _ => None,
    }
}

// ---------------------------------------------------------------------------
// Laws
// ---------------------------------------------------------------------------

/// A `contains` condition holds exactly when the needle occurs somewhere in
/// the cell, a `startswith` condition exactly when the cell begins with it,
/// and an `endswith` condition exactly when the cell ends with it; the
/// comparison operators are not text conditions.
pub proof fn law_text_conditions(raw: Seq<char>, needle: Seq<char>)
    ensures
        text_condition(ComparisonOperator::Contains, raw, needle) == Some(
            exists|p: Seq<char>, q: Seq<char>| raw == p + needle + q,
        ),
        text_condition(ComparisonOperator::StartsWith, raw, needle) == Some(
            exists|q: Seq<char>| raw == needle + q,
        ),
        text_condition(ComparisonOperator::EndsWith, raw, needle) == Some(
            exists|p: Seq<char>| raw == p + needle,
        ),
        forall|op: ComparisonOperator|
            !(op is Contains || op is StartsWith || op is EndsWith) ==> #[trigger] text_condition(
                op,
                raw,
                needle,
            ) is None,
{
    let n = needle.len() as int;
    // contains
    if crate::text::contains_seq(raw, needle) {
        let i = choose|i: int| crate::text::occurs_at(raw, needle, i);
        let p = raw.take(i);
        let q = raw.skip(i + n);
        assert(raw =~= p + needle + q);
    }
    if exists|p: Seq<char>, q: Seq<char>| raw == p + needle + q {
        let (p, q) = choose|p: Seq<char>, q: Seq<char>| raw == p + needle + q;
        assert(raw.subrange(p.len() as int, p.len() + n) =~= needle);
        assert(crate::text::occurs_at(raw, needle, p.len() as int));
    }
    // starts with
    if n <= raw.len() && raw.take(n) == needle {
        assert(raw =~= needle + raw.skip(n));
    }
    if exists|q: Seq<char>| raw == needle + q {
        let q = choose|q: Seq<char>| raw == needle + q;
        assert(raw.take(n) =~= needle);
    }
    // ends with
    if n <= raw.len() && raw.skip(raw.len() - n) == needle {
        assert(raw =~= raw.take(raw.len() - n) + needle);
    }
    if exists|p: Seq<char>| raw == p + needle {
        let p = choose|p: Seq<char>| raw == p + needle;
        assert(raw.skip(raw.len() - n) =~= needle);
    }
}

/// The operator picked by `first_op_split` is one of the list's from `k`
/// on, and none listed before it occurs in the searched text.
proof fn lemma_first_op_split_pick(
    t: Seq<char>,
    hay: Seq<char>,
    ops: Seq<(Seq<char>, ComparisonOperator)>,
    k: int,
)
    requires
        0 <= k,
        first_op_split(t, hay, ops, k) is Some,
    ensures
        exists|j: int|
            k <= j < ops.len() && first_op_split(t, hay, ops, k).unwrap().1 == ops[j].1 && find_seq(
                hay,
                ops[j].0,
            ) is Some && forall|m: int| k <= m < j ==> #[trigger] find_seq(hay, ops[m].0) is None,
    decreases ops.len() - k,
{
    match find_seq(hay, ops[k].0) {
        Some(i) => {
            assert(forall|m: int| k <= m < k ==> #[trigger] find_seq(hay, ops[m].0) is None);
        },
        None => {
            lemma_first_op_split_pick(t, hay, ops, k + 1);
            let j = choose|j: int|
                k + 1 <= j < ops.len() && first_op_split(t, hay, ops, k + 1).unwrap().1 == ops[j].1
                    && find_seq(hay, ops[j].0) is Some && forall|m: int|
                    k + 1 <= m < j ==> #[trigger] find_seq(hay, ops[m].0) is None;
            assert(forall|m: int| k <= m < j ==> #[trigger] find_seq(hay, ops[m].0) is None);
        },
    }
}

/// A two-character operator is never read as a one-character one: a filter
/// parsed as `=`, `>` or `<` holds none of `!=`, `>=` and `<=`, and one
/// parsed as `>` or `<` holds no `=` at all.
pub proof fn law_filter_operators_not_split(f: Seq<char>)
    ensures
        filter_parse(f) matches Ok(v) && (v.1 is Eq || v.1 is Gt || v.1 is Lt) ==> !contains_seq(
            trim(f),
            "!="@,
        ) && !contains_seq(trim(f), ">="@) && !contains_seq(trim(f), "<="@),
        filter_parse(f) matches Ok(v) && (v.1 is Gt || v.1 is Lt) ==> !contains_seq(trim(f), "="@),
{
    let t = trim(f);
    if t.len() > 0 {
        let w = first_op_split(t, lower_seq(t), word_ops(), 0);
        if w is Some {
            lemma_first_op_split_pick(t, lower_seq(t), word_ops(), 0);
        } else {
            let s = first_op_split(t, t, symbol_ops(), 0);
            if s is Some {
                lemma_first_op_split_pick(t, t, symbol_ops(), 0);
                let ops = symbol_ops();
                let j = choose|j: int|
                    0 <= j < ops.len() && s.unwrap().1 == ops[j].1 && find_seq(t, ops[j].0) is Some
                        && forall|m: int| 0 <= m < j ==> #[trigger] find_seq(t, ops[m].0) is None;
                assert(find_seq(t, ops[0].0) is None || j == 0);
                if j >= 3 {
                    assert(find_seq(t, ops[0].0) is None);
                    assert(find_seq(t, ops[1].0) is None);
                    assert(find_seq(t, ops[2].0) is None);
                }
                if j >= 4 {
                    assert(find_seq(t, ops[3].0) is None);
                }
            }
        }
    }
}

/// A character that the symbolic operators are made of.
pub open spec fn operator_char(ch: char) -> bool {
    ch == '!' || ch == '=' || ch == '<' || ch == '>'
}

/// A non-empty column name or value with no whitespace and no operator
/// character.
pub open spec fn plain_operand(x: Seq<char>) -> bool {
    x.len() > 0 && forall|i: int| 0 <= i < x.len() ==> !is_ws(#[trigger] x[i]) && !operator_char(x[i])
}

/// `column op value` with one space on each side of the operator.
pub open spec fn spaced_filter(c: Seq<char>, op: Seq<char>, v: Seq<char>) -> Seq<char> {
    c + seq![' '] + op + seq![' '] + v
}

/// In a spaced filter, text made of operator characters can only occur
/// inside the operator.
proof fn lemma_operator_text_in_operator(c: Seq<char>, op: Seq<char>, v: Seq<char>, nd: Seq<char>, i: int)
    requires
        plain_operand(c),
        plain_operand(v),
        nd.len() > 0,
        forall|k: int| 0 <= k < nd.len() ==> operator_char(#[trigger] nd[k]),
        crate::text::occurs_at(spaced_filter(c, op, v), nd, i),
    ensures
        c.len() + 1 <= i,
        i + nd.len() <= c.len() + 1 + op.len(),
        op.subrange(i - c.len() - 1, i - c.len() - 1 + nd.len()) == nd,
{
    let t = spaced_filter(c, op, v);
    let l = c.len() as int;
    let e = l + 1 + op.len();
    assert(t.subrange(i, i + nd.len()) == nd);
    let a = i;
    let b = i + nd.len() - 1;
    assert(t[a] == nd[0]);
    assert(t[b] == nd[nd.len() - 1]);
    assert(operator_char(t[a]));
    assert(operator_char(t[b]));
    if a < l {
        assert(t[a] == c[a]);
    }
    if a == l || a == e {
        assert(t[a] == ' ');
    }
    if a > e {
        assert(t[a] == v[a - e - 1]);
    }
    if b < l {
        assert(t[b] == c[b]);
    }
    if b == l || b == e {
        assert(t[b] == ' ');
    }
    if b > e {
        assert(t[b] == v[b - e - 1]);
    }
    assert(op.subrange(i - l - 1, i - l - 1 + nd.len()) =~= nd) by {
        assert forall|k: int| 0 <= k < nd.len() implies op.subrange(i - l - 1, i - l - 1 + nd.len())[k]
            == nd[k] by {
            assert(t[i + k] == nd[k]);
            assert(t[i + k] == op[i - l - 1 + k]);
        }
    }
}

/// In a spaced filter, the only spaces are the two around the operator.
proof fn lemma_spaced_filter_spaces(c: Seq<char>, op: Seq<char>, v: Seq<char>, k: int)
    requires
        plain_operand(c),
        plain_operand(v),
        forall|m: int| 0 <= m < op.len() ==> operator_char(#[trigger] op[m]),
        0 <= k < spaced_filter(c, op, v).len(),
        lower_seq(spaced_filter(c, op, v))[k] == ' ',
    ensures
        k == c.len() || k == c.len() + 1 + op.len(),
{
    let t = spaced_filter(c, op, v);
    let l = c.len() as int;
    let e = l + 1 + op.len();
    assert(crate::text::lower_char(t[k]) == ' ');
    assert(t[k] == ' ');
    if k < l {
        assert(t[k] == c[k]);
    } else if l < k < e {
        assert(t[k] == op[k - l - 1]);
    } else if k > e {
        assert(t[k] == v[k - e - 1]);
    }
}

/// No word operator occurs in a spaced filter with a symbolic operator.
proof fn lemma_no_word_operator(c: Seq<char>, op: Seq<char>, v: Seq<char>, w: Seq<char>)
    requires
        plain_operand(c),
        plain_operand(v),
        op.len() <= 2,
        forall|m: int| 0 <= m < op.len() ==> operator_char(#[trigger] op[m]),
        w.len() >= 5,
        w[0] == ' ',
        w[w.len() - 1] == ' ',
    ensures
        !contains_seq(lower_seq(spaced_filter(c, op, v)), w),
{
    let lt = lower_seq(spaced_filter(c, op, v));
    if contains_seq(lt, w) {
        let i = choose|i: int| crate::text::occurs_at(lt, w, i);
        assert(lt.subrange(i, i + w.len()) == w);
        assert(lt[i] == w[0]);
        assert(lt[i + w.len() - 1] == w[w.len() - 1]);
        lemma_spaced_filter_spaces(c, op, v, i);
        lemma_spaced_filter_spaces(c, op, v, i + w.len() - 1);
    }
}

proof fn lemma_first_op_split_skip(
    t: Seq<char>,
    hay: Seq<char>,
    ops: Seq<(Seq<char>, ComparisonOperator)>,
    k: int,
    j: int,
)
    requires
        0 <= k <= j <= ops.len(),
        forall|m: int| k <= m < j ==> #[trigger] find_seq(hay, ops[m].0) is None,
    ensures
        first_op_split(t, hay, ops, k) == first_op_split(t, hay, ops, j),
    decreases j - k,
{
    if k < j {
        lemma_first_op_split_skip(t, hay, ops, k + 1, j);
    }
}

/// A filter written `column op value`, with a symbolic operator between
/// single spaces and a column and value free of whitespace and operator
/// characters, reads as that column, that operator and that value (with
/// one pair of surrounding quotes taken off the value).
pub proof fn law_filter_reads_spaced_symbolic(c: Seq<char>, v: Seq<char>, j: int)
    requires
        plain_operand(c),
        plain_operand(v),
        0 <= j < symbol_ops().len(),
    ensures
        filter_parse(spaced_filter(c, symbol_ops()[j].0, v)) == Ok::<FilterView, Seq<char>>(
            (c, symbol_ops()[j].1, unquoted(v)),
        ),
{
    reveal_strlit("!=");
    reveal_strlit(">=");
    reveal_strlit("<=");
    reveal_strlit("=");
    reveal_strlit(">");
    reveal_strlit("<");
    reveal_strlit(" contains ");
    reveal_strlit(" startswith ");
    reveal_strlit(" endswith ");
    let ops = symbol_ops();
    let op = ops[j].0;
    let t = spaced_filter(c, op, v);
    let l = c.len() as int;
    assert(forall|m: int| 0 <= m < op.len() ==> operator_char(#[trigger] op[m]));
    // nothing to trim
    assert(t[0] == c[0]);
    assert(t.last() == v.last());
    crate::text::lemma_trim_plain(t);
    // no word operator
    let wo = word_ops();
    lemma_no_word_operator(c, op, v, wo[0].0);
    lemma_no_word_operator(c, op, v, wo[1].0);
    lemma_no_word_operator(c, op, v, wo[2].0);
    lemma_first_op_split_skip(t, lower_seq(t), wo, 0, 3);
    // the operators tried before this one do not occur
    assert forall|m: int| 0 <= m < j implies #[trigger] find_seq(t, ops[m].0) is None by {
        let nd = ops[m].0;
        if contains_seq(t, nd) {
            let i = choose|i: int| crate::text::occurs_at(t, nd, i);
            lemma_operator_text_in_operator(c, op, v, nd, i);
            let sub = op.subrange(i - l - 1, i - l - 1 + nd.len());
            assert(sub[0] == op[i - l - 1]);
        }
    }
    lemma_first_op_split_skip(t, t, ops, 0, j);
    // this one occurs first right after the column and its space
    assert(t.subrange(l + 1, l + 1 + op.len()) =~= op);
    assert forall|k: int| 0 <= k < l + 1 implies !crate::text::occurs_at(t, op, k) by {
        if crate::text::occurs_at(t, op, k) {
            lemma_operator_text_in_operator(c, op, v, op, k);
        }
    }
    crate::text::lemma_find_seq_is(t, op, l + 1);
    // the two sides
    let left = t.take(l + 1);
    assert(left =~= c + seq![' ']);
    assert(trim_start(left) == left);
    assert(left.drop_last() =~= c);
    assert(trim_end(c) == c);
    let right = t.skip(l + 1 + op.len());
    assert(right =~= seq![' '] + v);
    assert(right.subrange(1, right.len() as int) =~= v);
    assert(trim_start(v) == v);
    assert(trim_end(v) == v);
}

/// A word operator: a space, lower-case letters, and a space.
pub open spec fn word_shape(w: Seq<char>) -> bool {
    &&& w.len() >= 3
    &&& w[0] == ' '
    &&& w[w.len() - 1] == ' '
    &&& forall|k: int| 0 < k < w.len() - 1 ==> crate::text::is_lower(#[trigger] w[k])
}

/// In `c + w + v`, lowered, the only spaces are the two ends of `w`.
proof fn lemma_word_filter_spaces(c: Seq<char>, w: Seq<char>, v: Seq<char>, k: int)
    requires
        plain_operand(c),
        plain_operand(v),
        word_shape(w),
        0 <= k < (c + w + v).len(),
        lower_seq(c + w + v)[k] == ' ',
    ensures
        k == c.len() || k == c.len() + w.len() - 1,
{
    let t = c + w + v;
    let l = c.len() as int;
    let e = l + w.len();
    assert(crate::text::lower_char(t[k]) == ' ');
    assert(t[k] == ' ');
    if k < l {
        assert(t[k] == c[k]);
    } else if l < k < e - 1 {
        assert(t[k] == w[k - l]);
    } else if k >= e {
        assert(t[k] == v[k - e]);
    }
}

/// A filter written `column word value`, with a word operator such as
/// ` contains ` and a column and value free of whitespace and operator
/// characters, reads as that column, that operator and that value (with
/// one pair of surrounding quotes taken off the value).
pub proof fn law_filter_reads_word_operator(c: Seq<char>, v: Seq<char>, j: int)
    requires
        plain_operand(c),
        plain_operand(v),
        0 <= j < word_ops().len(),
    ensures
        filter_parse(c + word_ops()[j].0 + v) == Ok::<FilterView, Seq<char>>(
            (c, word_ops()[j].1, unquoted(v)),
        ),
{
    reveal_strlit(" contains ");
    reveal_strlit(" startswith ");
    reveal_strlit(" endswith ");
    let wo = word_ops();
    let w = wo[j].0;
    let t = c + w + v;
    let lt = lower_seq(t);
    let l = c.len() as int;
    assert(forall|m: int| 0 <= m < wo.len() ==> word_shape(#[trigger] wo[m].0));
    assert(t[0] == c[0]);
    assert(t.last() == v.last());
    crate::text::lemma_trim_plain(t);
    // the word operators tried before this one do not occur
    assert forall|m: int| 0 <= m < j implies #[trigger] find_seq(lt, wo[m].0) is None by {
        let nd = wo[m].0;
        if contains_seq(lt, nd) {
            let i = choose|i: int| crate::text::occurs_at(lt, nd, i);
            assert(lt.subrange(i, i + nd.len()) == nd);
            assert(lt[i] == nd[0]);
            assert(lt[i + nd.len() - 1] == nd[nd.len() - 1]);
            lemma_word_filter_spaces(c, w, v, i);
            lemma_word_filter_spaces(c, w, v, i + nd.len() - 1);
            assert(i == l);
            assert(nd.len() == w.len());
            assert(nd[1] == lt[l + 1]);
            assert(lt[l + 1] == crate::text::lower_char(t[l + 1]));
            assert(t[l + 1] == w[1]);
            assert(nd[2] == lt[l + 2]);
            assert(lt[l + 2] == crate::text::lower_char(t[l + 2]));
            assert(t[l + 2] == w[2]);
        }
    }
    lemma_first_op_split_skip(t, lt, wo, 0, j);
    // this one occurs first right after the column
    assert(lt.subrange(l, l + w.len()) =~= w) by {
        assert forall|k: int| 0 <= k < w.len() implies lt.subrange(l, l + w.len())[k] == w[k] by {
            assert(t[l + k] == w[k]);
        }
    }
    assert forall|k: int| 0 <= k < l implies !crate::text::occurs_at(lt, w, k) by {
        if crate::text::occurs_at(lt, w, k) {
            assert(lt.subrange(k, k + w.len()) == w);
            assert(lt[k] == w[0]);
            lemma_word_filter_spaces(c, w, v, k);
        }
    }
    crate::text::lemma_find_seq_is(lt, w, l);
    // the two sides
    assert(t.take(l) =~= c);
    assert(trim_start(c) == c);
    assert(trim_end(c) == c);
    assert(t.skip(l + w.len()) =~= v);
    assert(trim_start(v) == v);
    assert(trim_end(v) == v);
}

} // verus!
