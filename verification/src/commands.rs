//! Option parsing and column choices of the `process`, `join`, `stats` and
//! `schema verify` commands.
use vstd::prelude::*;

use crate::header::strs_view;
use crate::schema::{
    first_column_named, output_name_of, type_debug, ColumnMeta, ColumnType, Schema,
};
use crate::text::{
    ascii_lower, chars_of, lower_seq, parse_unsigned, parses_unsigned, split_chars, split_on,
    str_eq_chars, string_of, trim, trim_chars, unsigned_value,
};

verus! {

// ---------------------------------------------------------------------------
// Sort directives
// ---------------------------------------------------------------------------

/// A `column[:asc|desc]` sort key.
#[derive(Debug, Clone)]
pub struct SortDirective {
    pub column: String,
    pub ascending: bool,
}

/// A sort directive read as column and direction, or its error.
pub open spec fn sort_directive_parse(spec: Seq<char>) -> Result<(Seq<char>, bool), Seq<char>> {
    let parts = split_on(spec, ':');
    let column = trim(parts[0]);
    let direction = if parts.len() > 1 {
        parts[1]
    } else {
        "asc"@
    };
    let l = lower_seq(direction);
    if column.len() == 0 {
        Err("Sort directive is missing a column"@)
    } else if l == "asc"@ {
        Ok((column, true))
    } else if l == "desc"@ {
        Ok((column, false))
    } else {
        Err("Unknown sort direction '"@ + l + "'"@)
    }
}

impl SortDirective {
    pub fn parse(spec: &str) -> (r: Result<Self, String>)
        ensures
            match sort_directive_parse(spec@) {
                Ok((c, a)) => r matches Ok(d) && d.column@ == c && d.ascending == a,
                Err(e) => r matches Err(x) && x@ == e,
            },
    {
        let s = chars_of(spec);
        let parts = split_chars(s.as_slice(), ':');
        proof {
            crate::text::lemma_split_on_nonempty(s@, ':');
        }
        let column = trim_chars(parts[0].as_slice());
        if column.len() == 0 {
            return Err("Sort directive is missing a column".to_string());
        }
        let direction = if parts.len() > 1 {
            crate::text::clone_chars(parts[1].as_slice())
        } else {
            chars_of("asc")
        };
        let l = ascii_lower(direction.as_slice());
        if str_eq_chars("asc", l.as_slice()) {
            Ok(SortDirective { column: string_of(column.as_slice()), ascending: true })
        } else if str_eq_chars("desc", l.as_slice()) {
            Ok(SortDirective { column: string_of(column.as_slice()), ascending: false })
        } else {
            Err(crate::text::cat3("Unknown sort direction '", l.as_slice(), "'"))
        }
    }
}

// ---------------------------------------------------------------------------
// Join keys
// ---------------------------------------------------------------------------

/// The non-empty trimmed parts of a comma-separated key list.
pub open spec fn key_parts(value: Seq<char>) -> Seq<Seq<char>> {
    split_on(value, ',').map_values(|p: Seq<char>| trim(p)).filter(|p: Seq<char>| p.len() > 0)
}

/// The non-empty trimmed parts of a comma-separated list.
pub fn list_parts(value: &str) -> (r: Vec<String>)
    ensures
        strs_view(r@) == key_parts(value@),
{
    let s = chars_of(value);
    let parts = split_chars(s.as_slice(), ',');
    let ghost ps = split_on(s@, ',');
    let ghost tp = ps.map_values(|p: Seq<char>| trim(p));
    let mut out: Vec<String> = Vec::new();
    assert(tp.take(0).filter(|p: Seq<char>| p.len() > 0) =~= Seq::<Seq<char>>::empty()) by {
        reveal(Seq::filter);
    }
    assert(strs_view(out@) =~= Seq::<Seq<char>>::empty());
    for i in 0..parts.len()
        invariant
            parts@.len() == ps.len(),
            forall|q: int| 0 <= q < parts@.len() ==> #[trigger] parts@[q]@ == ps[q],
            tp == ps.map_values(|p: Seq<char>| trim(p)),
            strs_view(out@) == tp.take(i as int).filter(|p: Seq<char>| p.len() > 0),
    {
        assert(tp.take(i + 1).drop_last() =~= tp.take(i as int));
        proof {
            reveal(Seq::filter);
        }
        let t = trim_chars(parts[i].as_slice());
        let ghost before = strs_view(out@);
        if t.len() > 0 {
            out.push(string_of(t.as_slice()));
            assert(strs_view(out@) =~= before.push(t@));
        }
    }
    assert(tp.take(tp.len() as int) =~= tp);
    out
}

/// Reads `a,b,c` as key column names; an empty list is an error.
pub fn parse_key_list(value: &str) -> (r: Result<Vec<String>, String>)
    ensures
        key_parts(value@).len() > 0 ==> (r matches Ok(v) && strs_view(v@) == key_parts(value@)),
        key_parts(value@).len() == 0 ==> (r matches Err(e) && e@ == "Join key list cannot be empty"@),
{
    let out = list_parts(value);
    if out.len() == 0 {
        Err("Join key list cannot be empty".to_string())
    } else {
        Ok(out)
    }
}

/// Key types that join: equal, or an integer with a float.
pub open spec fn types_join(left: ColumnType, right: ColumnType) -> bool {
    (left == ColumnType::Integer && right == ColumnType::Float) || (left == ColumnType::Float
        && right == ColumnType::Integer) || left == right
}

pub fn same_type(left: &ColumnType, right: &ColumnType) -> (r: bool)
    ensures
        r == types_join(*left, *right),
{
    (*left == ColumnType::Integer && *right == ColumnType::Float) || (*left == ColumnType::Float
        && *right == ColumnType::Integer) || *left == *right
}

// ---------------------------------------------------------------------------
// Statistics columns
// ---------------------------------------------------------------------------

/// Types that summary statistics are computed for.
pub open spec fn stats_type(t: ColumnType) -> bool {
    t == ColumnType::Integer || t == ColumnType::Float || t == ColumnType::Currency || t is Decimal
        || t == ColumnType::Date || t == ColumnType::DateTime || t == ColumnType::Time
}

pub fn is_supported_datatype(datatype: &ColumnType) -> (r: bool)
    ensures
        r == stats_type(*datatype),
{
    *datatype == ColumnType::Integer || *datatype == ColumnType::Float || *datatype
        == ColumnType::Currency || datatype.decimal_spec().is_some() || *datatype == ColumnType::Date
        || *datatype == ColumnType::DateTime || *datatype == ColumnType::Time
}

/// The columns a `stats` run profiles, or the error for the first named
/// column that is missing (or, outside frequency mode, not of a profiled
/// type).
pub open spec fn stats_columns(
    cols: Seq<ColumnMeta>,
    names: Seq<Seq<char>>,
    frequency_mode: bool,
) -> Result<Seq<usize>, Seq<char>>
    decreases names.len(),
{
    if names.len() == 0 {
        Ok(Seq::empty())
    } else {
        match stats_columns(cols, names.drop_last(), frequency_mode) {
            Err(e) => Err(e),
            Ok(v) => match stats_column(cols, names.last(), frequency_mode) {
                Err(e) => Err(e),
                Ok(i) => Ok(v.push(i)),
            },
        }
    }
}

/// The column a name profiles, or its error.
pub open spec fn stats_column(cols: Seq<ColumnMeta>, n: Seq<char>, frequency_mode: bool) -> Result<
    usize,
    Seq<char>,
> {
    match first_column_named(cols, n) {
        None => Err("Column '"@ + n + "' not found in schema"@),
        Some(i) => if !frequency_mode && !stats_type(cols[i].datatype) {
            Err(
                "Column '"@ + output_name_of(cols[i]) + "' is type "@ + type_debug(cols[i].datatype)
                    + " and cannot be profiled for statistics"@,
            )
        } else {
            Ok(i as usize)
        },
    }
}

fn resolve_one(schema: &Schema, name: &str, frequency_mode: bool) -> (r: Result<usize, String>)
    ensures
        match stats_column(schema.columns@, name@, frequency_mode) {
            Ok(i) => r == Ok::<usize, String>(i),
            Err(e) => r matches Err(x) && x@ == e,
        },
{
    proof {
        reveal_strlit("");
    }
    match schema.column_index(name) {
        None => Err(crate::text::cat3("Column '", chars_of(name).as_slice(), "' not found in schema")),
        Some(i) => {
            let c = &schema.columns[i];
            if !frequency_mode && !is_supported_datatype(&c.datatype) {
                let mut m = chars_of("Column '");
                crate::text::extend_chars(&mut m, chars_of(c.output_name()).as_slice());
                crate::text::extend_chars(&mut m, chars_of("' is type ").as_slice());
                crate::text::extend_chars(&mut m, chars_of(c.datatype.debug_string().as_str()).as_slice());
                return Err(crate::text::cat3("", m.as_slice(), " and cannot be profiled for statistics"));
            }
            Ok(i)
        },
    }
}

/// Every column (frequency mode) or every column of a profiled type.
pub open spec fn default_stats_columns(cols: Seq<ColumnMeta>, frequency_mode: bool) -> Seq<usize> {
    Seq::new(cols.len(), |i: int| i as usize).filter(
        |i: usize| frequency_mode || stats_type(cols[i as int].datatype),
    )
}

proof fn lemma_stats_err_extends(cols: Seq<ColumnMeta>, names: Seq<Seq<char>>, f: bool, k: int)
    requires
        0 <= k <= names.len(),
        stats_columns(cols, names.take(k), f) is Err,
    ensures
        stats_columns(cols, names, f) == stats_columns(cols, names.take(k), f),
    decreases names.len() - k,
{
    if k < names.len() {
        assert(names.take(k + 1).drop_last() =~= names.take(k));
        lemma_stats_err_extends(cols, names, f, k + 1);
    } else {
        assert(names.take(k) =~= names);
    }
}

pub fn resolve_columns(schema: &Schema, specified: &[String], frequency_mode: bool) -> (r: Result<
    Vec<usize>,
    String,
>)
    ensures
        specified@.len() == 0 ==> (r matches Ok(v) && v@ == default_stats_columns(
            schema.columns@,
            frequency_mode,
        )),
        specified@.len() > 0 ==> match stats_columns(schema.columns@, strs_view(specified@), frequency_mode) {
            Ok(v) => r matches Ok(x) && x@ == v,
            Err(e) => r matches Err(x) && x@ == e,
        },
{
    let ghost cs = schema.columns@;
    if specified.len() == 0 {
        let mut out: Vec<usize> = Vec::new();
        let ghost all = Seq::new(cs.len(), |i: int| i as usize);
        assert(all.take(0).filter(|i: usize| frequency_mode || stats_type(cs[i as int].datatype))
            =~= Seq::<usize>::empty()) by {
            reveal(Seq::filter);
        }
        for i in 0..schema.columns.len()
            invariant
                cs == schema.columns@,
                all == Seq::new(cs.len(), |i: int| i as usize),
                out@ == all.take(i as int).filter(
                    |i: usize| frequency_mode || stats_type(cs[i as int].datatype),
                ),
        {
            assert(all.take(i + 1).drop_last() =~= all.take(i as int));
            assert(all.take(i + 1).last() == i);
            proof {
                reveal(Seq::filter);
            }
            if frequency_mode || is_supported_datatype(&schema.columns[i].datatype) {
                out.push(i);
            }
        }
        assert(all.take(cs.len() as int) =~= all);
        return Ok(out);
    }
    let ghost nv = strs_view(specified@);
    let mut out: Vec<usize> = Vec::new();
    assert(nv.take(0) =~= Seq::<Seq<char>>::empty());
    for k in 0..specified.len()
        invariant
            cs == schema.columns@,
            nv == strs_view(specified@),
            stats_columns(cs, nv.take(k as int), frequency_mode) == Ok::<Seq<usize>, Seq<char>>(out@),
    {
        assert(nv.take(k + 1).drop_last() =~= nv.take(k as int));
        assert(nv.take(k + 1).last() == specified@[k as int]@);
        match resolve_one(schema, specified[k].as_str(), frequency_mode) {
            Err(e) => {
                proof {
                    lemma_stats_err_extends(cs, nv, frequency_mode, k + 1);
                }
                return Err(e);
            },
            Ok(i) => {
                out.push(i);
            },
        }
    }
    assert(nv.take(specified@.len() as int) =~= nv);
    Ok(out)
}

// ---------------------------------------------------------------------------
// Invalid value reports
// ---------------------------------------------------------------------------

/// What a report of invalid values shows.
#[derive(Debug, Clone, Copy, PartialEq, Eq, Structural)]
pub struct InvalidReportOptions {
    pub show_detail: bool,
    pub show_summary: bool,
    pub limit: Option<usize>,
}

/// The options after `values` (from the start), or the first bad value.
pub open spec fn report_options_fold(values: Seq<Seq<char>>) -> Result<(bool, bool, Option<usize>), Seq<char>>
    decreases values.len(),
{
    if values.len() == 0 {
        Ok((false, false, None))
    } else {
        match report_options_fold(values.drop_last()) {
            Err(e) => Err(e),
            Ok((d, s, l)) => {
                let t = values.last();
                let low = lower_seq(t);
                if t.len() == 0 {
                    Ok((d, s, l))
                } else if low == "detail"@ {
                    Ok((true, s, l))
                } else if low == "summary"@ {
                    Ok((d, true, l))
                } else if parses_unsigned(t, usize::MAX as nat) {
                    Ok((d || !s, s, Some(unsigned_value(t) as usize)))
                } else {
                    Err(
                        "Invalid value '"@ + t
                            + "' for --report-invalid; expected 'detail', 'summary', or a positive integer limit"@,
                    )
                }
            },
        }
    }
}

/// The report options: `detail`, `summary` (any case) and a row limit,
/// which turns detail on when neither was asked for; summary alone when
/// nothing is asked for.
pub open spec fn report_options(values: Seq<Seq<char>>) -> Result<InvalidReportOptions, Seq<char>> {
    match report_options_fold(values) {
        Err(e) => Err(e),
        Ok((d, s, l)) => Ok(
            InvalidReportOptions { show_detail: d, show_summary: s || !(d || s), limit: l },
        ),
    }
}

proof fn lemma_report_err_extends(values: Seq<Seq<char>>, k: int)
    requires
        0 <= k <= values.len(),
        report_options_fold(values.take(k)) is Err,
    ensures
        report_options_fold(values) == report_options_fold(values.take(k)),
    decreases values.len() - k,
{
    if k < values.len() {
        assert(values.take(k + 1).drop_last() =~= values.take(k));
        lemma_report_err_extends(values, k + 1);
    } else {
        assert(values.take(k) =~= values);
    }
}

pub fn parse_report_invalid_options(values: &[String]) -> (r: Result<InvalidReportOptions, String>)
    ensures
        match report_options(strs_view(values@)) {
            Ok(o) => r == Ok::<InvalidReportOptions, String>(o),
            Err(e) => r matches Err(x) && x@ == e,
        },
{
    let ghost vv = strs_view(values@);
    let mut show_detail = false;
    let mut show_summary = false;
    let mut limit: Option<usize> = None;
    assert(vv.take(0) =~= Seq::<Seq<char>>::empty());
    for k in 0..values.len()
        invariant
            vv == strs_view(values@),
            report_options_fold(vv.take(k as int)) == Ok::<(bool, bool, Option<usize>), Seq<char>>(
                (show_detail, show_summary, limit),
            ),
    {
        assert(vv.take(k + 1).drop_last() =~= vv.take(k as int));
        assert(vv.take(k + 1).last() == values@[k as int]@);
        let t = chars_of(values[k].as_str());
        if t.len() > 0 {
            let low = ascii_lower(t.as_slice());
            if str_eq_chars("detail", low.as_slice()) {
                show_detail = true;
            } else if str_eq_chars("summary", low.as_slice()) {
                show_summary = true;
            } else {
                match parse_unsigned(t.as_slice(), usize::MAX as u64) {
                    Some(v) => {
                        limit = Some(v as usize);
                        if !show_detail && !show_summary {
                            show_detail = true;
                        }
                    },
                    None => {
                        proof {
                            lemma_report_err_extends(vv, k + 1);
                        }
                        return Err(
                            crate::text::cat3(
                                "Invalid value '",
                                t.as_slice(),
                                "' for --report-invalid; expected 'detail', 'summary', or a positive integer limit",
                            ),
                        );
                    },
                }
            }
        }
    }
    assert(vv.take(values@.len() as int) =~= vv);
    if !show_detail && !show_summary {
        show_summary = true;
    }
    Ok(InvalidReportOptions { show_detail, show_summary, limit })
}

/// A value in red on a terminal.
pub open spec fn red(value: Seq<char>) -> Seq<char> {
    "\u{1b}[31m"@ + value + "\u{1b}[0m"@
}

pub fn highlight_red(value: &str) -> (r: String)
    ensures
        r@ == red(value@),
{
    crate::text::cat3("\u{1b}[31m", chars_of(value).as_slice(), "\u{1b}[0m")
}


// ---------------------------------------------------------------------------
// Listing a schema's columns
// ---------------------------------------------------------------------------

/// The listing row of column `i`: its position from 1, its name, its type,
/// and its output name when that differs from the name.
pub open spec fn column_listing_row(c: ColumnMeta, i: int) -> Seq<Seq<char>> {
    seq![
        crate::text::nat_to_seq((i + 1) as nat),
        c.name@,
        crate::schema::type_description(c.datatype),
        if output_name_of(c) != c.name@ {
            output_name_of(c)
        } else {
            Seq::empty()
        },
    ]
}

pub fn column_listing_rows(schema: &Schema) -> (r: Vec<Vec<String>>)
    requires
        schema.columns@.len() < usize::MAX,
    ensures
        r@.len() == schema.columns@.len(),
        forall|i: int| 0 <= i < r@.len() ==> strs_view(#[trigger] r@[i]@) == column_listing_row(schema.columns@[i], i),
{
    let mut rows: Vec<Vec<String>> = Vec::new();
    for i in 0..schema.columns.len()
        invariant
            schema.columns@.len() < usize::MAX,
            rows@.len() == i,
            forall|j: int| 0 <= j < i ==> strs_view(#[trigger] rows@[j]@) == column_listing_row(schema.columns@[j], j),
    {
        let c = &schema.columns[i];
        let position = string_of(crate::text::usize_to_chars(i + 1).as_slice());
        let name = c.name.clone();
        let datatype = c.datatype.describe();
        let output = c.output_name();
        let rename = if !crate::text::str_eq(output, c.name.as_str()) {
            output.to_string()
        } else {
            String::new()
        };
        let row = vec![position, name, datatype, rename];
        assert(strs_view(row@) =~= column_listing_row(schema.columns@[i as int], i as int));
        rows.push(row);
    }
    rows
}

} // verus!
