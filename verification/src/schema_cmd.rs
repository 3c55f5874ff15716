//! The `schema` command's logic: column definitions and replacements given
//! on the command line, type overrides, default output names, and the probe
//! report.
use vstd::prelude::*;

use sha2::{Digest, Sha256};

use crate::header::strs_view;
use crate::schema::{
    column_type_from_seq, type_description, ColumnMeta, ColumnType, Schema, ValueReplacement,
};
use crate::text::{
    ascii_lower, cat3, char_is_alnum, char_is_lower, char_is_upper, char_to_lower, chars_of,
    is_alnum, is_lower, is_upper, lower_char, lower_seq, split_chars, split_on,
    split_once_chars, split_once_seq, str_eq, string_of, trim, trim_chars, trim_str,
};

verus! {

// ---------------------------------------------------------------------------
// Default output names
// ---------------------------------------------------------------------------

/// The scan state of `to_lower_snake_case`: the text so far, whether the
/// last character was a separator, whether it was an uppercase letter.
pub type SnakeState = (Seq<char>, bool, bool);

/// One character of the scan; `s[i + 1]` is looked at to tell where a run
/// of capitals ends (`HTTPStatus` is `http_status`).
pub open spec fn snake_step(st: SnakeState, s: Seq<char>, i: int) -> SnakeState {
    let ch = s[i];
    let (res, sep, up) = st;
    let ends_sep = res.len() > 0 && res.last() == '_';
    if is_alnum(ch) {
        if is_upper(ch) {
            let next_lower = i + 1 < s.len() && is_lower(s[i + 1]);
            let res2 = if res.len() > 0 && (!sep && (!up || next_lower)) && !ends_sep {
                res.push('_')
            } else {
                res
            };
            (res2.push(lower_char(ch)), false, true)
        } else {
            let res2 = if res.len() > 0 && sep && !ends_sep {
                res.push('_')
            } else {
                res
            };
            (res2.push(lower_char(ch)), false, false)
        }
    } else {
        let res2 = if !ends_sep && res.len() > 0 {
            res.push('_')
        } else {
            res
        };
        (res2, true, false)
    }
}

pub open spec fn snake_scan(s: Seq<char>, i: int) -> SnakeState
    decreases i,
{
    if i <= 0 {
        (Seq::empty(), true, false)
    } else {
        snake_step(snake_scan(s, i - 1), s, i - 1)
    }
}

/// `s` without trailing `_`.
pub open spec fn strip_trailing_underscores(s: Seq<char>) -> Seq<char>
    decreases s.len(),
{
    if s.len() > 0 && s.last() == '_' {
        strip_trailing_underscores(s.drop_last())
    } else {
        s
    }
}

/// A name in lower snake case: words split at separators and at the start
/// of a capitalized word, joined by `_`; the name lowercased when nothing
/// is left.
pub open spec fn lower_snake(value: Seq<char>) -> Seq<char> {
    let r = strip_trailing_underscores(snake_scan(value, value.len() as int).0);
    if r.len() == 0 {
        lower_seq(value)
    } else {
        r
    }
}

pub fn to_lower_snake_case(value: &str) -> (r: String)
    ensures
        r@ == lower_snake(value@),
{
    let s = chars_of(value);
    let mut res: Vec<char> = Vec::new();
    let mut sep = true;
    let mut up = false;
    for i in 0..s.len()
        invariant
            s@ == value@,
            (res@, sep, up) == snake_scan(s@, i as int),
    {
        let ch = s[i];
        let ends_sep = res.len() > 0 && res[res.len() - 1] == '_';
        if char_is_alnum(ch) {
            if char_is_upper(ch) {
                let next_lower = i + 1 < s.len() && char_is_lower(s[i + 1]);
                if res.len() > 0 && (!sep && (!up || next_lower)) && !ends_sep {
                    res.push('_');
                }
                res.push(char_to_lower(ch));
                sep = false;
                up = true;
            } else {
                if res.len() > 0 && sep && !ends_sep {
                    res.push('_');
                }
                res.push(char_to_lower(ch));
                sep = false;
                up = false;
            }
        } else {
            if !ends_sep && res.len() > 0 {
                res.push('_');
            }
            sep = true;
            up = false;
        }
    }
    let ghost full = res@;
    while res.len() > 0 && res[res.len() - 1] == '_'
        invariant
            strip_trailing_underscores(full) == strip_trailing_underscores(res@),
        decreases res.len(),
    {
        let ghost before = res@;
        res.pop();
        assert(res@ =~= before.drop_last());
    }
    if res.len() == 0 {
        let l = ascii_lower(s.as_slice());
        string_of(l.as_slice())
    } else {
        string_of(res.as_slice())
    }
}

/// The (name, suggested name) pairs of the columns without an output name,
/// in column order.
pub open spec fn default_name_suggestions(cols: Seq<ColumnMeta>) -> Seq<(Seq<char>, Seq<char>)>
    decreases cols.len(),
{
    if cols.len() == 0 {
        Seq::empty()
    } else {
        let prev = default_name_suggestions(cols.drop_last());
        if cols.last().rename is None {
            prev.push((cols.last().name@, lower_snake(cols.last().name@)))
        } else {
            prev
        }
    }
}

pub open spec fn string_pairs_view(v: Seq<(String, String)>) -> Seq<(Seq<char>, Seq<char>)> {
    v.map_values(|p: (String, String)| (p.0@, p.1@))
}

/// Gives each column without an output name its name in lower snake case,
/// and returns those columns' names with the names suggested.
pub fn apply_default_name_mappings(schema: &mut Schema) -> (r: Vec<(String, String)>)
    ensures
        string_pairs_view(r@) == default_name_suggestions(old(schema).columns@),
        final(schema).columns@.len() == old(schema).columns@.len(),
        final(schema).schema_version == old(schema).schema_version,
        final(schema).has_headers == old(schema).has_headers,
        forall|i: int|
            0 <= i < old(schema).columns@.len() ==> {
                let c = #[trigger] final(schema).columns@[i];
                let o = old(schema).columns@[i];
                &&& c.name == o.name
                &&& c.datatype == o.datatype
                &&& c.value_replacements == o.value_replacements
                &&& c.datatype_mappings == o.datatype_mappings
                &&& match o.rename {
                    Some(r) => c.rename == Some(r),
                    None => c.rename matches Some(x) && x@ == lower_snake(o.name@),
                }
            },
{
    let n = schema.columns.len();
    let ghost old_cols = schema.columns@;
    let mut suggested: Vec<(String, String)> = Vec::new();
    assert(old_cols.take(0) =~= Seq::<ColumnMeta>::empty());
    assert(string_pairs_view(suggested@) =~= Seq::<(Seq<char>, Seq<char>)>::empty());
    for i in 0..n
        invariant
            n == old_cols.len(),
            string_pairs_view(suggested@) == default_name_suggestions(old_cols.take(i as int)),
            schema.columns@.len() == n,
            old_cols == old(schema).columns@,
            schema.schema_version == old(schema).schema_version,
            schema.has_headers == old(schema).has_headers,
            forall|j: int| i <= j < n ==> #[trigger] schema.columns@[j] == old_cols[j],
            forall|j: int|
                0 <= j < i ==> {
                    let c = #[trigger] schema.columns@[j];
                    let o = old_cols[j];
                    &&& c.name == o.name
                    &&& c.datatype == o.datatype
                    &&& c.value_replacements == o.value_replacements
                    &&& c.datatype_mappings == o.datatype_mappings
                    &&& match o.rename {
                        Some(r) => c.rename == Some(r),
                        None => c.rename matches Some(x) && x@ == lower_snake(o.name@),
                    }
                },
    {
        assert(old_cols.take(i + 1).drop_last() =~= old_cols.take(i as int));
        assert(old_cols.take(i + 1).last() == old_cols[i as int]);
        if schema.columns[i].rename.is_none() {
            let ghost s0 = schema.columns@;
            let mut col = schema.columns.remove(i);
            let snake = to_lower_snake_case(col.name.as_str());
            let ghost sv = string_pairs_view(suggested@);
            suggested.push((col.name.clone(), snake.clone()));
            assert(string_pairs_view(suggested@) =~= sv.push((old_cols[i as int].name@, snake@)));
            col.rename = Some(snake);
            let ghost before = schema.columns@;
            schema.columns.insert(i, col);
            assert forall|j: int| 0 <= j < n && j != i implies #[trigger] schema.columns@[j]
                == s0[j] by {
                if j < i {
                    assert(before[j] == s0[j]);
                } else {
                    assert(before[j - 1] == s0[j]);
                }
            }
        }
    }
    assert(old_cols.take(n as int) =~= old_cols);
    suggested
}

// ---------------------------------------------------------------------------
// Sample display
// ---------------------------------------------------------------------------

/// Longest sample shown in a report.
pub const SAMPLE_DISPLAY_LIMIT: usize = 32;

/// The first 32 characters, with `…` when more follow.
pub open spec fn truncated(value: Seq<char>) -> Seq<char> {
    if value.len() > SAMPLE_DISPLAY_LIMIT {
        value.take(SAMPLE_DISPLAY_LIMIT as int).push('…')
    } else {
        value
    }
}

pub fn truncate_sample(value: &str) -> (r: String)
    ensures
        r@ == truncated(value@),
{
    let s = chars_of(value);
    if s.len() > SAMPLE_DISPLAY_LIMIT {
        let mut t = crate::text::slice_chars(s.as_slice(), 0, SAMPLE_DISPLAY_LIMIT);
        t.push('…');
        assert(t@ =~= s@.take(SAMPLE_DISPLAY_LIMIT as int).push('…'));
        string_of(t.as_slice())
    } else {
        string_of(s.as_slice())
    }
}

/// A tracked value as a histogram shows it: line breaks and tabs as
/// spaces, truncated.
pub open spec fn histogram_value(value: Seq<char>) -> Seq<char> {
    truncated(crate::table::sanitized(value))
}

pub fn summarize_histogram_value(value: &str) -> (r: String)
    ensures
        r@ == histogram_value(value@),
{
    let s = crate::table::sanitize_cell(value);
    truncate_sample(s.as_str())
}

// ---------------------------------------------------------------------------
// Type overrides
// ---------------------------------------------------------------------------

/// The types of the columns.
pub open spec fn types_of(cs: Seq<ColumnMeta>) -> Seq<ColumnType> {
    cs.map_values(|c: ColumnMeta| c.datatype)
}

/// The names of the columns.
pub open spec fn names_of(cs: Seq<ColumnMeta>) -> Seq<Seq<char>> {
    cs.map_values(|c: ColumnMeta| c.name@)
}

fn find_column(cols: &[ColumnMeta], name: &[char]) -> (r: Option<usize>)
    ensures
        r matches Some(i) ==> first_name_index(names_of(cols@), name@) == Some(i as int),
        r is None ==> first_name_index(names_of(cols@), name@) is None,
        r matches Some(i) ==> i < cols@.len(),
{
    let ghost names = names_of(cols@);
    for i in 0..cols.len()
        invariant
            names == names_of(cols@),
            forall|j: int| 0 <= j < i ==> names[j] != name@,
    {
        assert(names[i as int] == cols@[i as int].name@);
        if crate::text::str_eq_chars(cols[i].name.as_str(), name) {
            proof {
                let k = choose|k: int|
                    0 <= k < names.len() && names[k] == name@ && forall|j: int|
                        0 <= j < k ==> names[j] != name@;
                if k > i {
                    assert(names[i as int] != name@);
                }
                assert(k == i);
            }
            return Some(i);
        }
    }
    None
}

/// Column `i` with type `t`, the other columns and fields as they were.
fn set_column_type(cols: &mut Vec<ColumnMeta>, i: usize, t: ColumnType)
    requires
        i < old(cols)@.len(),
    ensures
        final(cols)@.len() == old(cols)@.len(),
        forall|j: int| 0 <= j < old(cols)@.len() && j != i ==> #[trigger] final(cols)@[j] == old(cols)@[j],
        final(cols)@[i as int].name == old(cols)@[i as int].name,
        final(cols)@[i as int].rename == old(cols)@[i as int].rename,
        final(cols)@[i as int].value_replacements == old(cols)@[i as int].value_replacements,
        final(cols)@[i as int].datatype_mappings == old(cols)@[i as int].datatype_mappings,
        final(cols)@[i as int].datatype == t,
{
    let ghost s0 = cols@;
    let mut col = cols.remove(i);
    col.datatype = t;
    let ghost before = cols@;
    cols.insert(i, col);
    assert forall|j: int| 0 <= j < s0.len() && j != i implies #[trigger] cols@[j] == s0[j] by {
        if j < i {
            assert(before[j] == s0[j]);
        } else {
            assert(before[j - 1] == s0[j]);
        }
    }
}

/// An override read: `None` for a blank entry, else the column name and
/// type, or the error it gives (given the names already overridden).
pub open spec fn override_parse(raw: Seq<char>, ap: Seq<Seq<char>>) -> Result<
    Option<(Seq<char>, ColumnType)>,
    Seq<char>,
> {
    let spec = trim(raw);
    if spec.len() == 0 {
        Ok(None)
    } else {
        match split_once_seq(spec, ":"@) {
            None => Err("Override '"@ + spec + "' must use the form name:type"@),
            Some((np, tp)) => {
                let name = trim(np);
                if name.len() == 0 {
                    Err("Override '"@ + spec + "' is missing a column name"@)
                } else if ap.contains(name) {
                    Err("Duplicate override provided for column '"@ + name + "'"@)
                } else {
                    match column_type_from_seq(trim(tp)) {
                        None => Err(
                            "Override for column '"@ + name + "' has invalid type '"@ + tp + "'"@,
                        ),
                        Some(t) => Ok(Some((name, t))),
                    }
                }
            },
        }
    }
}

/// One override applied to the column types and the names overridden so
/// far, or its error.
pub open spec fn override_step(
    ts: Seq<ColumnType>,
    ap: Seq<Seq<char>>,
    names: Seq<Seq<char>>,
    raw: Seq<char>,
) -> Result<(Seq<ColumnType>, Seq<Seq<char>>), Seq<char>> {
    match override_parse(raw, ap) {
        Err(e) => Err(e),
        Ok(None) => Ok((ts, ap)),
        Ok(Some((name, t))) => match first_name_index(names, name) {
            Some(i) => Ok((ts.update(i, t), ap.push(name))),
            None => Err("Override references unknown column '"@ + name + "'"@),
        },
    }
}

fn parse_override(raw: &str, applied: &[String]) -> (r: Result<Option<(Vec<char>, ColumnType)>, String>)
    ensures
        match override_parse(raw@, strs_view(applied@)) {
            Ok(None) => r matches Ok(None),
            Ok(Some((name, t))) => r matches Ok(Some((n, u))) && n@ == name && u == t,
            Err(e) => r matches Err(x) && x@ == e,
        },
{
    proof {
        reveal_strlit("");
    }
    let spec = trim_str(raw);
    if spec.len() == 0 {
        return Ok(None);
    }
    let colon = chars_of(":");
    let (np, tp) = match split_once_chars(spec.as_slice(), colon.as_slice()) {
        None => {
            return Err(cat3("Override '", spec.as_slice(), "' must use the form name:type"));
        },
        Some(parts) => parts,
    };
    let name = trim_chars(np.as_slice());
    if name.len() == 0 {
        return Err(cat3("Override '", spec.as_slice(), "' is missing a column name"));
    }
    let mut dup = false;
    for q in 0..applied.len()
        invariant
            dup <==> exists|z: int| 0 <= z < q && strs_view(applied@)[z] == name@,
    {
        assert(strs_view(applied@)[q as int] == applied@[q as int]@);
        if crate::text::str_eq_chars(applied[q].as_str(), name.as_slice()) {
            dup = true;
        }
    }
    if dup {
        return Err(cat3("Duplicate override provided for column '", name.as_slice(), "'"));
    }
    let tps = string_of(trim_chars(tp.as_slice()).as_slice());
    match ColumnType::from_str(tps.as_str()) {
        Ok(t) => Ok(Some((name, t))),
        Err(_) => {
            let mut m = chars_of("Override for column '");
            crate::text::extend_chars(&mut m, name.as_slice());
            crate::text::extend_chars(&mut m, chars_of("' has invalid type '").as_slice());
            crate::text::extend_chars(&mut m, tp.as_slice());
            Err(cat3("", m.as_slice(), "'"))
        },
    }
}

/// The first position of `n` in `names`.
pub open spec fn first_name_index(names: Seq<Seq<char>>, n: Seq<char>) -> Option<int> {
    if exists|i: int| 0 <= i < names.len() && names[i] == n {
        Some(
            choose|i: int|
                0 <= i < names.len() && names[i] == n && forall|j: int| 0 <= j < i ==> names[j] != n,
        )
    } else {
        None
    }
}

proof fn lemma_least_witness(names: Seq<Seq<char>>, n: Seq<char>, i: int)
    requires
        0 <= i < names.len(),
        names[i] == n,
    ensures
        exists|k: int|
            0 <= k < names.len() && names[k] == n && forall|j: int| 0 <= j < k ==> names[j] != n,
    decreases i,
{
    if exists|j: int| 0 <= j < i && names[j] == n {
        let j = choose|j: int| 0 <= j < i && names[j] == n;
        lemma_least_witness(names, n, j);
    } else {
        assert(forall|j: int| 0 <= j < i ==> names[j] != n);
    }
}

proof fn lemma_first_name_index(names: Seq<Seq<char>>, n: Seq<char>)
    ensures
        match first_name_index(names, n) {
            Some(i) => 0 <= i < names.len() && names[i] == n && forall|j: int|
                0 <= j < i ==> names[j] != n,
            None => forall|i: int| 0 <= i < names.len() ==> names[i] != n,
        },
{
    if exists|i: int| 0 <= i < names.len() && names[i] == n {
        let i = choose|i: int| 0 <= i < names.len() && names[i] == n;
        lemma_least_witness(names, n, i);
    }
}

/// The overrides applied in order, stopping at the first error.
pub open spec fn overrides_fold(
    types: Seq<ColumnType>,
    names: Seq<Seq<char>>,
    specs: Seq<Seq<char>>,
    applied: Seq<Seq<char>>,
) -> Result<(Seq<ColumnType>, Seq<Seq<char>>), Seq<char>>
    decreases specs.len(),
{
    if specs.len() == 0 {
        Ok((types, applied))
    } else {
        match overrides_fold(types, names, specs.drop_last(), applied) {
            Err(e) => Err(e),
            Ok((ts, ap)) => override_step(ts, ap, names, specs.last()),
        }
    }
}

proof fn lemma_overrides_err_extends(
    types: Seq<ColumnType>,
    names: Seq<Seq<char>>,
    specs: Seq<Seq<char>>,
    k: int,
    applied: Seq<Seq<char>>,
)
    requires
        0 <= k <= specs.len(),
        overrides_fold(types, names, specs.take(k), applied) is Err,
    ensures
        overrides_fold(types, names, specs, applied) == overrides_fold(types, names, specs.take(k), applied),
    decreases specs.len() - k,
{
    if k < specs.len() {
        assert(specs.take(k + 1).drop_last() =~= specs.take(k));
        lemma_overrides_err_extends(types, names, specs, k + 1, applied);
    } else {
        assert(specs.take(k) =~= specs);
    }
}

fn apply_one_override(cols: &mut Vec<ColumnMeta>, applied: &mut Vec<String>, raw: &str) -> (r:
    Result<(), String>)
    ensures
        final(cols)@.len() == old(cols)@.len(),
        forall|i: int|
            0 <= i < old(cols)@.len() ==> {
                let c = #[trigger] final(cols)@[i];
                let o = old(cols)@[i];
                &&& c.name == o.name
                &&& c.rename == o.rename
                &&& c.value_replacements == o.value_replacements
                &&& c.datatype_mappings == o.datatype_mappings
            },
        match override_step(
            types_of(old(cols)@),
            strs_view(old(applied)@),
            names_of(old(cols)@),
            raw@,
        ) {
            Ok((ts, ap)) => r is Ok && strs_view(final(applied)@) == ap && types_of(final(cols)@) == ts,
            Err(e) => r matches Err(x) && x@ == e,
        },
{
    let ghost ap0 = strs_view(applied@);
    let parsed = parse_override(raw, applied.as_slice());
    let (name, t) = match parsed {
        Err(e) => {
            return Err(e);
        },
        Ok(None) => {
            return Ok(());
        },
        Ok(Some(p)) => p,
    };
    assert(override_parse(raw@, ap0) == Ok::<Option<(Seq<char>, ColumnType)>, Seq<char>>(Some((name@, t))));
    match find_column(cols.as_slice(), name.as_slice()) {
        None => Err(cat3("Override references unknown column '", name.as_slice(), "'")),
        Some(i) => {
            let ghost s0 = cols@;
            set_column_type(cols, i, t);
            applied.push(string_of(name.as_slice()));
            assert(strs_view(applied@) =~= ap0.push(name@));
            assert(types_of(cols@) =~= types_of(s0).update(i as int, t));
            Ok(())
        },
    }
}

/// Sets the type of each column named in `overrides` (`name:type`, blank
/// entries skipped); returns the names overridden.
pub fn apply_overrides(schema: &mut Schema, overrides: &[String]) -> (r: Result<Vec<String>, String>)
    ensures
        final(schema).columns@.len() == old(schema).columns@.len(),
        final(schema).schema_version == old(schema).schema_version,
        final(schema).has_headers == old(schema).has_headers,
        forall|i: int|
            0 <= i < old(schema).columns@.len() ==> {
                let c = #[trigger] final(schema).columns@[i];
                let o = old(schema).columns@[i];
                &&& c.name == o.name
                &&& c.rename == o.rename
                &&& c.value_replacements == o.value_replacements
                &&& c.datatype_mappings == o.datatype_mappings
            },
        ({
            let types = types_of(old(schema).columns@);
            let names = names_of(old(schema).columns@);
            match overrides_fold(types, names, strs_view(overrides@), Seq::empty()) {
                Ok((ts, ap)) => r matches Ok(v) && strs_view(v@) == ap && types_of(final(schema).columns@) == ts,
                Err(e) => r matches Err(x) && x@ == e,
            }
        }),
{
    let ghost types0 = types_of(schema.columns@);
    let ghost names = names_of(schema.columns@);
    let ghost specs = strs_view(overrides@);
    let ghost old_cols = schema.columns@;
    let mut applied: Vec<String> = Vec::new();
    let n = schema.columns.len();
    assert(specs.take(0) =~= Seq::<Seq<char>>::empty());
    assert(strs_view(applied@) =~= Seq::<Seq<char>>::empty());
    for k in 0..overrides.len()
        invariant
            n == old_cols.len(),
            old_cols == old(schema).columns@,
            schema.columns@.len() == n,
            schema.schema_version == old(schema).schema_version,
            schema.has_headers == old(schema).has_headers,
            specs == strs_view(overrides@),
            types0 == types_of(old_cols),
            names == names_of(old_cols),
            forall|i: int|
                0 <= i < n ==> {
                    let c = #[trigger] schema.columns@[i];
                    let o = old_cols[i];
                    &&& c.name == o.name
                    &&& c.rename == o.rename
                    &&& c.value_replacements == o.value_replacements
                    &&& c.datatype_mappings == o.datatype_mappings
                },
            overrides_fold(types0, names, specs.take(k as int), Seq::empty()) == Ok::<
                (Seq<ColumnType>, Seq<Seq<char>>),
                Seq<char>,
            >((types_of(schema.columns@), strs_view(applied@))),
    {
        assert(specs.take(k + 1).drop_last() =~= specs.take(k as int));
        assert(specs.take(k + 1).last() == overrides@[k as int]@);
        assert(names_of(schema.columns@) =~= names);
        let ghost before = schema.columns@;
        match apply_one_override(&mut schema.columns, &mut applied, overrides[k].as_str()) {
            Err(e) => {
                proof {
                    lemma_overrides_err_extends(types0, names, specs, k + 1, Seq::empty());
                }
                return Err(e);
            },
            Ok(()) => {},
        }
        assert forall|i: int| 0 <= i < n implies {
            let c = #[trigger] schema.columns@[i];
            let o = old_cols[i];
            &&& c.name == o.name
            &&& c.rename == o.rename
            &&& c.value_replacements == o.value_replacements
            &&& c.datatype_mappings == o.datatype_mappings
        } by {
            assert(schema.columns@[i].name == before[i].name);
        }
    }
    assert(specs.take(overrides@.len() as int) =~= specs);
    Ok(applied)
}

// ---------------------------------------------------------------------------
// Value replacements
// ---------------------------------------------------------------------------

/// The replacements of each column, as text pairs.
pub open spec fn reps_of(cs: Seq<ColumnMeta>) -> Seq<Seq<(Seq<char>, Seq<char>)>> {
    cs.map_values(|c: ColumnMeta| crate::sampling::rep_views(c.value_replacements@))
}

/// The position of the first replacement of `x`.
pub open spec fn from_position(r: Seq<(Seq<char>, Seq<char>)>, x: Seq<char>) -> Option<int>
    decreases r.len(),
{
    if r.len() == 0 {
        None
    } else if r[0].0 == x {
        Some(0)
    } else {
        match from_position(r.drop_first(), x) {
            Some(k) => Some(k + 1),
            None => None,
        }
    }
}

/// A replacement read (`column=value->new_value`): `None` for a blank
/// entry, else the column, the value and its replacement, all trimmed.
pub open spec fn replacement_parse(raw: Seq<char>, names: Seq<Seq<char>>) -> Result<
    Option<(Seq<char>, Seq<char>, Seq<char>)>,
    Seq<char>,
> {
    let spec = trim(raw);
    if spec.len() == 0 {
        Ok(None)
    } else {
        match split_once_seq(spec, "="@) {
            None => Err(
                "Replacement '"@ + spec + "' must use the form column=value->new_value"@,
            ),
            Some((cn, mapping)) => {
                let c = trim(cn);
                if c.len() == 0 {
                    Err("Replacement '"@ + spec + "' is missing a column name"@)
                } else if !names.contains(c) {
                    Err("Replacement references unknown column '"@ + c + "'"@)
                } else {
                    match split_once_seq(mapping, "->"@) {
                        None => Err(
                            "Replacement '"@ + spec
                                + "' must include '->' to separate original and replacement values"@,
                        ),
                        Some((a, b)) => Ok(Some((c, trim(a), trim(b)))),
                    }
                }
            },
        }
    }
}

/// The list with the replacement of `from` moved to the end with the new
/// value (added when there was none).
pub open spec fn upsert_rep(r: Seq<(Seq<char>, Seq<char>)>, from: Seq<char>, to: Seq<char>) -> Seq<
    (Seq<char>, Seq<char>),
> {
    let r2 = match from_position(r, from) {
        Some(p) => r.remove(p),
        None => r,
    };
    r2.push((from, to))
}

/// One replacement applied: the column's earlier replacement of the same
/// value is dropped and the new one appended.
pub open spec fn replacement_step(
    reps: Seq<Seq<(Seq<char>, Seq<char>)>>,
    names: Seq<Seq<char>>,
    raw: Seq<char>,
) -> Result<Seq<Seq<(Seq<char>, Seq<char>)>>, Seq<char>> {
    match replacement_parse(raw, names) {
        Err(e) => Err(e),
        Ok(None) => Ok(reps),
        Ok(Some((c, from, to))) => {
            let j = first_name_index(names, c).unwrap();
            Ok(reps.update(j, upsert_rep(reps[j], from, to)))
        },
    }
}

/// The replacements applied in order: the resulting lists, and the error
/// of the first entry that fails (the lists are then as before it).
pub open spec fn replacements_fold(
    reps: Seq<Seq<(Seq<char>, Seq<char>)>>,
    names: Seq<Seq<char>>,
    specs: Seq<Seq<char>>,
) -> (Seq<Seq<(Seq<char>, Seq<char>)>>, Option<Seq<char>>)
    decreases specs.len(),
{
    if specs.len() == 0 {
        (reps, None)
    } else {
        let (st, e) = replacements_fold(reps, names, specs.drop_last());
        if e is Some {
            (st, e)
        } else {
            match replacement_step(st, names, specs.last()) {
                Ok(s2) => (s2, None),
                Err(m) => (st, Some(m)),
            }
        }
    }
}

proof fn lemma_replacements_err_extends(
    reps: Seq<Seq<(Seq<char>, Seq<char>)>>,
    names: Seq<Seq<char>>,
    specs: Seq<Seq<char>>,
    k: int,
)
    requires
        0 <= k <= specs.len(),
        replacements_fold(reps, names, specs.take(k)).1 is Some,
    ensures
        replacements_fold(reps, names, specs) == replacements_fold(reps, names, specs.take(k)),
    decreases specs.len() - k,
{
    if k < specs.len() {
        assert(specs.take(k + 1).drop_last() =~= specs.take(k));
        lemma_replacements_err_extends(reps, names, specs, k + 1);
    } else {
        assert(specs.take(k) =~= specs);
    }
}

fn parse_replacement(raw: &str, cols: &[ColumnMeta]) -> (r: Result<
    Option<(Vec<char>, String, String)>,
    String,
>)
    ensures
        match replacement_parse(raw@, names_of(cols@)) {
            Ok(None) => r matches Ok(None),
            Ok(Some((c, f, t))) => r matches Ok(Some((x, y, z))) && x@ == c && y@ == f && z@ == t,
            Err(e) => r matches Err(m) && m@ == e,
        },
{
    let spec = trim_str(raw);
    if spec.len() == 0 {
        return Ok(None);
    }
    let eq = chars_of("=");
    let (cn, mapping) = match split_once_chars(spec.as_slice(), eq.as_slice()) {
        None => {
            return Err(
                cat3(
                    "Replacement '",
                    spec.as_slice(),
                    "' must use the form column=value->new_value",
                ),
            );
        },
        Some(parts) => parts,
    };
    let c = trim_chars(cn.as_slice());
    if c.len() == 0 {
        return Err(cat3("Replacement '", spec.as_slice(), "' is missing a column name"));
    }
    match find_column(cols, c.as_slice()) {
        None => {
            proof {
                lemma_first_name_index(names_of(cols@), c@);
                if names_of(cols@).contains(c@) {
                    let k = choose|k: int| 0 <= k < names_of(cols@).len() && names_of(cols@)[k] == c@;
                }
            }
            return Err(cat3("Replacement references unknown column '", c.as_slice(), "'"));
        },
        Some(i) => {
            assert(names_of(cols@)[i as int] == cols@[i as int].name@);
            proof {
                lemma_first_name_index(names_of(cols@), c@);
            }
        },
    }
    let arrow = chars_of("->");
    match split_once_chars(mapping.as_slice(), arrow.as_slice()) {
        None => Err(
            cat3(
                "Replacement '",
                spec.as_slice(),
                "' must include '->' to separate original and replacement values",
            ),
        ),
        Some((a, b)) => Ok(
            Some(
                (
                    c,
                    string_of(trim_chars(a.as_slice()).as_slice()),
                    string_of(trim_chars(b.as_slice()).as_slice()),
                ),
            ),
        ),
    }
}

fn from_index(reps: &[ValueReplacement], from: &str) -> (r: Option<usize>)
    ensures
        r matches Some(p) ==> from_position(crate::sampling::rep_views(reps@), from@) == Some(
            p as int,
        ) && p < reps@.len(),
        r is None ==> from_position(crate::sampling::rep_views(reps@), from@) is None,
{
    let ghost rv = crate::sampling::rep_views(reps@);
    assert(rv.skip(0) =~= rv);
    for i in 0..reps.len()
        invariant
            rv == crate::sampling::rep_views(reps@),
            from_position(rv, from@) == match from_position(rv.skip(i as int), from@) {
                Some(k) => Some(k + i),
                None => None,
            },
    {
        assert(rv.skip(i as int)[0] == rv[i as int]);
        assert(rv.skip(i as int).drop_first() =~= rv.skip(i + 1));
        if str_eq(reps[i].from.as_str(), from) {
            return Some(i);
        }
    }
    None
}

proof fn lemma_from_position_range(r: Seq<(Seq<char>, Seq<char>)>, x: Seq<char>)
    ensures
        from_position(r, x) matches Some(p) ==> 0 <= p < r.len(),
    decreases r.len(),
{
    if r.len() > 0 {
        lemma_from_position_range(r.drop_first(), x);
    }
}

fn apply_one_replacement(cols: &mut Vec<ColumnMeta>, raw: &str) -> (r: Result<(), String>)
    ensures
        final(cols)@.len() == old(cols)@.len(),
        forall|i: int|
            0 <= i < old(cols)@.len() ==> {
                let c = #[trigger] final(cols)@[i];
                let o = old(cols)@[i];
                &&& c.name == o.name
                &&& c.datatype == o.datatype
                &&& c.rename == o.rename
                &&& c.datatype_mappings == o.datatype_mappings
            },
        match replacement_step(reps_of(old(cols)@), names_of(old(cols)@), raw@) {
            Ok(st) => r is Ok && reps_of(final(cols)@) == st,
            Err(e) => r matches Err(m) && m@ == e && final(cols)@ == old(cols)@,
        },
{
    let (c, from, to) = match parse_replacement(raw, cols.as_slice()) {
        Err(e) => {
            return Err(e);
        },
        Ok(None) => {
            return Ok(());
        },
        Ok(Some(p)) => p,
    };
    let j = match find_column(cols.as_slice(), c.as_slice()) {
        Some(j) => j,
        None => {
            return Ok(());
        },
    };
    replace_in_column(cols, j, from, to);
    Ok(())
}

fn replace_in_column(cols: &mut Vec<ColumnMeta>, j: usize, from: String, to: String)
    requires
        j < old(cols)@.len(),
    ensures
        final(cols)@.len() == old(cols)@.len(),
        forall|i: int|
            0 <= i < old(cols)@.len() ==> {
                let c = #[trigger] final(cols)@[i];
                let o = old(cols)@[i];
                &&& c.name == o.name
                &&& c.datatype == o.datatype
                &&& c.rename == o.rename
                &&& c.datatype_mappings == o.datatype_mappings
            },
        reps_of(final(cols)@) == reps_of(old(cols)@).update(
            j as int,
            upsert_rep(reps_of(old(cols)@)[j as int], from@, to@),
        ),
{
    let ghost s0 = cols@;
    let mut col = cols.remove(j);
    let ghost before = cols@;
    let ghost r0 = crate::sampling::rep_views(col.value_replacements@);
    assert(r0 == reps_of(s0)[j as int]);
    let ghost pos = from_position(r0, from@);
    match from_index(col.value_replacements.as_slice(), from.as_str()) {
        Some(p) => {
            assert(pos == Some(p as int));
            col.value_replacements.remove(p);
            assert(crate::sampling::rep_views(col.value_replacements@) =~= r0.remove(p as int));
        },
        None => {
            assert(pos is None);
        },
    }
    let ghost r1 = crate::sampling::rep_views(col.value_replacements@);
    let ghost fv = from@;
    let ghost tv = to@;
    col.value_replacements.push(ValueReplacement { from, to });
    assert(crate::sampling::rep_views(col.value_replacements@) =~= r1.push((fv, tv)));
    assert(r1 == match from_position(r0, fv) {
        Some(p) => r0.remove(p),
        None => r0,
    });
    let ghost cv = col.value_replacements@;
    cols.insert(j, col);
    assert(cols@[j as int].value_replacements@ == cv);
    assert(reps_of(cols@)[j as int] == upsert_rep(r0, fv, tv));
    assert forall|i: int| 0 <= i < s0.len() && i != j implies #[trigger] cols@[i] == s0[i] by {
        if i < j {
            assert(before[i] == s0[i]);
        } else {
            assert(before[i - 1] == s0[i]);
        }
    }
    assert(reps_of(cols@) =~= reps_of(s0).update(j as int, upsert_rep(r0, fv, tv)));
}

/// Applies `column=value->new_value` replacements in order (blank entries
/// skipped): each replaces the column's earlier replacement of the same
/// value.
#[verifier::rlimit(40)]
pub fn apply_replacements(columns: &mut Vec<ColumnMeta>, specs: &[String]) -> (r: Result<(), String>)
    ensures
        final(columns)@.len() == old(columns)@.len(),
        forall|i: int|
            0 <= i < old(columns)@.len() ==> {
                let c = #[trigger] final(columns)@[i];
                let o = old(columns)@[i];
                &&& c.name == o.name
                &&& c.datatype == o.datatype
                &&& c.rename == o.rename
                &&& c.datatype_mappings == o.datatype_mappings
            },
        ({
            let (st, e) = replacements_fold(
                reps_of(old(columns)@),
                names_of(old(columns)@),
                strs_view(specs@),
            );
            &&& reps_of(final(columns)@) == st
            &&& match e {
                Some(m) => r matches Err(x) && x@ == m,
                None => r is Ok,
            }
        }),
{
    let ghost names = names_of(columns@);
    let ghost reps0 = reps_of(columns@);
    let ghost sv = strs_view(specs@);
    let ghost old_cols = columns@;
    assert(sv.take(0) =~= Seq::<Seq<char>>::empty());
    for k in 0..specs.len()
        invariant
            sv == strs_view(specs@),
            old_cols == old(columns)@,
            names == names_of(old_cols),
            reps0 == reps_of(old_cols),
            columns@.len() == old_cols.len(),
            names_of(columns@) == names,
            forall|i: int|
                0 <= i < old_cols.len() ==> {
                    let c = #[trigger] columns@[i];
                    let o = old_cols[i];
                    &&& c.name == o.name
                    &&& c.datatype == o.datatype
                    &&& c.rename == o.rename
                    &&& c.datatype_mappings == o.datatype_mappings
                },
            replacements_fold(reps0, names, sv.take(k as int)) == (reps_of(columns@), None::<Seq<char>>),
    {
        assert(sv.take(k + 1).drop_last() =~= sv.take(k as int));
        assert(sv.take(k + 1).last() == specs@[k as int]@);
        let ghost before = columns@;
        match apply_one_replacement(columns, specs[k].as_str()) {
            Err(e) => {
                proof {
                    lemma_replacements_err_extends(reps0, names, sv, k + 1);
                }
                return Err(e);
            },
            Ok(()) => {},
        }
        assert(names_of(columns@) =~= names_of(before));
    }
    assert(sv.take(specs@.len() as int) =~= sv);
    Ok(())
}

// ---------------------------------------------------------------------------
// Column definitions
// ---------------------------------------------------------------------------

/// A column definition: name, type and output name.
pub type ColumnDef = (Seq<char>, ColumnType, Option<Seq<char>>);

/// The definitions' tokens: each argument split at `,`.
pub open spec fn def_tokens(specs: Seq<Seq<char>>) -> Seq<Seq<char>>
    decreases specs.len(),
{
    if specs.len() == 0 {
        Seq::empty()
    } else {
        def_tokens(specs.drop_last()) + split_on(specs.last(), ',')
    }
}

/// A token read as `name:type` or `name:type->output`: `None` when blank,
/// else the definition, or the error (with whether the message is all of
/// it: the type parser's own message follows an invalid type's).
pub open spec fn column_def_parse(
    raw: Seq<char>,
    seen: Seq<Seq<char>>,
    outs: Seq<Seq<char>>,
) -> Result<Option<ColumnDef>, (Seq<char>, bool)> {
    let token = trim(raw);
    if token.len() == 0 {
        Ok(None)
    } else {
        match split_once_seq(token, ":"@) {
            None => Err(("Column definition '"@ + token + "' must use the form name:type"@, true)),
            Some((np, tp)) => {
                let name = trim(np);
                if name.len() == 0 {
                    Err(("Column name cannot be empty in definition '"@ + token + "'"@, true))
                } else if seen.contains(name) {
                    Err(("Duplicate column name '"@ + name + "' provided"@, true))
                } else {
                    let (type_raw, rename_raw) = match split_once_seq(tp, "->"@) {
                        Some((a, b)) => (a, Some(b)),
                        None => (tp, None),
                    };
                    match column_type_from_seq(trim(type_raw)) {
                        None => Err(
                            ("Column '"@ + name + "' has invalid type '"@ + tp + "': "@, false),
                        ),
                        Some(t) => {
                            let rename = match rename_raw {
                                Some(r) => if trim(r).len() > 0 {
                                    Some(trim(r))
                                } else {
                                    None
                                },
                                None => None,
                            };
                            match rename {
                                Some(alias) => if alias != name && seen.push(name).contains(alias) {
                                    Err(
                                        (
                                            "Output name '"@ + alias
                                                + "' conflicts with an existing column name"@,
                                            true,
                                        ),
                                    )
                                } else if outs.contains(alias) {
                                    Err(("Duplicate output column name '"@ + alias + "' provided"@, true))
                                } else {
                                    Ok(Some((name, t, rename)))
                                },
                                None => Ok(Some((name, t, rename))),
                            }
                        },
                    }
                }
            },
        }
    }
}

/// The definitions read so far, the names seen and the output names taken,
/// or the first error.
pub open spec fn column_defs_fold(tokens: Seq<Seq<char>>) -> Result<
    (Seq<ColumnDef>, Seq<Seq<char>>, Seq<Seq<char>>),
    (Seq<char>, bool),
>
    decreases tokens.len(),
{
    if tokens.len() == 0 {
        Ok((Seq::empty(), Seq::empty(), Seq::empty()))
    } else {
        match column_defs_fold(tokens.drop_last()) {
            Err(e) => Err(e),
            Ok((defs, seen, outs)) => match column_def_parse(tokens.last(), seen, outs) {
                Err(e) => Err(e),
                Ok(None) => Ok((defs, seen, outs)),
                Ok(Some(d)) => Ok(
                    (
                        defs.push(d),
                        seen.push(d.0),
                        outs.push(
                            match d.2 {
                                Some(a) => a,
                                None => d.0,
                            },
                        ),
                    ),
                ),
            },
        }
    }
}

/// What `parse_columns` gives: the definitions, or an error.
pub open spec fn column_defs(specs: Seq<Seq<char>>) -> Result<Seq<ColumnDef>, (Seq<char>, bool)> {
    match column_defs_fold(def_tokens(specs)) {
        Err(e) => Err(e),
        Ok((defs, _, _)) => if defs.len() == 0 {
            Err(("At least one --column definition is required"@, true))
        } else {
            Ok(defs)
        },
    }
}

/// A column as a definition.
pub open spec fn def_of(c: ColumnMeta) -> ColumnDef {
    (
        c.name@,
        c.datatype,
        match c.rename {
            Some(r) => Some(r@),
            None => None,
        },
    )
}

/// The columns as definitions.
pub open spec fn defs_of(cs: Seq<ColumnMeta>) -> Seq<ColumnDef> {
    cs.map_values(|c: ColumnMeta| def_of(c))
}

proof fn lemma_defs_err_extends(a: Seq<Seq<char>>, b: Seq<Seq<char>>)
    requires
        column_defs_fold(a) is Err,
    ensures
        column_defs_fold(a + b) == column_defs_fold(a),
    decreases b.len(),
{
    if b.len() == 0 {
        assert(a + b =~= a);
    } else {
        lemma_defs_err_extends(a, b.drop_last());
        assert((a + b).drop_last() =~= a + b.drop_last());
    }
}

fn seq_contains_str(v: &[String], x: &[char]) -> (r: bool)
    ensures
        r == strs_view(v@).contains(x@),
{
    let ghost sv = strs_view(v@);
    for i in 0..v.len()
        invariant
            sv == strs_view(v@),
            forall|j: int| 0 <= j < i ==> sv[j] != x@,
    {
        assert(sv[i as int] == v@[i as int]@);
        if crate::text::str_eq_chars(v[i].as_str(), x) {
            return true;
        }
    }
    false
}

fn parse_column_token(raw: &[char], seen: &[String], outs: &[String]) -> (r: Result<
    Option<ColumnMeta>,
    String,
>)
    ensures
        match column_def_parse(raw@, strs_view(seen@), strs_view(outs@)) {
            Ok(None) => r matches Ok(None),
            Ok(Some(d)) => r matches Ok(Some(c)) && def_of(c) == d
                && c.value_replacements@.len() == 0 && c.datatype_mappings@.len() == 0,
            Err((m, complete)) => r matches Err(e) && (complete ==> e@ == m) && (!complete
                ==> m.len() <= e@.len() && e@.take(m.len() as int) == m),
        },
{
    proof {
        reveal_strlit("");
    }
    let token = trim_chars(raw);
    if token.len() == 0 {
        return Ok(None);
    }
    let colon = chars_of(":");
    let (np, tp) = match split_once_chars(token.as_slice(), colon.as_slice()) {
        None => {
            return Err(
                cat3("Column definition '", token.as_slice(), "' must use the form name:type"),
            );
        },
        Some(parts) => parts,
    };
    let name = trim_chars(np.as_slice());
    if name.len() == 0 {
        return Err(cat3("Column name cannot be empty in definition '", token.as_slice(), "'"));
    }
    if seq_contains_str(seen, name.as_slice()) {
        return Err(cat3("Duplicate column name '", name.as_slice(), "' provided"));
    }
    let arrow = chars_of("->");
    let (type_raw, rename_raw) = match split_once_chars(tp.as_slice(), arrow.as_slice()) {
        Some((a, b)) => (a, Some(b)),
        None => (crate::text::clone_chars(tp.as_slice()), None),
    };
    let ts = string_of(trim_chars(type_raw.as_slice()).as_slice());
    let t = match ColumnType::from_str(ts.as_str()) {
        Ok(t) => t,
        Err(e) => {
            let mut m = chars_of("Column '");
            crate::text::extend_chars(&mut m, name.as_slice());
            crate::text::extend_chars(&mut m, chars_of("' has invalid type '").as_slice());
            crate::text::extend_chars(&mut m, tp.as_slice());
            crate::text::extend_chars(&mut m, chars_of("': ").as_slice());
            let ghost prefix = m@;
            crate::text::extend_chars(&mut m, chars_of(e.as_str()).as_slice());
            assert(m@.take(prefix.len() as int) =~= prefix);
            return Err(string_of(m.as_slice()));
        },
    };
    let rename: Option<Vec<char>> = match rename_raw {
        Some(r) => {
            let rt = trim_chars(r.as_slice());
            if rt.len() > 0 {
                Some(rt)
            } else {
                None
            }
        },
        None => None,
    };
    match rename {
        Some(alias) => {
            let same = crate::text::chars_eq(alias.as_slice(), name.as_slice());
            let in_seen = seq_contains_str(seen, alias.as_slice());
            proof {
                assert(strs_view(seen@).push(name@).contains(alias@) == (strs_view(seen@).contains(
                    alias@,
                ) || alias@ == name@)) by {
                    let sp = strs_view(seen@).push(name@);
                    if sp.contains(alias@) {
                        let k = choose|k: int| 0 <= k < sp.len() && sp[k] == alias@;
                        if k < strs_view(seen@).len() {
                            assert(strs_view(seen@)[k] == alias@);
                        }
                    }
                    if strs_view(seen@).contains(alias@) {
                        let k = choose|k: int|
                            0 <= k < strs_view(seen@).len() && strs_view(seen@)[k] == alias@;
                        assert(sp[k] == alias@);
                    }
                    if alias@ == name@ {
                        assert(sp[sp.len() - 1] == alias@);
                    }
                }
            }
            if !same && in_seen {
                return Err(
                    cat3(
                        "Output name '",
                        alias.as_slice(),
                        "' conflicts with an existing column name",
                    ),
                );
            }
            if seq_contains_str(outs, alias.as_slice()) {
                return Err(cat3("Duplicate output column name '", alias.as_slice(), "' provided"));
            }
            Ok(
                Some(
                    ColumnMeta {
                        name: string_of(name.as_slice()),
                        datatype: t,
                        rename: Some(string_of(alias.as_slice())),
                        value_replacements: Vec::new(),
                        datatype_mappings: Vec::new(),
                    },
                ),
            )
        },
        None => Ok(
            Some(
                ColumnMeta {
                    name: string_of(name.as_slice()),
                    datatype: t,
                    rename: None,
                    value_replacements: Vec::new(),
                    datatype_mappings: Vec::new(),
                },
            ),
        ),
    }
}

/// Reads `name:type` and `name:type->output` definitions, several to an
/// argument separated by commas.
pub fn parse_columns(specs: &[String]) -> (r: Result<Vec<ColumnMeta>, String>)
    ensures
        match column_defs(strs_view(specs@)) {
            Ok(defs) => r matches Ok(cols) && cols@.len() == defs.len() && forall|i: int|
                0 <= i < defs.len() ==> def_of(#[trigger] cols@[i]) == defs[i]
                    && cols@[i].value_replacements@.len() == 0
                    && cols@[i].datatype_mappings@.len() == 0,
            Err((m, complete)) => r matches Err(e) && (complete ==> e@ == m) && (!complete
                ==> m.len() <= e@.len() && e@.take(m.len() as int) == m),
        },
{
    let ghost sv = strs_view(specs@);
    let mut columns: Vec<ColumnMeta> = Vec::new();
    let mut seen: Vec<String> = Vec::new();
    let mut outs: Vec<String> = Vec::new();
    let ghost mut done: Seq<Seq<char>> = Seq::empty();
    assert(sv.take(0) =~= Seq::<Seq<char>>::empty());
    assert(defs_of(columns@) =~= Seq::<ColumnDef>::empty());
    assert(strs_view(seen@) =~= Seq::<Seq<char>>::empty());
    assert(strs_view(outs@) =~= Seq::<Seq<char>>::empty());
    for i in 0..specs.len()
        invariant
            sv == strs_view(specs@),
            done == def_tokens(sv.take(i as int)),
            column_defs_fold(done) == Ok::<
                (Seq<ColumnDef>, Seq<Seq<char>>, Seq<Seq<char>>),
                (Seq<char>, bool),
            >((defs_of(columns@), strs_view(seen@), strs_view(outs@))),
            forall|k: int|
                0 <= k < columns@.len() ==> (#[trigger] columns@[k]).value_replacements@.len() == 0
                    && columns@[k].datatype_mappings@.len() == 0,
    {
        let raw = chars_of(specs[i].as_str());
        let pieces = split_chars(raw.as_slice(), ',');
        let ghost ps = split_on(raw@, ',');
        let ghost base = done;
        assert(ps.take(0) =~= Seq::<Seq<char>>::empty());
        assert(base + ps.take(0) =~= base);
        for j in 0..pieces.len()
            invariant
                pieces@.len() == ps.len(),
                forall|q: int| 0 <= q < pieces@.len() ==> #[trigger] pieces@[q]@ == ps[q],
                done == base + ps.take(j as int),
                column_defs_fold(done) == Ok::<
                    (Seq<ColumnDef>, Seq<Seq<char>>, Seq<Seq<char>>),
                    (Seq<char>, bool),
                >((defs_of(columns@), strs_view(seen@), strs_view(outs@))),
                forall|k: int|
                    0 <= k < columns@.len() ==> (#[trigger] columns@[k]).value_replacements@.len()
                        == 0 && columns@[k].datatype_mappings@.len() == 0,
                base == def_tokens(sv.take(i as int)),
                sv == strs_view(specs@),
                i < specs@.len(),
                raw@ == specs@[i as int]@,
                ps == split_on(raw@, ','),
        {
            let ghost next = done.push(ps[j as int]);
            assert(base + ps.take(j + 1) =~= next);
            assert(next.drop_last() =~= done);
            match parse_column_token(pieces[j].as_slice(), seen.as_slice(), outs.as_slice()) {
                Err(e) => {
                    proof {
                        assert(sv.take(i + 1).drop_last() =~= sv.take(i as int));
                        assert(def_tokens(sv.take(i + 1)) == base + ps);
                        let rest = ps.skip(j + 1);
                        assert(base + ps =~= next + rest);
                        lemma_defs_err_extends(next, rest);
                        let tail = lemma_def_tokens_prefix(sv, i + 1);
                        assert(def_tokens(sv) =~= next + (rest + tail));
                        lemma_defs_err_extends(next, rest + tail);
                    }
                    return Err(e);
                },
                Ok(None) => {
                    proof {
                        done = next;
                    }
                },
                Ok(Some(c)) => {
                    let ghost d = def_of(c);
                    let ghost cv = defs_of(columns@);
                    let ghost seen0 = strs_view(seen@);
                    let ghost outs0 = strs_view(outs@);
                    seen.push(c.name.clone());
                    match &c.rename {
                        Some(a) => outs.push(a.clone()),
                        None => outs.push(c.name.clone()),
                    }
                    columns.push(c);
                    proof {
                        done = next;
                    }
                    assert(defs_of(columns@) =~= cv.push(d));
                    assert(strs_view(seen@) =~= seen0.push(d.0));
                    assert(strs_view(outs@) =~= outs0.push(
                        match d.2 {
                            Some(a) => a,
                            None => d.0,
                        },
                    ));
                },
            }
        }
        assert(ps.take(ps.len() as int) =~= ps);
        assert(sv.take(i + 1).drop_last() =~= sv.take(i as int));
    }
    assert(sv.take(specs@.len() as int) =~= sv);
    if columns.len() == 0 {
        return Err("At least one --column definition is required".to_string());
    }
    Ok(columns)
}

proof fn lemma_def_tokens_prefix(specs: Seq<Seq<char>>, k: int) -> (t: Seq<Seq<char>>)
    requires
        0 <= k <= specs.len(),
    ensures
        def_tokens(specs) == def_tokens(specs.take(k)) + t,
    decreases specs.len() - k,
{
    if k == specs.len() {
        assert(specs.take(k) =~= specs);
        assert(def_tokens(specs) =~= def_tokens(specs.take(k)) + Seq::<Seq<char>>::empty());
        Seq::empty()
    } else {
        let t = lemma_def_tokens_prefix(specs, k + 1);
        assert(specs.take(k + 1).drop_last() =~= specs.take(k));
        assert(def_tokens(specs) =~= def_tokens(specs.take(k)) + (split_on(specs[k], ',') + t));
        split_on(specs[k], ',') + t
    }
}

// ---------------------------------------------------------------------------
// Probe report
// ---------------------------------------------------------------------------

/// The lowercase hexadecimal SHA-256 digest of the UTF-8 bytes of `data`.
pub uninterp spec fn sha256_hex_of(data: Seq<char>) -> Seq<char>;

/// Calls `sha2::Sha256::digest` on the string's bytes and renders the
/// digest in lowercase hexadecimal; the result is named `sha256_hex_of`.
#[verifier::external_body]
fn sha256_hex(data: &str) -> (r: String)
    ensures
        r@ == sha256_hex_of(data@),
{
    format!("{:x}", Sha256::digest(data.as_bytes()))
}

/// The text hashed for a schema's signature: `name:type;` per column.
pub open spec fn signature_input(cols: Seq<ColumnMeta>) -> Seq<char>
    decreases cols.len(),
{
    if cols.len() == 0 {
        Seq::empty()
    } else {
        signature_input(cols.drop_last()) + cols.last().name@ + ":"@ + crate::schema::type_signature(
            cols.last().datatype,
        ) + ";"@
    }
}

fn push_str(v: &mut Vec<char>, s: &str)
    ensures
        final(v)@ == old(v)@ + s@,
{
    let c = chars_of(s);
    crate::text::extend_chars(v, c.as_slice());
}

/// The header-and-type hash of a schema.
pub fn compute_schema_signature(schema: &Schema) -> (r: String)
    ensures
        r@ == sha256_hex_of(signature_input(schema.columns@)),
{
    let mut data: Vec<char> = Vec::new();
    let ghost cs = schema.columns@;
    for i in 0..schema.columns.len()
        invariant
            cs == schema.columns@,
            data@ == signature_input(cs.take(i as int)),
    {
        assert(cs.take(i + 1).drop_last() =~= cs.take(i as int));
        let c = &schema.columns[i];
        push_str(&mut data, c.name.as_str());
        push_str(&mut data, ":");
        let tok = c.datatype.signature_token();
        push_str(&mut data, tok.as_str());
        push_str(&mut data, ";");
    }
    assert(cs.take(cs.len() as int) =~= cs);
    let text = string_of(data.as_slice());
    sha256_hex(text.as_str())
}

/// The placeholder shown for a missing value.
pub open spec fn no_value() -> Seq<char> {
    "—"@
}

pub open spec fn rename_display(c: ColumnMeta) -> Seq<char> {
    match c.rename {
        Some(r) => if r@.len() > 0 {
            r@
        } else {
            no_value()
        },
        None => no_value(),
    }
}

pub open spec fn status_display(c: ColumnMeta, overrides: Seq<Seq<char>>) -> Seq<char> {
    let t = overrides.contains(c.name@);
    let m = c.rename is Some;
    if t && m {
        "type+mapping"@
    } else if t {
        "type"@
    } else if m {
        "mapping"@
    } else {
        no_value()
    }
}

/// The sample of column `i`, if any.
pub open spec fn sample_at(samples: Seq<Option<Seq<char>>>, i: int) -> Option<Seq<char>> {
    if 0 <= i < samples.len() {
        samples[i]
    } else {
        None
    }
}

pub open spec fn report_row(
    i: int,
    c: ColumnMeta,
    sample: Option<Seq<char>>,
    overrides: Seq<Seq<char>>,
) -> Seq<Seq<char>> {
    seq![
        crate::text::nat_to_seq((i + 1) as nat),
        c.name@,
        type_description(c.datatype),
        rename_display(c),
        status_display(c, overrides),
        match sample {
            Some(s) => truncated(s),
            None => no_value(),
        },
        match crate::inference::format_hint(c.datatype, sample) {
            Some(h) => h,
            None => no_value(),
        },
    ]
}

pub open spec fn report_headers() -> Seq<Seq<char>> {
    seq!["#"@, "name"@, "type"@, "rename"@, "override"@, "sample"@, "format"@]
}

pub open spec fn sampled_line(rows_read: usize, requested: usize) -> Seq<char> {
    if requested == 0 {
        "\nSampled "@ + crate::text::nat_to_seq(rows_read as nat) + " row(s) (full scan).\n"@
    } else if rows_read >= requested {
        "\nSampled "@ + crate::text::nat_to_seq(rows_read as nat) + " row(s) (requested limit "@
            + crate::text::nat_to_seq(requested as nat) + ").\n"@
    } else {
        "\nSampled "@ + crate::text::nat_to_seq(rows_read as nat) + " row(s) out of requested "@
            + crate::text::nat_to_seq(requested as nat) + ".\n"@
    }
}

pub open spec fn decode_line(errors: usize) -> Seq<char> {
    if errors > 0 {
        "Skipped "@ + crate::text::nat_to_seq(errors as nat) + " value(s) due to decoding errors.\n"@
    } else {
        "No decoding errors encountered.\n"@
    }
}

pub open spec fn datatype_map_text(cols: Seq<ColumnMeta>) -> Seq<char>
    decreases cols.len(),
{
    if cols.len() == 0 {
        Seq::empty()
    } else {
        datatype_map_text(cols.drop_last()) + "  • "@ + cols.last().name@ + " -> "@
            + type_description(cols.last().datatype) + "\n"@
    }
}

/// A listed value with its count, as the histogram shows it.
pub open spec fn histogram_entry(e: (Seq<char>, usize)) -> Seq<char> {
    histogram_value(e.0) + " ("@ + crate::text::nat_to_seq(e.1 as nat) + ")"@
}

pub open spec fn summary_fragments(s: crate::sampling::SummaryView, rows_read: usize) -> Seq<
    Seq<char>,
> {
    let empty: int = if rows_read >= s.0 {
        rows_read - s.0
    } else {
        0
    };
    seq!["non_empty="@ + crate::text::nat_to_seq(s.0 as nat)] + (if rows_read > 0 && empty > 0 {
        seq!["empty="@ + crate::text::nat_to_seq(empty as nat)]
    } else {
        Seq::empty()
    }) + (if s.1.len() > 0 {
        seq![
            "samples=["@ + crate::text::join_seqs(
                s.1.map_values(|e: (Seq<char>, usize)| histogram_entry(e)),
                ", "@,
            ) + "]"@,
        ]
    } else {
        Seq::empty()
    }) + (if s.2 > 0 {
        seq!["others="@ + crate::text::nat_to_seq(s.2 as nat)]
    } else {
        Seq::empty()
    })
}

pub open spec fn summaries_text(
    cols: Seq<ColumnMeta>,
    sums: Seq<crate::sampling::SummaryView>,
    rows_read: usize,
    n: int,
) -> Seq<char>
    decreases n,
{
    if n <= 0 {
        Seq::empty()
    } else {
        summaries_text(cols, sums, rows_read, n - 1) + if n - 1 < sums.len() {
            "  • "@ + cols[n - 1].name@ + ": "@ + crate::text::join_seqs(
                summary_fragments(sums[n - 1], rows_read),
                "; "@,
            ) + "\n"@
        } else {
            Seq::empty()
        }
    }
}

/// The probe report: a table of the columns (name, type, output name,
/// overrides, sample, format hint), the rows sampled, decoding errors, the
/// header-and-type hash, the type of each column and a summary of each
/// column's values.
pub open spec fn probe_report(
    cols: Seq<ColumnMeta>,
    samples: Seq<Option<Seq<char>>>,
    sums: Seq<crate::sampling::SummaryView>,
    rows_read: usize,
    decode_errors: usize,
    overrides: Seq<Seq<char>>,
    requested: usize,
) -> Seq<char> {
    if cols.len() == 0 {
        "No columns inferred.\n"@
    } else {
        crate::table::table_text(
            report_headers(),
            Seq::new(cols.len(), |i: int| report_row(i, cols[i], sample_at(samples, i), overrides)),
        ) + sampled_line(rows_read, requested) + decode_line(decode_errors)
            + "Header+Type Hash: "@ + sha256_hex_of(signature_input(cols)) + "\n"@
            + "\nDatatype Map:\n"@ + datatype_map_text(cols) + "\nColumn Summaries:\n"@
            + summaries_text(cols, sums, rows_read, cols.len() as int)
    }
}

fn report_row_exec(
    i: usize,
    c: &ColumnMeta,
    sample: Option<&str>,
    overrides: &[String],
) -> (r: Vec<String>)
    requires
        i < usize::MAX,
    ensures
        strs_view(r@) == report_row(
            i as int,
            *c,
            crate::inference::opt_str_view(sample),
            strs_view(overrides@),
        ),
{
    let num = crate::text::usize_to_string(i + 1);
    let rename = match &c.rename {
        Some(r) => {
            if !r.as_str().is_empty() {
                r.clone()
            } else {
                "—".to_string()
            }
        },
        None => "—".to_string(),
    };
    let nm = chars_of(c.name.as_str());
    let t = seq_contains_str(overrides, nm.as_slice());
    let m = c.rename.is_some();
    let status = if t && m {
        "type+mapping".to_string()
    } else if t {
        "type".to_string()
    } else if m {
        "mapping".to_string()
    } else {
        "—".to_string()
    };
    let sample_s = match sample {
        Some(x) => truncate_sample(x),
        None => "—".to_string(),
    };
    let fmt = match crate::inference::format_hint_for(&c.datatype, sample) {
        Some(h) => h,
        None => "—".to_string(),
    };
    let r = vec![num, c.name.clone(), c.datatype.describe(), rename, status, sample_s, fmt];
    assert(strs_view(r@) =~= report_row(
        i as int,
        *c,
        crate::inference::opt_str_view(sample),
        strs_view(overrides@),
    ));
    r
}

fn summary_line_exec(name: &str, s: &crate::sampling::ColumnSummary, rows_read: usize) -> (r: Vec<
    char,
>)
    ensures
        r@ == "  • "@ + name@ + ": "@ + crate::text::join_seqs(
            summary_fragments(crate::sampling::summary_view(*s), rows_read),
            "; "@,
        ) + "\n"@,
{
    let mut frags: Vec<String> = Vec::new();
    frags.push(crate::text::cat3("non_empty=", crate::text::usize_to_chars(s.non_empty).as_slice(), ""));
    let empty: usize = if rows_read >= s.non_empty {
        rows_read - s.non_empty
    } else {
        0
    };
    proof {
        reveal_strlit("");
    }
    let ghost f0 = strs_view(frags@);
    if rows_read > 0 && empty > 0 {
        frags.push(crate::text::cat3("empty=", crate::text::usize_to_chars(empty).as_slice(), ""));
    }
    let ghost f1 = strs_view(frags@);
    let ghost lv = crate::sampling::pair_views(s.listed_values@);
    if s.listed_values.len() > 0 {
        let mut entries: Vec<String> = Vec::new();
        for k in 0..s.listed_values.len()
            invariant
                lv == crate::sampling::pair_views(s.listed_values@),
                strs_view(entries@) == lv.take(k as int).map_values(
                    |e: (Seq<char>, usize)| histogram_entry(e),
                ),
        {
            let hv = summarize_histogram_value(s.listed_values[k].0.as_str());
            let mut e = chars_of(hv.as_str());
            push_str(&mut e, " (");
            crate::text::extend_chars(&mut e, crate::text::usize_to_chars(s.listed_values[k].1).as_slice());
            push_str(&mut e, ")");
            let ghost before = strs_view(entries@);
            entries.push(string_of(e.as_slice()));
            assert(lv[k as int] == (s.listed_values@[k as int].0@, s.listed_values@[k as int].1));
            assert(lv.take(k + 1).map_values(|e: (Seq<char>, usize)| histogram_entry(e))
                =~= lv.take(k as int).map_values(|e: (Seq<char>, usize)| histogram_entry(e)).push(
                histogram_entry(lv[k as int]),
            ));
            assert(strs_view(entries@) =~= before.push(e@));
        }
        assert(lv.take(lv.len() as int) =~= lv);
        let joined = crate::text::join_strings(entries.as_slice(), ", ");
        frags.push(crate::text::cat3("samples=[", chars_of(joined.as_str()).as_slice(), "]"));
    }
    let ghost f2 = strs_view(frags@);
    if s.other_values > 0 {
        frags.push(crate::text::cat3("others=", crate::text::usize_to_chars(s.other_values).as_slice(), ""));
    }
    assert(strs_view(frags@) =~= summary_fragments(crate::sampling::summary_view(*s), rows_read));
    let joined = crate::text::join_strings(frags.as_slice(), "; ");
    let mut line = chars_of("  • ");
    push_str(&mut line, name);
    push_str(&mut line, ": ");
    push_str(&mut line, joined.as_str());
    push_str(&mut line, "\n");
    line
}

fn report_table(
    schema: &Schema,
    stats: &crate::sampling::InferenceStats,
    overrides: &[String],
) -> (r: Vec<char>)
    ensures
        r@ == crate::table::table_text(
            report_headers(),
            Seq::new(
                schema.columns@.len(),
                |i: int|
                    report_row(
                        i,
                        schema.columns@[i],
                        sample_at(stats.samples_view(), i),
                        strs_view(overrides@),
                    ),
            ),
        ),
{
    let ghost cs = schema.columns@;
    let headers = vec![
        "#".to_string(),
        "name".to_string(),
        "type".to_string(),
        "rename".to_string(),
        "override".to_string(),
        "sample".to_string(),
        "format".to_string(),
    ];
    assert(strs_view(headers@) =~= report_headers());
    let mut rows: Vec<Vec<String>> = Vec::new();
    for i in 0..schema.columns.len()
        invariant
            cs == schema.columns@,
            rows@.len() == i,
            forall|j: int|
                0 <= j < i ==> strs_view(#[trigger] rows@[j]@) == report_row(
                    j,
                    cs[j],
                    sample_at(stats.samples_view(), j),
                    strs_view(overrides@),
                ),
    {
        let sample = stats.sample_value(i);
        assert(crate::inference::opt_str_view(sample) == sample_at(stats.samples_view(), i as int));
        rows.push(report_row_exec(i, &schema.columns[i], sample, overrides));
    }
    assert(crate::header::rows_view(rows@) =~= Seq::new(
        cs.len(),
        |i: int| report_row(i, cs[i], sample_at(stats.samples_view(), i), strs_view(overrides@)),
    ));
    let table = crate::table::render_table(headers.as_slice(), rows.as_slice());
    chars_of(table.as_str())
}

fn append_sampled(out: &mut Vec<char>, rows_read: usize, requested: usize)
    ensures
        final(out)@ == old(out)@ + sampled_line(rows_read, requested),
{
    let n1 = crate::text::usize_to_chars(rows_read);
    let n2 = crate::text::usize_to_chars(requested);
    if requested == 0 {
        push_str(out, "\nSampled ");
        crate::text::extend_chars(out, n1.as_slice());
        push_str(out, " row(s) (full scan).\n");
    } else if rows_read >= requested {
        push_str(out, "\nSampled ");
        crate::text::extend_chars(out, n1.as_slice());
        push_str(out, " row(s) (requested limit ");
        crate::text::extend_chars(out, n2.as_slice());
        push_str(out, ").\n");
    } else {
        push_str(out, "\nSampled ");
        crate::text::extend_chars(out, n1.as_slice());
        push_str(out, " row(s) out of requested ");
        crate::text::extend_chars(out, n2.as_slice());
        push_str(out, ".\n");
    }
}

fn append_decode(out: &mut Vec<char>, errs: usize)
    ensures
        final(out)@ == old(out)@ + decode_line(errs),
{
    if errs > 0 {
        push_str(out, "Skipped ");
        crate::text::extend_chars(out, crate::text::usize_to_chars(errs).as_slice());
        push_str(out, " value(s) due to decoding errors.\n");
    } else {
        push_str(out, "No decoding errors encountered.\n");
    }
}

fn append_datatype_map(out: &mut Vec<char>, schema: &Schema)
    ensures
        final(out)@ == old(out)@ + datatype_map_text(schema.columns@),
{
    let ghost cs = schema.columns@;
    let ghost o3 = out@;
    for i in 0..schema.columns.len()
        invariant
            cs == schema.columns@,
            out@ == o3 + datatype_map_text(cs.take(i as int)),
    {
        assert(cs.take(i + 1).drop_last() =~= cs.take(i as int));
        let c = &schema.columns[i];
        push_str(out, "  • ");
        push_str(out, c.name.as_str());
        push_str(out, " -> ");
        let d = c.datatype.describe();
        push_str(out, d.as_str());
        push_str(out, "\n");
        assert(out@ =~= o3 + datatype_map_text(cs.take(i + 1)));
    }
    assert(cs.take(cs.len() as int) =~= cs);
}

fn append_summaries(out: &mut Vec<char>, schema: &Schema, stats: &crate::sampling::InferenceStats)
    ensures
        final(out)@ == old(out)@ + summaries_text(
            schema.columns@,
            stats.summaries_view(),
            stats.rows_read_view(),
            schema.columns@.len() as int,
        ),
{
    let ghost cs = schema.columns@;
    let ghost o4 = out@;
    let rows_read = stats.rows_read();
    for i in 0..schema.columns.len()
        invariant
            cs == schema.columns@,
            out@ == o4 + summaries_text(cs, stats.summaries_view(), stats.rows_read_view(), i as int),
            rows_read == stats.rows_read_view(),
    {
        let ghost before = out@;
        match stats.summary(i) {
            Some(sm) => {
                let line = summary_line_exec(schema.columns[i].name.as_str(), sm, rows_read);
                crate::text::extend_chars(out, line.as_slice());
            },
            None => {},
        }
        assert(summaries_text(cs, stats.summaries_view(), stats.rows_read_view(), i + 1)
            == summaries_text(cs, stats.summaries_view(), stats.rows_read_view(), i as int) + (if i
            < stats.summaries_view().len() {
            "  • "@ + cs[i as int].name@ + ": "@ + crate::text::join_seqs(
                summary_fragments(stats.summaries_view()[i as int], stats.rows_read_view()),
                "; "@,
            ) + "\n"@
        } else {
            Seq::empty()
        }));
        assert(out@ =~= o4 + summaries_text(cs, stats.summaries_view(), stats.rows_read_view(), i + 1));
    }
}

/// Renders the probe report for an inferred schema.
pub fn render_probe_report(
    schema: &Schema,
    stats: &crate::sampling::InferenceStats,
    overrides: &[String],
    requested_sample_rows: usize,
) -> (r: String)
    ensures
        r@ == probe_report(
            schema.columns@,
            stats.samples_view(),
            stats.summaries_view(),
            stats.rows_read_view(),
            stats.decode_errors_view(),
            strs_view(overrides@),
            requested_sample_rows,
        ),
{
    if schema.columns.len() == 0 {
        return "No columns inferred.\n".to_string();
    }
    let mut out = report_table(schema, stats, overrides);
    append_sampled(&mut out, stats.rows_read(), requested_sample_rows);
    append_decode(&mut out, stats.decode_errors());
    let sig = compute_schema_signature(schema);
    push_str(&mut out, "Header+Type Hash: ");
    push_str(&mut out, sig.as_str());
    push_str(&mut out, "\n");
    push_str(&mut out, "\nDatatype Map:\n");
    append_datatype_map(&mut out, schema);
    push_str(&mut out, "\nColumn Summaries:\n");
    append_summaries(&mut out, schema, stats);
    string_of(out.as_slice())
}


// ---------------------------------------------------------------------------
// Mapping templates
// ---------------------------------------------------------------------------

/// The mapping-template row of column `i`: its position from 1, its name,
/// its type, and `name:type->` ready to be completed.
pub open spec fn mapping_row(c: ColumnMeta, i: int) -> Seq<Seq<char>> {
    seq![
        crate::text::nat_to_seq((i + 1) as nat),
        c.name@,
        crate::schema::type_description(c.datatype),
        c.name@ + ":"@ + crate::schema::type_signature(c.datatype) + "->"@,
    ]
}

/// One mapping-template row per column.
pub fn mapping_rows(schema: &Schema) -> (r: Vec<Vec<String>>)
    requires
        schema.columns@.len() < usize::MAX,
    ensures
        r@.len() == schema.columns@.len(),
        forall|i: int| 0 <= i < r@.len() ==> crate::header::strs_view(#[trigger] r@[i]@) == mapping_row(schema.columns@[i], i),
{
    let mut rows: Vec<Vec<String>> = Vec::new();
    for i in 0..schema.columns.len()
        invariant
            schema.columns@.len() < usize::MAX,
            rows@.len() == i,
            forall|j: int| 0 <= j < i ==> crate::header::strs_view(#[trigger] rows@[j]@) == mapping_row(schema.columns@[j], j),
    {
        let c = &schema.columns[i];
        let position = crate::text::string_of(crate::text::usize_to_chars(i + 1).as_slice());
        let token = c.datatype.cli_token();
        let nc = crate::text::chars_of(c.name.as_str());
        let tc = crate::text::chars_of(token.as_str());
        let mapping = crate::text::cat5("", nc.as_slice(), ":", tc.as_slice(), "->");
        proof {
            reveal_strlit("");
        }
        let row = vec![position, c.name.clone(), c.datatype.describe(), mapping];
        assert(crate::header::strs_view(row@) =~= mapping_row(schema.columns@[i as int], i as int));
        rows.push(row);
    }
    rows
}

} // verus!
