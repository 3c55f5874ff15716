//! Index specifications, covering expansion and variant selection.
//!
//! An index holds one or more sorted variants over a CSV file. Each variant
//! is keyed by a sequence of columns with a sort direction per column and
//! keeps the byte offsets of the rows grouped by key, in key order.
use vstd::prelude::*;

use crate::schema::ColumnType;
use crate::text::{
    all_digits, ascii_lower, cat3, cat5, chars_of, chars_of_all, chars_eq, extend_chars,
    join_chars, join_seqs, lower_seq, nat_to_seq, split_chars, split_on, split_once_chars,
    split_once_seq, str_eq, str_eq_chars, string_of, trim, trim_chars, usize_to_chars,
    lemma_split_on_nonempty, char_is_alnum, is_alnum,
};

verus! {

/// Format version written into every index.
pub const INDEX_VERSION: u32 = 2;

/// Sort order of an indexed column.
#[derive(Debug, Clone, Copy, PartialEq, Eq, Structural)]
pub enum SortDirection {
    Asc,
    Desc,
}

pub open spec fn direction_label(d: SortDirection) -> Seq<char> {
    match d {
        SortDirection::Asc => "asc"@,
        SortDirection::Desc => "desc"@,
    }
}

/// The direction a lowercased token names.
pub open spec fn direction_from_label(t: Seq<char>) -> Option<SortDirection> {
    if t == "asc"@ {
        Some(SortDirection::Asc)
    } else if t == "desc"@ {
        Some(SortDirection::Desc)
    } else {
        None
    }
}

impl SortDirection {
    pub fn is_ascending(self) -> (r: bool)
        ensures
            r == (self == SortDirection::Asc),
    {
        match self {
            SortDirection::Asc => true,
            SortDirection::Desc => false,
        }
    }

    pub fn as_str(self) -> (r: &'static str)
        ensures
            r@ == direction_label(self),
    {
        match self {
            SortDirection::Asc => "asc",
            SortDirection::Desc => "desc",
        }
    }
}

fn direction_from_chars(t: &[char]) -> (r: Option<SortDirection>)
    ensures
        r == direction_from_label(t@),
{
    if str_eq_chars("asc", t) {
        Some(SortDirection::Asc)
    } else if str_eq_chars("desc", t) {
        Some(SortDirection::Desc)
    } else {
        None
    }
}

/// Columns, directions and optional name of one index variant.
#[derive(Debug, Clone)]
pub struct IndexDefinition {
    pub columns: Vec<String>,
    pub directions: Vec<SortDirection>,
    pub name: Option<String>,
}

pub open spec fn opt_view(o: Option<String>) -> Option<Seq<char>> {
    match o {
        Some(s) => Some(s@),
        None => None,
    }
}

pub open spec fn strings_view(v: Seq<String>) -> Seq<Seq<char>> {
    v.map_values(|s: String| s@)
}

/// The strings that remain once every string is trimmed and the empty ones
/// are dropped.
pub open spec fn nonempty_trimmed(parts: Seq<Seq<char>>) -> Seq<Seq<char>>
    decreases parts.len(),
{
    if parts.len() == 0 {
        Seq::<Seq<char>>::empty()
    } else {
        let prev = nonempty_trimmed(parts.drop_last());
        let t = trim(parts.last());
        if t.len() == 0 {
            prev
        } else {
            prev.push(t)
        }
    }
}

fn trimmed_nonempty(parts: &[String]) -> (r: Vec<String>)
    ensures
        strings_view(r@) == nonempty_trimmed(strings_view(parts@)),
{
    let ghost pv = strings_view(parts@);
    let mut r: Vec<String> = Vec::new();
    for i in 0..parts.len()
        invariant
            pv == strings_view(parts@),
            strings_view(r@) == nonempty_trimmed(pv.take(i as int)),
    {
        assert(pv.take(i + 1).drop_last() =~= pv.take(i as int));
        let cv = chars_of(parts[i].as_str());
        let t = trim_chars(cv.as_slice());
        if t.len() > 0 {
            let ghost before = strings_view(r@);
            r.push(string_of(t.as_slice()));
            assert(strings_view(r@) =~= before.push(t@));
        }
    }
    assert(pv.take(parts@.len() as int) =~= pv);
    r
}

impl IndexDefinition {
    /// A definition over `columns` (trimmed, empty ones dropped), ascending on
    /// every column and without a name.
    pub fn from_columns(columns: Vec<String>) -> (r: Result<IndexDefinition, String>)
        ensures
            nonempty_trimmed(strings_view(columns@)).len() == 0 <==> r is Err,
            r matches Err(e) ==> e@ == "At least one column is required to build an index"@,
            r matches Ok(d) ==> {
                &&& strings_view(d.columns@) == nonempty_trimmed(strings_view(columns@))
                &&& d.directions@ == Seq::new(d.columns@.len(), |i: int| SortDirection::Asc)
                &&& d.name is None
            },
    {
        let cleaned = trimmed_nonempty(columns.as_slice());
        if cleaned.len() == 0 {
            return Err("At least one column is required to build an index".to_string());
        }
        let mut directions: Vec<SortDirection> = Vec::new();
        for i in 0..cleaned.len()
            invariant
                directions@ == Seq::new(i as nat, |k: int| SortDirection::Asc),
        {
            directions.push(SortDirection::Asc);
            assert(directions@ =~= Seq::new((i + 1) as nat, |k: int| SortDirection::Asc));
        }
        Ok(IndexDefinition { columns: cleaned, directions, name: None })
    }
}

/// The column of an index token `column[:direction]`.
pub open spec fn token_column(tok: Seq<char>) -> Seq<char> {
    trim(split_on(tok, ':')[0])
}

/// The lowercased direction text of a token (empty when there is none).
pub open spec fn token_direction_text(tok: Seq<char>) -> Seq<char> {
    let parts = split_on(tok, ':');
    if parts.len() < 2 {
        Seq::<char>::empty()
    } else {
        lower_seq(trim(parts[1]))
    }
}

/// The direction of a token: ascending when none is written.
pub open spec fn token_direction(tok: Seq<char>) -> Option<SortDirection> {
    let t = token_direction_text(tok);
    if t.len() == 0 {
        Some(SortDirection::Asc)
    } else {
        direction_from_label(t)
    }
}

pub open spec fn token_ok(tok: Seq<char>) -> bool {
    token_column(tok).len() > 0 && token_direction(tok) is Some
}

/// Splits an index specification into its optional name and the column
/// list; `None` when a name is introduced by `=` but the name or the column
/// list is blank.
pub open spec fn spec_name_and_body(spec: Seq<char>) -> Option<(Option<Seq<char>>, Seq<char>)> {
    match split_once_seq(spec, "="@) {
        Some((raw, rest)) => if trim(raw).len() == 0 || trim(rest).len() == 0 {
            None
        } else {
            Some((Some(trim(raw)), trim(rest)))
        },
        None => Some((None, spec)),
    }
}

/// The definition an index specification `[name=]col[:dir],...` denotes.
pub open spec fn parse_index_spec(spec: Seq<char>) -> Option<
    (Option<Seq<char>>, Seq<Seq<char>>, Seq<SortDirection>),
> {
    match spec_name_and_body(spec) {
        None => None,
        Some((name, body)) => {
            let toks = split_on(body, ',');
            if forall|i: int| 0 <= i < toks.len() ==> token_ok(#[trigger] toks[i]) {
                Some(
                    (
                        name,
                        toks.map_values(|t: Seq<char>| token_column(t)),
                        toks.map_values(|t: Seq<char>| token_direction(t).unwrap()),
                    ),
                )
            } else {
                None
            }
        },
    }
}

/// `k` is the first token that is not a valid `column[:direction]`.
pub open spec fn is_first_bad_token(toks: Seq<Seq<char>>, k: int) -> bool {
    0 <= k < toks.len() && !token_ok(toks[k]) && forall|j: int|
        0 <= j < k ==> token_ok(#[trigger] toks[j])
}

/// Parses `column[:direction]`: the trimmed column and the direction.
fn parse_index_token(tok: &[char]) -> (r: Result<(Vec<char>, SortDirection), String>)
    ensures
        r is Ok <==> token_ok(tok@),
        r matches Ok((c, d)) ==> c@ == token_column(tok@) && Some(d) == token_direction(tok@),
        token_column(tok@).len() == 0 ==> (r matches Err(e) && e@
            == "Index specification is missing a column name"@),
        token_column(tok@).len() > 0 && token_direction(tok@) is None ==> (r matches Err(e) && e@
            == "Unknown sort direction '"@ + token_direction_text(tok@) + "'"@),
{
    let parts = split_chars(tok, ':');
    proof {
        lemma_split_on_nonempty(tok@, ':');
    }
    let column = trim_chars(parts[0].as_slice());
    if column.len() == 0 {
        return Err("Index specification is missing a column name".to_string());
    }
    let mut text: Vec<char> = Vec::new();
    if parts.len() >= 2 {
        let t = trim_chars(parts[1].as_slice());
        text = ascii_lower(t.as_slice());
    }
    assert(text@ == token_direction_text(tok@));
    if text.len() == 0 {
        return Ok((column, SortDirection::Asc));
    }
    match direction_from_chars(text.as_slice()) {
        Some(d) => Ok((column, d)),
        None => Err(cat3("Unknown sort direction '", text.as_slice(), "'")),
    }
}

impl IndexDefinition {
    /// Parses `[name=]column[:asc|desc],...`.
    pub fn parse(spec: &str) -> (r: Result<IndexDefinition, String>)
        ensures
            match parse_index_spec(spec@) {
                Some((name, cols, dirs)) => r matches Ok(d) && opt_view(d.name) == name
                    && strings_view(d.columns@) == cols && d.directions@ == dirs,
                None => r is Err,
            },
            (split_once_seq(spec@, "="@) matches Some((raw, rest)) && trim(raw).len() == 0) ==> (
            r matches Err(e) && e@ == "Index specification is missing a variant name before '=': '"@
                + spec@ + "'"@),
            (split_once_seq(spec@, "="@) matches Some((raw, rest)) && trim(raw).len() > 0 && trim(
                rest,
            ).len() == 0) ==> (r matches Err(e) && e@ == "Index specification '"@ + spec@
                + "' is missing column definitions after '='"@),
            (spec_name_and_body(spec@) matches Some((name, body)) ==> forall|k: int|
                is_first_bad_token(split_on(body, ','), k) ==> (if token_column(
                    split_on(body, ',')[k],
                ).len() == 0 {
                    r matches Err(e) && e@ == "Index specification is missing a column name"@
                } else {
                    r matches Err(e) && e@ == "Unknown sort direction '"@ + token_direction_text(
                        split_on(body, ',')[k],
                    ) + "'"@
                })),
    {
        let sv = chars_of(spec);
        let eq = chars_of("=");
        let name: Option<String>;
        let body: Vec<char>;
        match split_once_chars(sv.as_slice(), eq.as_slice()) {
            Some((raw, rest)) => {
                let tn = trim_chars(raw.as_slice());
                if tn.len() == 0 {
                    assert(spec_name_and_body(spec@) is None);
                    return Err(
                        cat3(
                            "Index specification is missing a variant name before '=': '",
                            sv.as_slice(),
                            "'",
                        ),
                    );
                }
                let tr = trim_chars(rest.as_slice());
                if tr.len() == 0 {
                    assert(spec_name_and_body(spec@) is None);
                    return Err(
                        cat3(
                            "Index specification '",
                            sv.as_slice(),
                            "' is missing column definitions after '='",
                        ),
                    );
                }
                name = Some(string_of(tn.as_slice()));
                body = tr;
            },
            None => {
                name = None;
                body = sv;
            },
        }
        assert(spec_name_and_body(spec@) == Some((opt_view(name), body@)));
        let toks = split_chars(body.as_slice(), ',');
        let ghost tv = split_on(body@, ',');
        let mut columns: Vec<String> = Vec::new();
        let mut directions: Vec<SortDirection> = Vec::new();
        for k in 0..toks.len()
            invariant
                spec_name_and_body(spec@) == Some((opt_view(name), body@)),
                tv == split_on(body@, ','),
                toks@.len() == tv.len(),
                forall|i: int| 0 <= i < toks@.len() ==> #[trigger] toks@[i]@ == tv[i],
                forall|i: int| 0 <= i < k ==> token_ok(#[trigger] tv[i]),
                strings_view(columns@) == tv.take(k as int).map_values(|t: Seq<char>| token_column(t)),
                directions@ == tv.take(k as int).map_values(
                    |t: Seq<char>| token_direction(t).unwrap(),
                ),
        {
            match parse_index_token(toks[k].as_slice()) {
                Ok((c, d)) => {
                    let ghost before_c = strings_view(columns@);
                    columns.push(string_of(c.as_slice()));
                    directions.push(d);
                    assert(strings_view(columns@) =~= before_c.push(c@));
                    assert(tv.take(k + 1).map_values(|t: Seq<char>| token_column(t)) =~= tv.take(
                        k as int,
                    ).map_values(|t: Seq<char>| token_column(t)).push(token_column(tv[k as int])));
                    assert(tv.take(k + 1).map_values(|t: Seq<char>| token_direction(t).unwrap())
                        =~= tv.take(k as int).map_values(
                        |t: Seq<char>| token_direction(t).unwrap(),
                    ).push(token_direction(tv[k as int]).unwrap()));
                },
                Err(e) => {
                    proof {
                        assert(is_first_bad_token(tv, k as int));
                        assert forall|m: int| is_first_bad_token(tv, m) implies m == k by {
                            if m < k {
                                assert(token_ok(tv[m]));
                            }
                            if m > k {
                                assert(token_ok(tv[k as int]));
                            }
                        }
                    }
                    return Err(e);
                },
            }
        }
        assert(tv.take(toks@.len() as int) =~= tv);
        Ok(IndexDefinition { columns, directions, name })
    }
}

} // verus!

verus! {

// ---------------------------------------------------------------------------
// Covering specifications
// ---------------------------------------------------------------------------

/// The lowercased, trimmed, non-empty direction options of a `|` list.
pub open spec fn dir_tokens(parts: Seq<Seq<char>>) -> Seq<Seq<char>>
    decreases parts.len(),
{
    if parts.len() == 0 {
        Seq::<Seq<char>>::empty()
    } else {
        let prev = dir_tokens(parts.drop_last());
        let t = lower_seq(trim(parts.last()));
        if t.len() == 0 {
            prev
        } else {
            prev.push(t)
        }
    }
}

/// The directions named by tokens; `None` when one is unknown.
pub open spec fn dirs_of_tokens(ts: Seq<Seq<char>>) -> Option<Seq<SortDirection>>
    decreases ts.len(),
{
    if ts.len() == 0 {
        Some(Seq::<SortDirection>::empty())
    } else {
        match dirs_of_tokens(ts.drop_last()) {
            None => None,
            Some(ds) => match direction_from_label(ts.last()) {
                None => None,
                Some(d) => Some(ds.push(d)),
            },
        }
    }
}

/// The column and direction options of a covering token
/// `column[:asc|desc|...]`; options default to ascending.
pub open spec fn covering_column(tok: Seq<char>) -> Option<(Seq<char>, Seq<SortDirection>)> {
    let parts = split_on(tok, ':');
    let name = trim(parts[0]);
    if name.len() == 0 {
        None
    } else if parts.len() < 2 {
        Some((name, seq![SortDirection::Asc]))
    } else {
        match dirs_of_tokens(dir_tokens(split_on(parts[1], '|'))) {
            None => None,
            Some(ds) => if ds.len() == 0 {
                Some((name, seq![SortDirection::Asc]))
            } else {
                Some((name, ds))
            },
        }
    }
}

pub open spec fn covering_columns(toks: Seq<Seq<char>>) -> Option<
    Seq<(Seq<char>, Seq<SortDirection>)>,
>
    decreases toks.len(),
{
    if toks.len() == 0 {
        Some(Seq::empty())
    } else {
        match covering_columns(toks.drop_last()) {
            None => None,
            Some(cs) => match covering_column(toks.last()) {
                None => None,
                Some(c) => Some(cs.push(c)),
            },
        }
    }
}

/// All combinations of `prev` each extended by one element of `set`.
pub open spec fn extend_all(prev: Seq<Seq<SortDirection>>, set: Seq<SortDirection>) -> Seq<
    Seq<SortDirection>,
>
    decreases prev.len(),
{
    if prev.len() == 0 {
        Seq::<Seq<SortDirection>>::empty()
    } else {
        extend_all(prev.drop_last(), set) + set.map_values(
            |d: SortDirection| prev.last().push(d),
        )
    }
}

/// The cartesian product of the option sets, in order: the first set varies
/// slowest.
pub open spec fn cart(opts: Seq<Seq<SortDirection>>) -> Seq<Seq<SortDirection>>
    decreases opts.len(),
{
    if opts.len() == 0 {
        seq![Seq::<SortDirection>::empty()]
    } else {
        extend_all(cart(opts.drop_last()), opts.last())
    }
}

pub open spec fn sanitize_seq(s: Seq<char>) -> Seq<char> {
    s.map_values(|c: char| if is_alnum(c) || c == '_' { c } else { '_' })
}

pub open spec fn name_part(col: Seq<char>, d: SortDirection) -> Seq<char> {
    sanitize_seq(col) + "-"@ + direction_label(d)
}

pub open spec fn min_len(a: nat, b: nat) -> nat {
    if a <= b { a } else { b }
}

pub open spec fn name_suffix(cols: Seq<Seq<char>>, dirs: Seq<SortDirection>) -> Seq<char> {
    join_seqs(
        Seq::new(min_len(cols.len(), dirs.len()), |i: int| name_part(cols[i], dirs[i])),
        "_"@,
    )
}

/// The generated name of a covering variant.
pub open spec fn covering_name(
    prefix: Option<Seq<char>>,
    cols: Seq<Seq<char>>,
    dirs: Seq<SortDirection>,
) -> Seq<char> {
    let suffix = name_suffix(cols, dirs);
    match prefix {
        Some(p) => if suffix.len() == 0 {
            sanitize_seq(p)
        } else {
            sanitize_seq(p) + "_"@ + suffix
        },
        None => suffix,
    }
}

/// Columns, directions and name of a generated definition.
pub type DefView = (Seq<Seq<char>>, Seq<SortDirection>, Seq<char>);

pub open spec fn col_names(cols: Seq<(Seq<char>, Seq<SortDirection>)>) -> Seq<Seq<char>> {
    cols.map_values(|c: (Seq<char>, Seq<SortDirection>)| c.0)
}

pub open spec fn col_opts(cols: Seq<(Seq<char>, Seq<SortDirection>)>) -> Seq<Seq<SortDirection>> {
    cols.map_values(|c: (Seq<char>, Seq<SortDirection>)| c.1)
}

/// The definitions over the first `p` columns: one per combination of
/// their direction options.
pub open spec fn defs_for_prefix(
    prefix: Option<Seq<char>>,
    cols: Seq<(Seq<char>, Seq<SortDirection>)>,
    p: int,
) -> Seq<DefView> {
    let names = col_names(cols.take(p));
    cart(col_opts(cols.take(p))).map_values(
        |combo: Seq<SortDirection>| (names, combo, covering_name(prefix, names, combo)),
    )
}

pub open spec fn covering_defs(
    prefix: Option<Seq<char>>,
    cols: Seq<(Seq<char>, Seq<SortDirection>)>,
    p: nat,
) -> Seq<DefView>
    decreases p,
{
    if p == 0 {
        Seq::<DefView>::empty()
    } else {
        covering_defs(prefix, cols, (p - 1) as nat) + defs_for_prefix(prefix, cols, p as int)
    }
}

/// Name prefix and column list of a covering specification; `None` when a
/// name is introduced by `=` but it or the column list is blank.
pub open spec fn covering_name_and_body(spec: Seq<char>) -> Option<(Option<Seq<char>>, Seq<char>)> {
    match split_once_seq(spec, "="@) {
        Some((raw, rest)) => if trim(raw).len() == 0 || trim(rest).len() == 0 {
            None
        } else {
            Some((Some(trim(raw)), trim(rest)))
        },
        None => Some((None, trim(spec))),
    }
}

/// The definitions a covering specification expands to.
pub open spec fn expand_covering(spec: Seq<char>) -> Option<Seq<DefView>> {
    match covering_name_and_body(spec) {
        None => None,
        Some((prefix, body)) => match covering_columns(nonempty_trimmed(split_on(body, ','))) {
            None => None,
            Some(cols) => if cols.len() == 0 {
                None
            } else {
                Some(covering_defs(prefix, cols, cols.len()))
            },
        },
    }
}

pub open spec fn def_view(d: IndexDefinition) -> DefView {
    (
        strings_view(d.columns@),
        d.directions@,
        match d.name {
            Some(n) => n@,
            None => Seq::<char>::empty(),
        },
    )
}

pub open spec fn defs_view(v: Seq<IndexDefinition>) -> Seq<DefView> {
    v.map_values(|d: IndexDefinition| def_view(d))
}

/// A column and the directions it may be sorted in.
#[derive(Debug)]
struct CoveringColumn {
    name: String,
    directions: Vec<SortDirection>,
}

fn copy_dirs(v: &[SortDirection]) -> (r: Vec<SortDirection>)
    ensures
        r@ == v@,
{
    let mut r: Vec<SortDirection> = Vec::new();
    for i in 0..v.len()
        invariant
            r@ == v@.take(i as int),
    {
        r.push(v[i]);
    }
    assert(v@.take(v@.len() as int) =~= v@);
    r
}

fn parse_covering_column(tok: &[char]) -> (r: Result<CoveringColumn, String>)
    ensures
        match covering_column(tok@) {
            Some((n, ds)) => r matches Ok(c) && c.name@ == n && c.directions@ == ds,
            None => r is Err,
        },
{
    let parts = split_chars(tok, ':');
    proof {
        lemma_split_on_nonempty(tok@, ':');
    }
    let name = trim_chars(parts[0].as_slice());
    if name.len() == 0 {
        return Err("Covering specification is missing a column name".to_string());
    }
    if parts.len() < 2 {
        let d = vec![SortDirection::Asc];
        assert(d@ =~= seq![SortDirection::Asc]);
        return Ok(CoveringColumn { name: string_of(name.as_slice()), directions: d });
    }
    let options = split_chars(parts[1].as_slice(), '|');
    let ghost ov = split_on(parts@[1]@, '|');
    let mut directions: Vec<SortDirection> = Vec::new();
    let mut tokens_seen: Vec<Vec<char>> = Vec::new();
    assert(ov == split_on(split_on(tok@, ':')[1], '|'));
    for k in 0..options.len()
        invariant
            ov == split_on(split_on(tok@, ':')[1], '|'),
            split_on(tok@, ':').len() >= 2,
            trim(split_on(tok@, ':')[0]).len() > 0,
            options@.len() == ov.len(),
            forall|i: int| 0 <= i < options@.len() ==> #[trigger] options@[i]@ == ov[i],
            tokens_seen@.map_values(|t: Vec<char>| t@) == dir_tokens(ov.take(k as int)),
            dirs_of_tokens(dir_tokens(ov.take(k as int))) == Some(directions@),
    {
        assert(ov.take(k + 1).drop_last() =~= ov.take(k as int));
        let t = trim_chars(options[k].as_slice());
        let lt = ascii_lower(t.as_slice());
        if lt.len() > 0 {
            match direction_from_chars(lt.as_slice()) {
                Some(d) => {
                    let ghost before = tokens_seen@.map_values(|t: Vec<char>| t@);
                    tokens_seen.push(lt);
                    assert(tokens_seen@.map_values(|t: Vec<char>| t@) =~= before.push(
                        lower_seq(trim(ov[k as int])),
                    ));
                    let ghost dts = dir_tokens(ov.take(k + 1));
                    assert(dts.drop_last() =~= dir_tokens(ov.take(k as int)));
                    directions.push(d);
                },
                None => {
                    proof {
                        let dts = dir_tokens(ov.take(k + 1));
                        assert(dts.drop_last() =~= dir_tokens(ov.take(k as int)));
                        assert(dirs_of_tokens(dts) is None);
                        lemma_dirs_none_extends(ov, k + 1);
                    }
                    return Err(cat3("Unknown sort direction '", lt.as_slice(), "'"));
                },
            }
        }
    }
    assert(ov.take(options@.len() as int) =~= ov);
    if directions.len() == 0 {
        directions.push(SortDirection::Asc);
        assert(directions@ =~= seq![SortDirection::Asc]);
    }
    Ok(CoveringColumn { name: string_of(name.as_slice()), directions })
}

proof fn lemma_dir_tokens_prefix(parts: Seq<Seq<char>>, k: int)
    requires
        0 <= k <= parts.len(),
    ensures
        dir_tokens(parts.take(k)).len() <= dir_tokens(parts).len(),
        dir_tokens(parts).take(dir_tokens(parts.take(k)).len() as int) == dir_tokens(parts.take(k)),
    decreases parts.len() - k,
{
    if k < parts.len() {
        lemma_dir_tokens_prefix(parts, k + 1);
        assert(parts.take(k + 1).drop_last() =~= parts.take(k));
        let a = dir_tokens(parts.take(k));
        let b = dir_tokens(parts.take(k + 1));
        let c = dir_tokens(parts);
        assert(c.take(a.len() as int) =~= b.take(a.len() as int).take(a.len() as int));
        assert(b.take(a.len() as int) =~= a);
    } else {
        assert(parts.take(k) =~= parts);
        assert(dir_tokens(parts).take(dir_tokens(parts).len() as int) =~= dir_tokens(parts));
    }
}

proof fn lemma_dirs_of_tokens_prefix_none(ts: Seq<Seq<char>>, k: int)
    requires
        0 <= k <= ts.len(),
        dirs_of_tokens(ts.take(k)) is None,
    ensures
        dirs_of_tokens(ts) is None,
    decreases ts.len() - k,
{
    if k < ts.len() {
        assert(ts.take(k + 1).drop_last() =~= ts.take(k));
        lemma_dirs_of_tokens_prefix_none(ts, k + 1);
    } else {
        assert(ts.take(k) =~= ts);
    }
}

proof fn lemma_dirs_none_extends(parts: Seq<Seq<char>>, k: int)
    requires
        0 <= k <= parts.len(),
        dirs_of_tokens(dir_tokens(parts.take(k))) is None,
    ensures
        dirs_of_tokens(dir_tokens(parts)) is None,
{
    lemma_dir_tokens_prefix(parts, k);
    let a = dir_tokens(parts.take(k));
    lemma_dirs_of_tokens_prefix_none(dir_tokens(parts), a.len() as int);
}

} // verus!

verus! {

pub open spec fn dirs_views(v: Seq<Vec<SortDirection>>) -> Seq<Seq<SortDirection>> {
    v.map_values(|d: Vec<SortDirection>| d@)
}

/// Every combination that picks one direction from each option set.
fn cartesian_product(options: &[Vec<SortDirection>]) -> (r: Vec<Vec<SortDirection>>)
    ensures
        dirs_views(r@) == cart(dirs_views(options@)),
{
    let ghost ov = dirs_views(options@);
    let mut acc: Vec<Vec<SortDirection>> = Vec::new();
    acc.push(Vec::new());
    assert(dirs_views(acc@) =~= cart(ov.take(0)));
    for k in 0..options.len()
        invariant
            ov == dirs_views(options@),
            dirs_views(acc@) == cart(ov.take(k as int)),
    {
        assert(ov.take(k + 1).drop_last() =~= ov.take(k as int));
        let set = &options[k];
        let ghost prev = dirs_views(acc@);
        let mut next: Vec<Vec<SortDirection>> = Vec::new();
        for i in 0..acc.len()
            invariant
                prev == dirs_views(acc@),
                set@ == ov[k as int],
                dirs_views(next@) == extend_all(prev.take(i as int), set@),
        {
            assert(prev.take(i + 1).drop_last() =~= prev.take(i as int));
            let ghost base = dirs_views(next@);
            for j in 0..set.len()
                invariant
                    prev == dirs_views(acc@),
                    0 <= i < acc@.len(),
                    dirs_views(next@) == base + set@.take(j as int).map_values(
                        |d: SortDirection| acc@[i as int]@.push(d),
                    ),
            {
                let mut updated = copy_dirs(acc[i].as_slice());
                updated.push(set[j]);
                let ghost before = dirs_views(next@);
                next.push(updated);
                assert(dirs_views(next@) =~= before.push(updated@));
                assert(set@.take(j + 1).map_values(|d: SortDirection| acc@[i as int]@.push(d))
                    =~= set@.take(j as int).map_values(
                    |d: SortDirection| acc@[i as int]@.push(d),
                ).push(acc@[i as int]@.push(set@[j as int])));
            }
            assert(set@.take(set@.len() as int) =~= set@);
            assert(prev.take(i + 1).last() == acc@[i as int]@);
        }
        assert(prev.take(acc@.len() as int) =~= prev);
        acc = next;
    }
    assert(ov.take(options@.len() as int) =~= ov);
    acc
}

/// Replaces every character other than ASCII letters, digits and `_` by `_`.
fn sanitize_identifier(value: &[char]) -> (r: Vec<char>)
    ensures
        r@ == sanitize_seq(value@),
{
    let mut r: Vec<char> = Vec::new();
    for i in 0..value.len()
        invariant
            r@ == sanitize_seq(value@.take(i as int)),
    {
        let c = value[i];
        if char_is_alnum(c) || c == '_' {
            r.push(c);
        } else {
            r.push('_');
        }
        assert(sanitize_seq(value@.take(i + 1)) =~= sanitize_seq(value@.take(i as int)).push(
            if is_alnum(c) || c == '_' {
                c
            } else {
                '_'
            },
        ));
    }
    assert(value@.take(value@.len() as int) =~= value@);
    r
}

/// The name of a covering variant: the sanitized prefix, then
/// `column-direction` pieces joined by `_`.
fn build_covering_name(prefix: Option<&[char]>, columns: &[String], directions: &[SortDirection]) -> (r: Vec<char>)
    ensures
        r@ == covering_name(
            match prefix {
                Some(p) => Some(p@),
                None => None,
            },
            strings_view(columns@),
            directions@,
        ),
{
    let n = if columns.len() <= directions.len() {
        columns.len()
    } else {
        directions.len()
    };
    let ghost cv = strings_view(columns@);
    let ghost pieces_spec = Seq::new(
        min_len(cv.len(), directions@.len()),
        |i: int| name_part(cv[i], directions@[i]),
    );
    let mut pieces: Vec<Vec<char>> = Vec::new();
    for i in 0..n
        invariant
            n == min_len(cv.len(), directions@.len()),
            cv == strings_view(columns@),
            pieces_spec == Seq::new(
                min_len(cv.len(), directions@.len()),
                |i: int| name_part(cv[i], directions@[i]),
            ),
            pieces@.len() == i,
            forall|k: int| 0 <= k < i ==> #[trigger] pieces@[k]@ == pieces_spec[k],
    {
        let col = chars_of(columns[i].as_str());
        let mut piece = sanitize_identifier(col.as_slice());
        piece.push('-');
        let label = chars_of(directions[i].as_str());
        extend_chars(&mut piece, label.as_slice());
        assert(piece@ =~= name_part(cv[i as int], directions@[i as int])) by {
            reveal_strlit("-");
        }
        pieces.push(piece);
    }
    assert(pieces@.map_values(|p: Vec<char>| p@) =~= pieces_spec);
    let sep = vec!['_'];
    assert(sep@ =~= "_"@) by {
        reveal_strlit("_");
    }
    let suffix = join_chars(pieces.as_slice(), sep.as_slice());
    match prefix {
        Some(p) => {
            let mut r = sanitize_identifier(p);
            if suffix.len() == 0 {
                r
            } else {
                r.push('_');
                extend_chars(&mut r, suffix.as_slice());
                assert(r@ =~= sanitize_seq(p@) + "_"@ + suffix@) by {
                    reveal_strlit("_");
                }
                r
            }
        },
        None => suffix,
    }
}

} // verus!

verus! {

pub open spec fn chars_views(v: Seq<Vec<char>>) -> Seq<Seq<char>> {
    v.map_values(|c: Vec<char>| c@)
}

fn trimmed_nonempty_chars(parts: &[Vec<char>]) -> (r: Vec<Vec<char>>)
    ensures
        chars_views(r@) == nonempty_trimmed(chars_views(parts@)),
{
    let ghost pv = chars_views(parts@);
    let mut r: Vec<Vec<char>> = Vec::new();
    for i in 0..parts.len()
        invariant
            pv == chars_views(parts@),
            chars_views(r@) == nonempty_trimmed(pv.take(i as int)),
    {
        assert(pv.take(i + 1).drop_last() =~= pv.take(i as int));
        let t = trim_chars(parts[i].as_slice());
        if t.len() > 0 {
            let ghost before = chars_views(r@);
            r.push(t);
            assert(chars_views(r@) =~= before.push(trim(pv[i as int])));
        }
    }
    assert(pv.take(parts@.len() as int) =~= pv);
    r
}

spec fn covcols_view(v: Seq<CoveringColumn>) -> Seq<(Seq<char>, Seq<SortDirection>)> {
    v.map_values(|c: CoveringColumn| (c.name@, c.directions@))
}

proof fn lemma_covering_columns_none_extends(toks: Seq<Seq<char>>, k: int)
    requires
        0 <= k <= toks.len(),
        covering_columns(toks.take(k)) is None,
    ensures
        covering_columns(toks) is None,
    decreases toks.len() - k,
{
    if k < toks.len() {
        assert(toks.take(k + 1).drop_last() =~= toks.take(k));
        lemma_covering_columns_none_extends(toks, k + 1);
    } else {
        assert(toks.take(k) =~= toks);
    }
}

impl IndexDefinition {
    /// Expands a covering specification `[name=]col[:dir|dir...],...` into
    /// one definition per column prefix and per combination of the prefix's
    /// direction options.
    pub fn expand_covering_spec(spec: &str) -> (r: Result<Vec<IndexDefinition>, String>)
        ensures
            match expand_covering(spec@) {
                Some(defs) => r matches Ok(v) && defs_view(v@) == defs && forall|i: int|
                    0 <= i < v@.len() ==> (#[trigger] v@[i]).name is Some,
                None => r is Err,
            },
            (split_once_seq(spec@, "="@) matches Some((raw, rest)) && trim(raw).len() == 0) ==> (
            r matches Err(e) && e@ == "Covering specification is missing a name before '=': '"@
                + spec@ + "'"@),
            (split_once_seq(spec@, "="@) matches Some((raw, rest)) && trim(raw).len() > 0 && trim(
                rest,
            ).len() == 0) ==> (r matches Err(e) && e@ == "Covering specification '"@ + spec@
                + "' is missing column definitions after '='"@),
    {
        let sv = chars_of(spec);
        let eq = chars_of("=");
        let prefix: Option<Vec<char>>;
        let body: Vec<char>;
        match split_once_chars(sv.as_slice(), eq.as_slice()) {
            Some((raw, rest)) => {
                let tn = trim_chars(raw.as_slice());
                if tn.len() == 0 {
                    return Err(
                        cat3(
                            "Covering specification is missing a name before '=': '",
                            sv.as_slice(),
                            "'",
                        ),
                    );
                }
                let tr = trim_chars(rest.as_slice());
                if tr.len() == 0 {
                    return Err(
                        cat3(
                            "Covering specification '",
                            sv.as_slice(),
                            "' is missing column definitions after '='",
                        ),
                    );
                }
                prefix = Some(tn);
                body = tr;
            },
            None => {
                prefix = None;
                body = trim_chars(sv.as_slice());
            },
        }
        let ghost pv: Option<Seq<char>> = match &prefix {
            Some(p) => Some(p@),
            None => None,
        };
        assert(covering_name_and_body(spec@) == Some((pv, body@)));
        let raw_parts = split_chars(body.as_slice(), ',');
        assert(chars_views(raw_parts@) =~= split_on(body@, ','));
        let toks = trimmed_nonempty_chars(raw_parts.as_slice());
        let ghost tv = nonempty_trimmed(split_on(body@, ','));
        let mut columns: Vec<CoveringColumn> = Vec::new();
        for k in 0..toks.len()
            invariant
                covering_name_and_body(spec@) == Some((pv, body@)),
                tv == nonempty_trimmed(split_on(body@, ',')),
                chars_views(toks@) == tv,
                covering_columns(tv.take(k as int)) == Some(covcols_view(columns@)),
        {
            assert(tv.take(k + 1).drop_last() =~= tv.take(k as int));
            assert(toks@[k as int]@ == tv[k as int]);
            match parse_covering_column(toks[k].as_slice()) {
                Ok(c) => {
                    let ghost before = covcols_view(columns@);
                    columns.push(c);
                    assert(covcols_view(columns@) =~= before.push((c.name@, c.directions@)));
                },
                Err(e) => {
                    proof {
                        assert(covering_columns(tv.take(k + 1)) is None);
                        lemma_covering_columns_none_extends(tv, k + 1);
                    }
                    return Err(e);
                },
            }
        }
        assert(tv.take(toks@.len() as int) =~= tv);
        if columns.len() == 0 {
            return Err(
                cat3(
                    "Covering specification did not contain any columns: '",
                    sv.as_slice(),
                    "'",
                ),
            );
        }
        let ghost cv = covcols_view(columns@);
        let mut definitions: Vec<IndexDefinition> = Vec::new();
        let mut names: Vec<String> = Vec::new();
        let mut opts: Vec<Vec<SortDirection>> = Vec::new();
        let n = columns.len();
        for p in 0..n
            invariant
                pv == (match prefix {
                    Some(pp) => Some(pp@),
                    None => None::<Seq<char>>,
                }),
                n == columns@.len(),
                cv == covcols_view(columns@),
                strings_view(names@) == col_names(cv.take(p as int)),
                dirs_views(opts@) == col_opts(cv.take(p as int)),
                defs_view(definitions@) == covering_defs(pv, cv, p as nat),
                forall|i: int| 0 <= i < definitions@.len() ==> (#[trigger] definitions@[i]).name is Some,
        {
            let ghost names_before = strings_view(names@);
            let ghost opts_before = dirs_views(opts@);
            names.push(columns[p].name.clone());
            opts.push(copy_dirs(columns[p].directions.as_slice()));
            assert(cv.take(p + 1) =~= cv.take(p as int).push(cv[p as int]));
            assert(strings_view(names@) =~= names_before.push(cv[p as int].0));
            assert(col_names(cv.take(p + 1)) =~= col_names(cv.take(p as int)).push(cv[p as int].0));
            assert(dirs_views(opts@) =~= opts_before.push(cv[p as int].1));
            assert(col_opts(cv.take(p + 1)) =~= col_opts(cv.take(p as int)).push(cv[p as int].1));
            let combos = cartesian_product(opts.as_slice());
            let ghost base = defs_view(definitions@);
            let ghost spec_defs = defs_for_prefix(pv, cv, p + 1);
            let ghost cvs = dirs_views(combos@);
            for j in 0..combos.len()
                invariant
                pv == (match prefix {
                    Some(pp) => Some(pp@),
                    None => None::<Seq<char>>,
                }),
                    cvs == dirs_views(combos@),
                    cvs == cart(col_opts(cv.take(p + 1))),
                    strings_view(names@) == col_names(cv.take(p + 1)),
                    spec_defs == defs_for_prefix(pv, cv, p + 1),
                    defs_view(definitions@) == base + spec_defs.take(j as int),
                    forall|i: int| 0 <= i < definitions@.len() ==> (#[trigger] definitions@[i]).name is Some,
            {
                let combo = copy_dirs(combos[j].as_slice());
                let name = match &prefix {
                    Some(pr) => build_covering_name(Some(pr.as_slice()), names.as_slice(), combo.as_slice()),
                    None => build_covering_name(None, names.as_slice(), combo.as_slice()),
                };
                let ghost before = defs_view(definitions@);
                assert(combo@ == cvs[j as int]);
                let cols_copy = crate::text::clone_strings(names.as_slice());
                assert(strings_view(cols_copy@) =~= strings_view(names@));
                definitions.push(
                    IndexDefinition {
                        columns: cols_copy,
                        directions: combo,
                        name: Some(string_of(name.as_slice())),
                    },
                );
                assert(defs_view(definitions@) =~= before.push(spec_defs[j as int]));
                assert(spec_defs.take(j + 1) =~= spec_defs.take(j as int).push(spec_defs[j as int]));
            }
            assert(spec_defs.take(combos@.len() as int) =~= spec_defs);
        }
        assert(cv.take(n as int) =~= cv);
        Ok(definitions)
    }
}

} // verus!

verus! {

// ---------------------------------------------------------------------------
// Variants and indexes
// ---------------------------------------------------------------------------

/// What a variant holds: its key columns, their directions and types, the
/// row offsets grouped by key in key order, and its name.
pub struct VariantView {
    pub columns: Seq<Seq<char>>,
    pub directions: Seq<SortDirection>,
    pub column_types: Seq<ColumnType>,
    pub groups: Seq<Seq<u64>>,
    pub name: Option<Seq<char>>,
}

/// One sorted view of an index.
#[derive(Debug)]
pub struct IndexVariant {
    columns: Vec<String>,
    directions: Vec<SortDirection>,
    column_types: Vec<ColumnType>,
    offset_groups: Vec<Vec<u64>>,
    name: Option<String>,
}

pub open spec fn groups_view(g: Seq<Vec<u64>>) -> Seq<Seq<u64>> {
    g.map_values(|v: Vec<u64>| v@)
}

impl View for IndexVariant {
    type V = VariantView;

    closed spec fn view(&self) -> VariantView {
        VariantView {
            columns: strings_view(self.columns@),
            directions: self.directions@,
            column_types: self.column_types@,
            groups: groups_view(self.offset_groups@),
            name: opt_view(self.name),
        }
    }
}

/// A requested sort: column names with directions.
pub open spec fn directives_view(d: Seq<(String, SortDirection)>) -> Seq<(Seq<char>, SortDirection)> {
    d.map_values(|p: (String, SortDirection)| (p.0@, p.1))
}

/// The variant's columns and directions are a prefix of the requested sort.
pub open spec fn prefix_matches(v: VariantView, req: Seq<(Seq<char>, SortDirection)>) -> bool {
    &&& req.len() >= v.columns.len()
    &&& forall|i: int|
        0 <= i < min_len(v.columns.len(), v.directions.len()) ==> v.columns[i] == (
        #[trigger] req[i]).0 && v.directions[i] == req[i].1
}

/// The concatenation of the offset groups.
pub open spec fn flatten_groups(g: Seq<Seq<u64>>) -> Seq<u64>
    decreases g.len(),
{
    if g.len() == 0 {
        Seq::<u64>::empty()
    } else {
        flatten_groups(g.drop_last()) + g.last()
    }
}

pub open spec fn describe_body(v: VariantView) -> Seq<char> {
    join_seqs(
        Seq::new(
            min_len(v.columns.len(), v.directions.len()),
            |i: int| v.columns[i] + ":"@ + direction_label(v.directions[i]),
        ),
        ", "@,
    )
}

impl IndexVariant {
    /// A variant from its parts.
    pub fn from_parts(
        columns: Vec<String>,
        directions: Vec<SortDirection>,
        column_types: Vec<ColumnType>,
        offset_groups: Vec<Vec<u64>>,
        name: Option<String>,
    ) -> (r: IndexVariant)
        ensures
            r@ == (VariantView {
                columns: strings_view(columns@),
                directions: directions@,
                column_types: column_types@,
                groups: groups_view(offset_groups@),
                name: opt_view(name),
            }),
    {
        IndexVariant { columns, directions, column_types, offset_groups, name }
    }

    pub fn columns(&self) -> (r: &[String])
        ensures
            strings_view(r@) == self@.columns,
    {
        self.columns.as_slice()
    }

    pub fn directions(&self) -> (r: &[SortDirection])
        ensures
            r@ == self@.directions,
    {
        self.directions.as_slice()
    }

    pub fn name(&self) -> (r: Option<&str>)
        ensures
            match r {
                Some(s) => self@.name == Some(s@),
                None => self@.name is None,
            },
    {
        match &self.name {
            Some(n) => Some(n.as_str()),
            None => None,
        }
    }

    pub fn column_types(&self) -> (r: &[ColumnType])
        ensures
            r@ == self@.column_types,
    {
        self.column_types.as_slice()
    }

    /// The row offsets grouped by key, in key order.
    pub fn offset_groups(&self) -> (r: &[Vec<u64>])
        ensures
            groups_view(r@) == self@.groups,
    {
        self.offset_groups.as_slice()
    }

    /// Row offsets in key order, rows with equal keys in insertion order.
    pub fn ordered_offsets(&self) -> (r: Vec<u64>)
        ensures
            r@ == flatten_groups(self@.groups),
    {
        let ghost g = groups_view(self.offset_groups@);
        let mut r: Vec<u64> = Vec::new();
        for i in 0..self.offset_groups.len()
            invariant
                g == groups_view(self.offset_groups@),
                r@ == flatten_groups(g.take(i as int)),
        {
            assert(g.take(i + 1).drop_last() =~= g.take(i as int));
            let grp = &self.offset_groups[i];
            let ghost before = r@;
            for k in 0..grp.len()
                invariant
                    r@ == before + grp@.take(k as int),
            {
                r.push(grp[k]);
                assert(before + grp@.take(k + 1) =~= (before + grp@.take(k as int)).push(grp@[k as int]));
            }
            assert(grp@.take(grp@.len() as int) =~= grp@);
        }
        assert(g.take(self.offset_groups@.len() as int) =~= g);
        r
    }

    /// Whether the variant's columns and directions are a prefix of the
    /// requested sort.
    pub fn matches(&self, directives: &[(String, SortDirection)]) -> (r: bool)
        ensures
            r == prefix_matches(self@, directives_view(directives@)),
    {
        if directives.len() < self.columns.len() {
            return false;
        }
        let n = if self.columns.len() <= self.directions.len() {
            self.columns.len()
        } else {
            self.directions.len()
        };
        let ghost req = directives_view(directives@);
        for i in 0..n
            invariant
                n == min_len(self@.columns.len(), self@.directions.len()),
                req == directives_view(directives@),
                directives@.len() >= self.columns@.len(),
                forall|k: int| 0 <= k < i ==> self@.columns[k] == (#[trigger] req[k]).0 && self@.directions[k] == req[k].1,
        {
            let a = chars_of(self.columns[i].as_str());
            let b = chars_of(directives[i].0.as_str());
            if !chars_eq(a.as_slice(), b.as_slice()) || self.directions[i] != directives[i].1 {
                assert(!(self@.columns[i as int] == req[i as int].0 && self@.directions[i as int] == req[i as int].1));
                return false;
            }
        }
        true
    }

    /// `name -> col:dir, col:dir`, or just the column list when unnamed.
    pub fn describe(&self) -> (r: String)
        ensures
            r@ == (match self@.name {
                Some(n) => n + " -> "@ + describe_body(self@),
                None => describe_body(self@),
            }),
    {
        let n = if self.columns.len() <= self.directions.len() {
            self.columns.len()
        } else {
            self.directions.len()
        };
        let ghost v = self@;
        let ghost spec_parts = Seq::new(
            min_len(v.columns.len(), v.directions.len()),
            |i: int| v.columns[i] + ":"@ + direction_label(v.directions[i]),
        );
        let mut parts: Vec<Vec<char>> = Vec::new();
        for i in 0..n
            invariant
                v == self@,
                n == min_len(v.columns.len(), v.directions.len()),
                spec_parts == Seq::new(
                    min_len(v.columns.len(), v.directions.len()),
                    |i: int| v.columns[i] + ":"@ + direction_label(v.directions[i]),
                ),
                parts@.len() == i,
                forall|k: int| 0 <= k < i ==> #[trigger] parts@[k]@ == spec_parts[k],
        {
            let mut p = chars_of(self.columns[i].as_str());
            p.push(':');
            let d = chars_of(self.directions[i].as_str());
            extend_chars(&mut p, d.as_slice());
            assert(p@ =~= spec_parts[i as int]) by {
                reveal_strlit(":");
            }
            parts.push(p);
        }
        assert(parts@.map_values(|p: Vec<char>| p@) =~= spec_parts);
        let sep = chars_of(", ");
        let body = join_chars(parts.as_slice(), sep.as_slice());
        match &self.name {
            Some(name) => {
                let mut nv = chars_of(name.as_str());
                let arrow = chars_of(" -> ");
                extend_chars(&mut nv, arrow.as_slice());
                extend_chars(&mut nv, body.as_slice());
                string_of(nv.as_slice())
            },
            None => string_of(body.as_slice()),
        }
    }
}

/// What an index holds.
pub struct IndexView {
    pub version: u32,
    pub headers: Seq<Seq<char>>,
    pub variants: Seq<VariantView>,
    pub row_count: nat,
}

/// Sorted variants over one CSV file.
#[derive(Debug)]
pub struct CsvIndex {
    version: u32,
    headers: Vec<String>,
    variants: Vec<IndexVariant>,
    row_count: usize,
}

pub open spec fn variants_view(v: Seq<IndexVariant>) -> Seq<VariantView> {
    v.map_values(|x: IndexVariant| x@)
}

impl View for CsvIndex {
    type V = IndexView;

    closed spec fn view(&self) -> IndexView {
        IndexView {
            version: self.version,
            headers: strings_view(self.headers@),
            variants: variants_view(self.variants@),
            row_count: self.row_count as nat,
        }
    }
}

/// The variant `best_match` picks among the first `k`: a matching one with
/// the most columns, the earliest among equals.
pub open spec fn best_upto(vs: Seq<VariantView>, req: Seq<(Seq<char>, SortDirection)>, k: int) -> Option<int>
    decreases k,
{
    if k <= 0 {
        None
    } else {
        let b = best_upto(vs, req, k - 1);
        if prefix_matches(vs[k - 1], req) && (b is None || vs[k - 1].columns.len() > vs[b->0].columns.len()) {
            Some(k - 1)
        } else {
            b
        }
    }
}

/// Index of the first variant named `name`.
pub open spec fn is_first_named(vs: Seq<VariantView>, name: Seq<char>, i: int) -> bool {
    0 <= i < vs.len() && vs[i].name == Some(name) && forall|j: int| 0 <= j < i ==> vs[j].name != Some(name)
}

impl CsvIndex {
    /// An index of the current format version.
    pub fn from_parts(headers: Vec<String>, variants: Vec<IndexVariant>, row_count: usize) -> (r: CsvIndex)
        ensures
            r@ == (IndexView {
                version: INDEX_VERSION,
                headers: strings_view(headers@),
                variants: variants_view(variants@),
                row_count: row_count as nat,
            }),
    {
        CsvIndex { version: INDEX_VERSION, headers, variants, row_count }
    }

    /// An index as a file holds it, with the format version the file names
    /// (`check_version` tells whether it is the current one).
    pub fn with_version(version: u32, headers: Vec<String>, variants: Vec<IndexVariant>, row_count: usize) -> (r: CsvIndex)
        ensures
            r@ == (IndexView {
                version,
                headers: strings_view(headers@),
                variants: variants_view(variants@),
                row_count: row_count as nat,
            }),
    {
        CsvIndex { version, headers, variants, row_count }
    }

    pub fn version(&self) -> (r: u32)
        ensures
            r == self@.version,
    {
        self.version
    }

    pub fn headers(&self) -> (r: &[String])
        ensures
            strings_view(r@) == self@.headers,
    {
        self.headers.as_slice()
    }

    pub fn variants(&self) -> (r: &[IndexVariant])
        ensures
            variants_view(r@) == self@.variants,
    {
        self.variants.as_slice()
    }

    pub fn row_count(&self) -> (r: usize)
        ensures
            r == self@.row_count,
    {
        self.row_count
    }

    /// Accepts an index only in the current format version.
    pub fn check_version(self) -> (r: Result<CsvIndex, String>)
        ensures
            self@.version == INDEX_VERSION ==> (r matches Ok(i) && i@ == self@),
            self@.version != INDEX_VERSION ==> (r matches Err(e) && e@ == "Unsupported index version "@
                + nat_to_seq(self@.version as nat) + " (expected 2)"@),
    {
        if self.version != INDEX_VERSION {
            let v = usize_to_chars(self.version as usize);
            return Err(cat3("Unsupported index version ", v.as_slice(), " (expected 2)"));
        }
        Ok(self)
    }

    /// The first variant named `name`.
    pub fn variant_by_name(&self, name: &str) -> (r: Option<&IndexVariant>)
        ensures
            match r {
                Some(v) => exists|i: int| is_first_named(self@.variants, name@, i) && v@ == self@.variants[i],
                None => forall|i: int| 0 <= i < self@.variants.len() ==> self@.variants[i].name != Some(name@),
            },
    {
        let ghost vs = self@.variants;
        for i in 0..self.variants.len()
            invariant
                vs == self@.variants,
                vs.len() == self.variants@.len(),
                forall|j: int| 0 <= j < i ==> vs[j].name != Some(name@),
        {
            assert(vs[i as int] == self.variants@[i as int]@);
            match self.variants[i].name() {
                Some(n) => {
                    if str_eq(n, name) {
                        assert(is_first_named(vs, name@, i as int));
                        return Some(&self.variants[i]);
                    }
                },
                None => {},
            }
        }
        None
    }

    /// The matching variant with the most columns (the earliest among
    /// equals), if any variant matches the requested sort.
    pub fn best_match(&self, directives: &[(String, SortDirection)]) -> (r: Option<&IndexVariant>)
        ensures
            match best_upto(self@.variants, directives_view(directives@), self@.variants.len() as int) {
                Some(i) => r matches Some(v) && v@ == self@.variants[i],
                None => r is None,
            },
    {
        let ghost vs = self@.variants;
        let ghost req = directives_view(directives@);
        let mut best: Option<usize> = None;
        for i in 0..self.variants.len()
            invariant
                vs == self@.variants,
                req == directives_view(directives@),
                vs.len() == self.variants@.len(),
                best_upto(vs, req, i as int) == match best {
                    Some(b) => Some(b as int),
                    None => None::<int>,
                },
                best matches Some(b) ==> b < i,
        {
            assert(vs[i as int] == self.variants@[i as int]@);
            if self.variants[i].matches(directives) {
                let replace = match best {
                    None => true,
                    Some(b) => self.variants[i].columns.len() > self.variants[b].columns.len(),
                };
                if replace {
                    best = Some(i);
                }
            }
        }
        match best {
            Some(b) => Some(&self.variants[b]),
            None => None,
        }
    }
}

/// Positions of `columns` among `headers` (first equal header).
pub fn lookup_indices(headers: &[String], columns: &[String]) -> (r: Result<Vec<usize>, String>)
    ensures
        (forall|k: int| 0 <= k < columns@.len() ==> strings_view(headers@).contains(#[trigger] columns@[k]@)) <==> r is Ok,
        r matches Ok(ix) ==> ix@.len() == columns@.len() && forall|k: int| 0 <= k < columns@.len() ==> {
            &&& #[trigger] ix@[k] < headers@.len()
            &&& headers@[ix@[k] as int]@ == columns@[k]@
            &&& forall|j: int| 0 <= j < ix@[k] ==> headers@[j]@ != columns@[k]@
        },
{
    let mut r: Vec<usize> = Vec::new();
    for k in 0..columns.len()
        invariant
            r@.len() == k,
            forall|m: int| 0 <= m < k ==> strings_view(headers@).contains(#[trigger] columns@[m]@),
            forall|m: int| 0 <= m < k ==> {
                &&& #[trigger] r@[m] < headers@.len()
                &&& headers@[r@[m] as int]@ == columns@[m]@
                &&& forall|j: int| 0 <= j < r@[m] ==> headers@[j]@ != columns@[m]@
            },
    {
        let mut found: Option<usize> = None;
        for h in 0..headers.len()
            invariant
                k < columns@.len(),
                found matches Some(x) ==> x < headers@.len() && headers@[x as int]@ == columns@[k as int]@
                    && forall|j: int| 0 <= j < x ==> headers@[j]@ != columns@[k as int]@,
                found is None ==> forall|j: int| 0 <= j < h ==> headers@[j]@ != columns@[k as int]@,
        {
            if found.is_none() && str_eq(headers[h].as_str(), columns[k].as_str()) {
                found = Some(h);
            }
        }
        match found {
            Some(x) => {
                assert(strings_view(headers@)[x as int] == columns@[k as int]@);
                r.push(x);
            },
            None => {
                proof {
                    assert(!strings_view(headers@).contains(columns@[k as int]@));
                }
                let cv = chars_of(columns[k].as_str());
                return Err(cat3("Column '", cv.as_slice(), "' not found in CSV headers"));
            },
        }
    }
    Ok(r)
}

} // verus!

verus! {

// ---------------------------------------------------------------------------
// Laws
// ---------------------------------------------------------------------------

/// `best_match` picks a variant that matches the requested sort, no matching
/// variant has more key columns, and every earlier matching variant has
/// fewer; when it picks none, no variant matches.
pub proof fn law_best_match_is_first_longest(vs: Seq<VariantView>, req: Seq<(Seq<char>, SortDirection)>, k: int)
    requires
        0 <= k <= vs.len(),
    ensures
        match best_upto(vs, req, k) {
            Some(i) => {
                &&& 0 <= i < k
                &&& prefix_matches(vs[i], req)
                &&& forall|j: int| 0 <= j < k && prefix_matches(vs[j], req) ==> vs[j].columns.len() <= vs[i].columns.len()
                &&& forall|j: int| 0 <= j < i && prefix_matches(vs[j], req) ==> vs[j].columns.len() < vs[i].columns.len()
            },
            None => forall|j: int| 0 <= j < k ==> !prefix_matches(vs[j], req),
        },
    decreases k,
{
    if k > 0 {
        law_best_match_is_first_longest(vs, req, k - 1);
    }
}

/// Product of the sizes of the option sets.
pub open spec fn product_lens(opts: Seq<Seq<SortDirection>>) -> nat
    decreases opts.len(),
{
    if opts.len() == 0 {
        1
    } else {
        product_lens(opts.drop_last()) * opts.last().len()
    }
}

proof fn lemma_extend_all_shape(prev: Seq<Seq<SortDirection>>, set: Seq<SortDirection>, opts: Seq<Seq<SortDirection>>)
    requires
        forall|t: int| 0 <= t < prev.len() ==> (#[trigger] prev[t]).len() == opts.len() && forall|k: int|
            0 <= k < opts.len() ==> opts[k].contains(prev[t][k]),
    ensures
        extend_all(prev, set).len() == prev.len() * set.len(),
        forall|t: int| 0 <= t < extend_all(prev, set).len() ==> {
            &&& (#[trigger] extend_all(prev, set)[t]).len() == opts.len() + 1
            &&& forall|k: int| 0 <= k < opts.len() + 1 ==> opts.push(set)[k].contains(extend_all(prev, set)[t][k])
        },
    decreases prev.len(),
{
    if prev.len() > 0 {
        let p0 = prev.drop_last();
        lemma_extend_all_shape(p0, set, opts);
        let a = extend_all(p0, set);
        let b = set.map_values(|d: SortDirection| prev.last().push(d));
        assert(extend_all(prev, set) == a + b);
        assert((prev.len() - 1) * set.len() + set.len() == prev.len() * set.len()) by (nonlinear_arith);
        assert forall|t: int| 0 <= t < extend_all(prev, set).len() implies {
            &&& (#[trigger] extend_all(prev, set)[t]).len() == opts.len() + 1
            &&& forall|k: int| 0 <= k < opts.len() + 1 ==> opts.push(set)[k].contains(extend_all(prev, set)[t][k])
        } by {
            if t >= a.len() {
                let j = t - a.len();
                let c = extend_all(prev, set)[t];
                assert(c == prev.last().push(set[j]));
                assert forall|k: int| 0 <= k < opts.len() + 1 implies opts.push(set)[k].contains(c[k]) by {
                    if k < opts.len() {
                        assert(prev[prev.len() - 1] == prev.last());
                        assert(opts[k].contains(prev.last()[k]));
                    } else {
                        assert(set[j] == c[k]);
                    }
                }
            } else {
                let c = a[t];
                assert forall|k: int| 0 <= k < opts.len() + 1 implies opts.push(set)[k].contains(c[k]) by {
                    assert(opts.push(set)[k].contains(c[k]));
                }
            }
        }
    }
}

/// The cartesian product has one combination per choice of a direction
/// from each option set, each combination picks from every set in order.
pub proof fn law_cartesian_product_shape(opts: Seq<Seq<SortDirection>>)
    ensures
        cart(opts).len() == product_lens(opts),
        forall|t: int| 0 <= t < cart(opts).len() ==> {
            &&& (#[trigger] cart(opts)[t]).len() == opts.len()
            &&& forall|k: int| 0 <= k < opts.len() ==> opts[k].contains(cart(opts)[t][k])
        },
    decreases opts.len(),
{
    if opts.len() > 0 {
        let o = opts.drop_last();
        law_cartesian_product_shape(o);
        lemma_extend_all_shape(cart(o), opts.last(), o);
        assert(o.push(opts.last()) =~= opts);
    }
}

/// Sum over prefix lengths `1..=p` of the product of the first sets' sizes.
pub open spec fn covering_count(opts: Seq<Seq<SortDirection>>, p: nat) -> nat
    decreases p,
{
    if p == 0 {
        0
    } else {
        covering_count(opts, (p - 1) as nat) + product_lens(opts.take(p as int))
    }
}

/// A covering expansion yields, for every prefix length, as many
/// definitions as there are direction combinations over that prefix.
pub proof fn law_covering_count(prefix: Option<Seq<char>>, cols: Seq<(Seq<char>, Seq<SortDirection>)>, p: nat)
    requires
        p <= cols.len(),
    ensures
        covering_defs(prefix, cols, p).len() == covering_count(col_opts(cols), p),
    decreases p,
{
    if p > 0 {
        law_covering_count(prefix, cols, (p - 1) as nat);
        law_cartesian_product_shape(col_opts(cols.take(p as int)));
        assert(col_opts(cols.take(p as int)) =~= col_opts(cols).take(p as int));
    }
}

proof fn lemma_join_len_at_least_first(parts: Seq<Seq<char>>, sep: Seq<char>)
    requires
        parts.len() >= 1,
    ensures
        join_seqs(parts, sep).len() >= parts[0].len(),
    decreases parts.len(),
{
    if parts.len() > 1 {
        lemma_join_len_at_least_first(parts.drop_last(), sep);
    }
}

/// Every definition of a named covering expansion carries a name that starts
/// with the sanitized prefix and `_`, and its first column is the first
/// column of the specification.
pub proof fn law_covering_names_prefixed(pre: Seq<char>, cols: Seq<(Seq<char>, Seq<SortDirection>)>, p: nat)
    requires
        p <= cols.len(),
    ensures
        forall|t: int| 0 <= t < covering_defs(Some(pre), cols, p).len() ==> {
            &&& has_prefix_seq((#[trigger] covering_defs(Some(pre), cols, p)[t]).2, sanitize_seq(pre) + "_"@)
            &&& covering_defs(Some(pre), cols, p)[t].0.len() >= 1
            &&& covering_defs(Some(pre), cols, p)[t].0[0] == cols[0].0
        },
    decreases p,
{
    if p > 0 {
        law_covering_names_prefixed(pre, cols, (p - 1) as nat);
        let a = covering_defs(Some(pre), cols, (p - 1) as nat);
        let b = defs_for_prefix(Some(pre), cols, p as int);
        let opts = col_opts(cols.take(p as int));
        let names = col_names(cols.take(p as int));
        law_cartesian_product_shape(opts);
        assert forall|t: int| 0 <= t < (a + b).len() implies {
            &&& has_prefix_seq((#[trigger] (a + b)[t]).2, sanitize_seq(pre) + "_"@)
            &&& (a + b)[t].0.len() >= 1
            &&& (a + b)[t].0[0] == cols[0].0
        } by {
            if t >= a.len() {
                let j = t - a.len();
                let combo = cart(opts)[j];
                assert(combo.len() == p);
                assert(names.len() == p);
                let pieces = Seq::new(min_len(names.len(), combo.len()), |i: int| name_part(names[i], combo[i]));
                assert(pieces[0] == name_part(names[0], combo[0]));
                assert(name_part(names[0], combo[0]).len() >= 1) by {
                    reveal_strlit("-");
                }
                lemma_join_len_at_least_first(pieces, "_"@);
                let suffix = name_suffix(names, combo);
                assert(suffix.len() > 0);
                let nm = covering_name(Some(pre), names, combo);
                assert(nm == sanitize_seq(pre) + "_"@ + suffix);
                assert(nm.take((sanitize_seq(pre) + "_"@).len() as int) =~= sanitize_seq(pre) + "_"@);
            }
        }
    }
}

pub open spec fn has_prefix_seq(s: Seq<char>, p: Seq<char>) -> bool {
    p.len() <= s.len() && s.take(p.len() as int) == p
}

/// A parsed index specification has one direction per column, at least one
/// column, and every column is non-empty and trimmed.
pub proof fn law_parsed_spec_shape(spec: Seq<char>)
    ensures
        parse_index_spec(spec) matches Some((name, cols, dirs)) ==> {
            &&& cols.len() == dirs.len()
            &&& cols.len() >= 1
            &&& forall|i: int| 0 <= i < cols.len() ==> (#[trigger] cols[i]).len() > 0 && trim(cols[i]) == cols[i]
        },
{
    if let Some((name, body)) = spec_name_and_body(spec) {
        let toks = split_on(body, ',');
        lemma_split_on_nonempty(body, ',');
        if forall|i: int| 0 <= i < toks.len() ==> token_ok(#[trigger] toks[i]) {
            assert forall|i: int| 0 <= i < toks.len() implies trim(token_column(toks[i])) == token_column(toks[i]) by {
                crate::text::lemma_trim_idempotent(split_on(toks[i], ':')[0]);
            }
        }
    }
}

proof fn lemma_split_on_absent(s: Seq<char>, sep: char)
    requires
        forall|i: int| 0 <= i < s.len() ==> s[i] != sep,
    ensures
        split_on(s, sep) == seq![s],
    decreases s.len(),
{
    if s.len() > 0 {
        assert(s.last() == s[s.len() - 1]);
        lemma_split_on_absent(s.drop_last(), sep);
        let rest = split_on(s.drop_last(), sep);
        assert(rest.len() == 1 && rest.last() == s.drop_last());
        assert(s.drop_last().push(s.last()) =~= s);
        assert(rest.update(0, s.drop_last().push(s.last())) =~= seq![s]);
    } else {
        assert(s =~= Seq::<char>::empty());
    }
}

/// A covering column written without a `:` part is its trimmed name,
/// sorted ascending only; a blank one is refused.
pub proof fn law_covering_column_defaults_ascending(tok: Seq<char>)
    requires
        forall|i: int| 0 <= i < tok.len() ==> tok[i] != ':',
    ensures
        trim(tok).len() > 0 ==> covering_column(tok) == Some((trim(tok), seq![SortDirection::Asc])),
        trim(tok).len() == 0 ==> covering_column(tok) is None,
{
    lemma_split_on_absent(tok, ':');
}

proof fn lemma_single_direction(name: Seq<char>, label: Seq<char>, d: SortDirection)
    requires
        forall|i: int| 0 <= i < name.len() ==> name[i] != ':',
        trim(name).len() > 0,
        label == "asc"@ || label == "desc"@,
        d == (if label == "asc"@ {
            SortDirection::Asc
        } else {
            SortDirection::Desc
        }),
    ensures
        covering_column(name + seq![':'] + label) == Some((trim(name), seq![d])),
{
    reveal_strlit("asc");
    reveal_strlit("desc");
    assert(forall|i: int| 0 <= i < label.len() ==> label[i] != ':' && label[i] != '|' && 'a' <= #[trigger] label[i] <= 'z');
    crate::text::lemma_split_two(name, label, ':');
    lemma_split_on_absent(label, '|');
    crate::text::lemma_trim_plain(label);
    assert(lower_seq(label) =~= label);
    let parts = seq![label];
    assert(parts.drop_last() =~= Seq::<Seq<char>>::empty());
    assert(parts.last() == label);
    assert(trim(label) == label);
    assert(dir_tokens(Seq::<Seq<char>>::empty()) == Seq::<Seq<char>>::empty());
    assert(Seq::<Seq<char>>::empty().push(label) =~= seq![label]);
    assert(dir_tokens(parts) == seq![label]);
    assert(direction_from_label(label) == Some(d));
    assert(dirs_of_tokens(Seq::<Seq<char>>::empty()) == Some(Seq::<SortDirection>::empty()));
    assert(Seq::<SortDirection>::empty().push(d) =~= seq![d]);
    assert(dirs_of_tokens(seq![label]) == Some(seq![d]));
}

/// A covering column written `name:asc` or `name:desc` is its trimmed name
/// with that one direction.
pub proof fn law_covering_column_single_direction(name: Seq<char>)
    requires
        forall|i: int| 0 <= i < name.len() ==> name[i] != ':',
        trim(name).len() > 0,
    ensures
        covering_column(name + seq![':'] + "asc"@) == Some((trim(name), seq![SortDirection::Asc])),
        covering_column(name + seq![':'] + "desc"@) == Some((trim(name), seq![SortDirection::Desc])),
{
    reveal_strlit("asc");
    reveal_strlit("desc");
    lemma_single_direction(name, "asc"@, SortDirection::Asc);
    lemma_single_direction(name, "desc"@, SortDirection::Desc);
}

} // verus!
