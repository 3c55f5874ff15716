//! The report of invalid values that `verify` prints when asked to: the
//! invalid cells kept for the detail table, and the count of violations
//! per column for the summary table.
use vstd::prelude::*;

use crate::commands::{red, InvalidReportOptions};
use crate::frequency::{count_sum, law_tally_adds_one_to_sum};
use crate::header::{rows_view, strs_view};
use crate::sampling::{count_occurrence, keys_increasing, pair_views, tally};
use crate::schema::{type_description, ColumnType};
use crate::table::{render_table, table_text};
use crate::text::{chars_of, extend_chars, nat_to_seq, string_of, usize_to_chars};

verus! {

/// An invalid cell kept for the detail table.
#[derive(Debug, Clone)]
pub struct InvalidEntry {
    pub row_number: usize,
    pub column_name: String,
    pub datatype: ColumnType,
    pub raw_value: String,
    /// The value after mappings and replacements, where it differs.
    pub normalized_value: Option<String>,
    pub reason: String,
}

/// An invalid cell as text.
pub struct EntryView {
    pub row_number: nat,
    pub column_name: Seq<char>,
    pub datatype: ColumnType,
    pub raw_value: Seq<char>,
    pub normalized_value: Option<Seq<char>>,
    pub reason: Seq<char>,
}

pub open spec fn entry_view(e: InvalidEntry) -> EntryView {
    EntryView {
        row_number: e.row_number as nat,
        column_name: e.column_name@,
        datatype: e.datatype,
        raw_value: e.raw_value@,
        normalized_value: match e.normalized_value {
            Some(n) => Some(n@),
            None => None,
        },
        reason: e.reason@,
    }
}

pub open spec fn entries_view(v: Seq<InvalidEntry>) -> Seq<EntryView> {
    v.map_values(|e: InvalidEntry| entry_view(e))
}

/// How many invalid cells the detail table keeps: none without it, else
/// the limit asked for, else all.
pub open spec fn collection_limit(o: InvalidReportOptions) -> nat {
    if o.show_detail {
        match o.limit {
            Some(l) => l as nat,
            None => usize::MAX as nat,
        }
    } else {
        0
    }
}

/// Some type is recorded under `name`.
pub open spec fn has_type_for(types: Seq<(Seq<char>, ColumnType)>, name: Seq<char>) -> bool {
    exists|j: int| 0 <= j < types.len() && (#[trigger] types[j]).0 == name
}

/// The type recorded first under `name` (`String` when none is).
pub open spec fn type_for(types: Seq<(Seq<char>, ColumnType)>, name: Seq<char>) -> ColumnType
    decreases types.len(),
{
    if types.len() == 0 {
        ColumnType::String
    } else if types[0].0 == name {
        types[0].1
    } else {
        type_for(types.drop_first(), name)
    }
}

pub open spec fn types_view(v: Seq<(String, ColumnType)>) -> Seq<(Seq<char>, ColumnType)> {
    v.map_values(|p: (String, ColumnType)| (p.0@, p.1))
}

/// The entry recorded for an invalid cell.
pub open spec fn new_entry(
    row_number: usize,
    column_name: Seq<char>,
    datatype: ColumnType,
    raw: Seq<char>,
    normalized: Seq<char>,
    reason: Seq<char>,
) -> EntryView {
    EntryView {
        row_number: row_number as nat,
        column_name,
        datatype,
        raw_value: raw,
        normalized_value: if normalized == raw {
            None
        } else {
            Some(normalized)
        },
        reason,
    }
}

/// The invalid cells met so far: those kept for the detail table, the
/// violations per column name (in name order) with each name's type as
/// first met, and how many there were in all.
pub struct InvalidReport {
    options: InvalidReportOptions,
    entries: Vec<InvalidEntry>,
    counts: Vec<(String, usize)>,
    types: Vec<(String, ColumnType)>,
    total: usize,
}

impl InvalidReport {
    pub closed spec fn options_view(&self) -> InvalidReportOptions {
        self.options
    }

    pub closed spec fn entries_view(&self) -> Seq<EntryView> {
        entries_view(self.entries@)
    }

    /// Violations per column name, in name order.
    pub closed spec fn counts_view(&self) -> Seq<(Seq<char>, usize)> {
        pair_views(self.counts@)
    }

    /// Each column name's type, in the order the names were first met.
    pub closed spec fn types_view(&self) -> Seq<(Seq<char>, ColumnType)> {
        types_view(self.types@)
    }

    pub closed spec fn total_view(&self) -> usize {
        self.total
    }

    /// Each name is counted once and in order, the counts add up to the
    /// total, and each counted name has its type.
    pub open spec fn wf(&self) -> bool {
        &&& keys_increasing(self.counts_view())
        &&& count_sum(self.counts_view()) == self.total_view()
        &&& forall|k: int|
            0 <= k < self.counts_view().len() ==> has_type_for(
                self.types_view(),
                #[trigger] self.counts_view()[k].0,
            )
        &&& self.entries_view().len() <= collection_limit(self.options_view())
    }

    pub fn new(options: InvalidReportOptions) -> (r: Self)
        ensures
            r.wf(),
            r.options_view() == options,
            r.entries_view() == Seq::<EntryView>::empty(),
            r.counts_view() == Seq::<(Seq<char>, usize)>::empty(),
            r.types_view() == Seq::<(Seq<char>, ColumnType)>::empty(),
            r.total_view() == 0,
    {
        let r = InvalidReport { options, entries: Vec::new(), counts: Vec::new(), types: Vec::new(), total: 0 };
        assert(r.entries_view() =~= Seq::<EntryView>::empty());
        assert(r.counts_view() =~= Seq::<(Seq<char>, usize)>::empty());
        assert(r.types_view() =~= Seq::<(Seq<char>, ColumnType)>::empty());
        r
    }

    /// How many invalid cells were recorded.
    pub fn total(&self) -> (r: usize)
        ensures
            r == self.total_view(),
    {
        self.total
    }

    /// Records an invalid cell: it counts toward its column and the total,
    /// and is kept for the detail table while the limit allows.
    pub fn record(
        &mut self,
        row_number: usize,
        column_name: &str,
        datatype: ColumnType,
        raw: &str,
        normalized: &str,
        reason: &str,
    )
        requires
            old(self).wf(),
            old(self).total_view() < usize::MAX,
        ensures
            final(self).wf(),
            final(self).options_view() == old(self).options_view(),
            final(self).total_view() == old(self).total_view() + 1,
            final(self).counts_view() == tally(old(self).counts_view(), column_name@),
            final(self).types_view() == if has_type_for(old(self).types_view(), column_name@) {
                old(self).types_view()
            } else {
                old(self).types_view().push((column_name@, datatype))
            },
            final(self).entries_view() == if old(self).entries_view().len() < collection_limit(
                old(self).options_view(),
            ) {
                old(self).entries_view().push(new_entry(row_number, column_name@, datatype, raw@, normalized@, reason@))
            } else {
                old(self).entries_view()
            },
    {
        let ghost old_counts = pair_views(self.counts@);
        let ghost old_types = types_view(self.types@);
        let ghost old_entries = entries_view(self.entries@);
        let limit: usize = if self.options.show_detail {
            match self.options.limit {
                Some(l) => l,
                None => usize::MAX,
            }
        } else {
            0
        };
        if self.entries.len() < limit {
            let normalized_value = if crate::text::str_eq(normalized, raw) {
                None
            } else {
                Some(normalized.to_string())
            };
            let e = InvalidEntry {
                row_number,
                column_name: column_name.to_string(),
                datatype,
                raw_value: raw.to_string(),
                normalized_value,
                reason: reason.to_string(),
            };
            self.entries.push(e);
            assert(entries_view(self.entries@) =~= old_entries.push(
                new_entry(row_number, column_name@, datatype, raw@, normalized@, reason@),
            ));
        }
        let mut found = false;
        for j in 0..self.types.len()
            invariant
                old_types == types_view(self.types@),
                found == (exists|k: int| 0 <= k < j && (#[trigger] old_types[k]).0 == column_name@),
        {
            let is_match = crate::text::str_eq(self.types[j].0.as_str(), column_name);
            proof {
                assert(old_types[j as int].0 == self.types@[j as int].0@);
            }
            if is_match {
                found = true;
            }
        }
        if !found {
            self.types.push((column_name.to_string(), datatype));
            assert(types_view(self.types@) =~= old_types.push((column_name@, datatype)));
        }
        proof {
            assert forall|i: int| 0 <= i < self.counts@.len() implies #[trigger] self.counts@[i].1 < usize::MAX by {
                crate::frequency::lemma_count_within_sum(old_counts, i);
                assert(old_counts[i].1 == self.counts@[i].1);
            }
            assert forall|i: int| 0 <= i < old_counts.len() implies #[trigger] old_counts[i].1 < usize::MAX by {
                crate::frequency::lemma_count_within_sum(old_counts, i);
            }
            law_tally_adds_one_to_sum(old_counts, column_name@);
        }
        count_occurrence(&mut self.counts, chars_of(column_name).as_slice());
        self.total = self.total + 1;
        proof {
            let nt = types_view(self.types@);
            let nc = pair_views(self.counts@);
            lemma_tally_keys(old_counts, column_name@);
            assert(has_type_for(nt, column_name@)) by {
                if found {
                    let k = choose|k: int| 0 <= k < old_types.len() && (#[trigger] old_types[k]).0 == column_name@;
                    assert(nt[k] == old_types[k]);
                } else {
                    assert(nt[old_types.len() as int].0 == column_name@);
                }
            }
            assert forall|k: int| 0 <= k < nc.len() implies has_type_for(nt, #[trigger] nc[k].0) by {
                if nc[k].0 != column_name@ {
                    let i = choose|i: int| 0 <= i < old_counts.len() && old_counts[i].0 == nc[k].0;
                    assert(has_type_for(old_types, old_counts[i].0));
                    let m = choose|m: int| 0 <= m < old_types.len() && (#[trigger] old_types[m]).0 == old_counts[i].0;
                    assert(nt[m] == old_types[m]);
                }
            }
        }
    }
}

/// Every key after counting `t` is `t` or a key from before.
proof fn lemma_tally_keys(v: Seq<(Seq<char>, usize)>, t: Seq<char>)
    ensures
        forall|k: int|
            0 <= k < tally(v, t).len() ==> (#[trigger] tally(v, t)[k]).0 == t || exists|i: int|
                0 <= i < v.len() && v[i].0 == tally(v, t)[k].0,
    decreases v.len(),
{
    let r = tally(v, t);
    if v.len() == 0 {
    } else if v[0].0 == t {
        assert forall|k: int| 0 <= k < r.len() implies (#[trigger] r[k]).0 == t || exists|i: int|
            0 <= i < v.len() && v[i].0 == r[k].0 by {
            if k > 0 {
                assert(r[k] == v[k]);
            }
        }
    } else if crate::text::seq_lt(v[0].0, t) {
        lemma_tally_keys(v.drop_first(), t);
        let rest = tally(v.drop_first(), t);
        assert(r =~= seq![v[0]] + rest);
        assert forall|k: int| 0 <= k < r.len() implies (#[trigger] r[k]).0 == t || exists|i: int|
            0 <= i < v.len() && v[i].0 == r[k].0 by {
            if k == 0 {
                assert(v[0].0 == r[0].0);
            } else {
                assert(r[k] == rest[k - 1]);
                if rest[k - 1].0 != t {
                    let i = choose|i: int| 0 <= i < v.drop_first().len() && v.drop_first()[i].0 == rest[k - 1].0;
                    assert(v[i + 1].0 == r[k].0);
                }
            }
        }
    } else {
        assert forall|k: int| 0 <= k < r.len() implies (#[trigger] r[k]).0 == t || exists|i: int|
            0 <= i < v.len() && v[i].0 == r[k].0 by {
            if k > 0 {
                assert(r[k] == v[k - 1]);
            }
        }
    }
}

// ---------------------------------------------------------------------------
// The printed report
// ---------------------------------------------------------------------------

pub open spec fn detail_headers() -> Seq<Seq<char>> {
    seq!["row"@, "column"@, "raw"@, "value"@, "datatype"@, "reason"@]
}

/// A row of the detail table: row number, column, raw value, the value
/// checked (highlighted in red), type and reason.
pub open spec fn detail_row(e: EntryView) -> Seq<Seq<char>> {
    seq![
        nat_to_seq(e.row_number),
        e.column_name,
        e.raw_value,
        red(
            match e.normalized_value {
                Some(n) => n,
                None => e.raw_value,
            },
        ),
        type_description(e.datatype),
        e.reason,
    ]
}

pub open spec fn summary_headers() -> Seq<Seq<char>> {
    seq!["column"@, "datatype"@, "errors"@]
}

/// A row of the summary table: column, its type and its violations.
pub open spec fn summary_row(types: Seq<(Seq<char>, ColumnType)>, p: (Seq<char>, usize)) -> Seq<Seq<char>> {
    seq![p.0, type_description(type_for(types, p.0)), nat_to_seq(p.1 as nat)]
}

pub open spec fn limit_text(o: InvalidReportOptions) -> Seq<char> {
    match o.limit {
        None => "no limit"@,
        Some(v) => nat_to_seq(v as nat),
    }
}

/// The detail part: a table of the kept cells (or a hint when none was
/// kept), how many were shown of how many, and a blank line before the
/// summary.
pub open spec fn detail_text(
    o: InvalidReportOptions,
    entries: Seq<EntryView>,
    counts: Seq<(Seq<char>, usize)>,
    total: nat,
    path: Seq<char>,
) -> Seq<char> {
    if o.show_detail {
        "Invalid rows in "@ + path + ":\n"@ + (if entries.len() == 0 {
            "No sample rows captured; use '--report-invalid:detail <LIMIT>' with a higher LIMIT to display examples.\n"@
        } else {
            table_text(detail_headers(), entries.map_values(|e: EntryView| detail_row(e)))
        }) + (if total > entries.len() {
            "\nDisplayed "@ + nat_to_seq(entries.len()) + " of "@ + nat_to_seq(total) + " invalid row(s) (limit: "@
                + limit_text(o) + ").\n"@
        } else {
            Seq::empty()
        }) + (if o.show_summary && counts.len() > 0 {
            "\n"@
        } else {
            Seq::empty()
        })
    } else {
        Seq::empty()
    }
}

/// The summary part: a table of the columns with violations, in name order.
pub open spec fn summary_text(
    o: InvalidReportOptions,
    counts: Seq<(Seq<char>, usize)>,
    types: Seq<(Seq<char>, ColumnType)>,
) -> Seq<char> {
    if o.show_summary && counts.len() > 0 {
        "Columns with schema violations:\n"@ + table_text(
            summary_headers(),
            counts.map_values(|p: (Seq<char>, usize)| summary_row(types, p)),
        ) + "\n"@
    } else if o.show_detail {
        "\n"@
    } else {
        Seq::empty()
    }
}

/// The whole report, after a blank line.
pub open spec fn report_text(
    o: InvalidReportOptions,
    entries: Seq<EntryView>,
    counts: Seq<(Seq<char>, usize)>,
    types: Seq<(Seq<char>, ColumnType)>,
    total: nat,
    path: Seq<char>,
) -> Seq<char> {
    "\n"@ + detail_text(o, entries, counts, total, path) + summary_text(o, counts, types)
}

fn type_of_name(types: &[(String, ColumnType)], name: &str) -> (r: ColumnType)
    ensures
        r == type_for(types_view(types@), name@),
{
    let ghost tv = types_view(types@);
    assert(tv.skip(0) =~= tv);
    for i in 0..types.len()
        invariant
            tv == types_view(types@),
            type_for(tv, name@) == type_for(tv.skip(i as int), name@),
    {
        assert(tv.skip(i as int)[0] == tv[i as int]);
        assert(tv.skip(i as int).drop_first() =~= tv.skip(i + 1));
        if crate::text::str_eq(types[i].0.as_str(), name) {
            return types[i].1;
        }
    }
    assert(tv.skip(types@.len() as int) =~= Seq::<(Seq<char>, ColumnType)>::empty());
    ColumnType::String
}

fn strings_of(parts: &[&str]) -> (r: Vec<String>)
    ensures
        strs_view(r@) == parts@.map_values(|s: &str| s@),
{
    let mut r: Vec<String> = Vec::new();
    for i in 0..parts.len()
        invariant
            strs_view(r@) == parts@.take(i as int).map_values(|s: &str| s@),
    {
        r.push(parts[i].to_string());
        assert(parts@.take(i + 1) =~= parts@.take(i as int).push(parts@[i as int]));
        assert(strs_view(r@) =~= strs_view(r@.drop_last()).push(r@.last()@));
        assert(parts@.take(i + 1).map_values(|s: &str| s@) =~= parts@.take(i as int).map_values(
            |s: &str| s@,
        ).push(parts@[i as int]@));
    }
    assert(parts@.take(parts@.len() as int) =~= parts@);
    r
}

impl InvalidReport {
    fn detail_rows(&self) -> (r: Vec<Vec<String>>)
        ensures
            rows_view(r@) == self.entries_view().map_values(|e: EntryView| detail_row(e)),
    {
        let ghost ev = self.entries_view();
        let mut rows: Vec<Vec<String>> = Vec::new();
        for i in 0..self.entries.len()
            invariant
                ev == entries_view(self.entries@),
                rows_view(rows@) == ev.take(i as int).map_values(|e: EntryView| detail_row(e)),
        {
            let e = &self.entries[i];
            let shown = match &e.normalized_value {
                Some(n) => crate::commands::highlight_red(n.as_str()),
                None => crate::commands::highlight_red(e.raw_value.as_str()),
            };
            let row = vec![
                crate::text::usize_to_string(e.row_number),
                e.column_name.clone(),
                e.raw_value.clone(),
                shown,
                e.datatype.describe(),
                e.reason.clone(),
            ];
            assert(strs_view(row@) =~= detail_row(ev[i as int]));
            rows.push(row);
            assert(ev.take(i + 1) =~= ev.take(i as int).push(ev[i as int]));
            assert(rows_view(rows@) =~= rows_view(rows@.drop_last()).push(strs_view(rows@.last()@)));
            assert(ev.take(i + 1).map_values(|e: EntryView| detail_row(e)) =~= ev.take(i as int).map_values(
                |e: EntryView| detail_row(e),
            ).push(detail_row(ev[i as int])));
        }
        assert(ev.take(ev.len() as int) =~= ev);
        rows
    }

    fn summary_rows(&self) -> (r: Vec<Vec<String>>)
        ensures
            rows_view(r@) == self.counts_view().map_values(
                |p: (Seq<char>, usize)| summary_row(self.types_view(), p),
            ),
    {
        let ghost cv = self.counts_view();
        let ghost tv = self.types_view();
        let mut rows: Vec<Vec<String>> = Vec::new();
        for i in 0..self.counts.len()
            invariant
                cv == pair_views(self.counts@),
                tv == types_view(self.types@),
                rows_view(rows@) == cv.take(i as int).map_values(|p: (Seq<char>, usize)| summary_row(tv, p)),
        {
            let name = self.counts[i].0.as_str();
            let ty = type_of_name(self.types.as_slice(), name);
            let row = vec![
                self.counts[i].0.clone(),
                ty.describe(),
                crate::text::usize_to_string(self.counts[i].1),
            ];
            assert(cv[i as int] == (self.counts@[i as int].0@, self.counts@[i as int].1));
            assert(strs_view(row@) =~= summary_row(tv, cv[i as int]));
            rows.push(row);
            assert(cv.take(i + 1) =~= cv.take(i as int).push(cv[i as int]));
            assert(rows_view(rows@) =~= rows_view(rows@.drop_last()).push(strs_view(rows@.last()@)));
            assert(cv.take(i + 1).map_values(|p: (Seq<char>, usize)| summary_row(tv, p)) =~= cv.take(
                i as int,
            ).map_values(|p: (Seq<char>, usize)| summary_row(tv, p)).push(summary_row(tv, cv[i as int])));
        }
        assert(cv.take(cv.len() as int) =~= cv);
        rows
    }

    fn table_part(&self) -> (r: Vec<char>)
        requires
            self.entries_view().len() > 0,
        ensures
            r@ == table_text(detail_headers(), self.entries_view().map_values(|e: EntryView| detail_row(e))),
    {
        let headers = strings_of(&["row", "column", "raw", "value", "datatype", "reason"]);
        assert(strs_view(headers@) =~= detail_headers());
        let rows = self.detail_rows();
        let t = render_table(headers.as_slice(), rows.as_slice());
        chars_of(t.as_str())
    }

    fn shown_part(&self) -> (r: Vec<char>)
        ensures
            r@ == (if self.total_view() > self.entries_view().len() {
                "\nDisplayed "@ + nat_to_seq(self.entries_view().len()) + " of "@ + nat_to_seq(self.total_view() as nat)
                    + " invalid row(s) (limit: "@ + limit_text(self.options_view()) + ").\n"@
            } else {
                Seq::<char>::empty()
            }),
    {
        let mut m: Vec<char> = Vec::new();
        if self.total > self.entries.len() {
            m = chars_of("\nDisplayed ");
            extend_chars(&mut m, usize_to_chars(self.entries.len()).as_slice());
            extend_chars(&mut m, chars_of(" of ").as_slice());
            extend_chars(&mut m, usize_to_chars(self.total).as_slice());
            extend_chars(&mut m, chars_of(" invalid row(s) (limit: ").as_slice());
            let lt = match self.options.limit {
                None => chars_of("no limit"),
                Some(v) => usize_to_chars(v),
            };
            assert(lt@ == limit_text(self.options_view()));
            extend_chars(&mut m, lt.as_slice());
            extend_chars(&mut m, chars_of(").\n").as_slice());
        }
        m
    }

    fn detail_part(&self, path: &str) -> (r: Vec<char>)
        ensures
            r@ == detail_text(
                self.options_view(),
                self.entries_view(),
                self.counts_view(),
                self.total_view() as nat,
                path@,
            ),
    {
        if !self.options.show_detail {
            return Vec::new();
        }
        let mut m = chars_of("Invalid rows in ");
        extend_chars(&mut m, chars_of(path).as_slice());
        extend_chars(&mut m, chars_of(":\n").as_slice());
        let body = if self.entries.len() == 0 {
            chars_of(
                "No sample rows captured; use '--report-invalid:detail <LIMIT>' with a higher LIMIT to display examples.\n",
            )
        } else {
            self.table_part()
        };
        extend_chars(&mut m, body.as_slice());
        let shown = self.shown_part();
        extend_chars(&mut m, shown.as_slice());
        let gap = if self.options.show_summary && self.counts.len() > 0 {
            chars_of("\n")
        } else {
            Vec::new()
        };
        extend_chars(&mut m, gap.as_slice());
        m
    }

    fn summary_part(&self) -> (r: Vec<char>)
        ensures
            r@ == summary_text(self.options_view(), self.counts_view(), self.types_view()),
    {
        if self.options.show_summary && self.counts.len() > 0 {
            let mut m = chars_of("Columns with schema violations:\n");
            let headers = strings_of(&["column", "datatype", "errors"]);
            assert(strs_view(headers@) =~= summary_headers());
            let rows = self.summary_rows();
            let t = render_table(headers.as_slice(), rows.as_slice());
            extend_chars(&mut m, chars_of(t.as_str()).as_slice());
            extend_chars(&mut m, chars_of("\n").as_slice());
            m
        } else if self.options.show_detail {
            chars_of("\n")
        } else {
            Vec::new()
        }
    }

    /// The report to print: the detail table when asked for, then the
    /// summary table when asked for and any column had violations.
    pub fn report_text(&self, path: &str) -> (r: String)
        ensures
            r@ == report_text(
                self.options_view(),
                self.entries_view(),
                self.counts_view(),
                self.types_view(),
                self.total_view() as nat,
                path@,
            ),
    {
        let mut m = chars_of("\n");
        let d = self.detail_part(path);
        extend_chars(&mut m, d.as_slice());
        let s = self.summary_part();
        extend_chars(&mut m, s.as_slice());
        string_of(m.as_slice())
    }
}

} // verus!
