//! Plain-text tables: columns padded to their widest cell, a dashed rule
//! under the header, cells separated by two spaces.
use vstd::prelude::*;

use crate::header::strs_view;
use crate::text::{chars_of, join_seqs, string_of};

verus! {

/// Width of a text on a terminal: its characters, not counting ANSI escape
/// sequences (from `ESC` up to and including the next `m`).
pub open spec fn width_from(s: Seq<char>, in_escape: bool) -> nat
    decreases s.len(),
{
    if s.len() == 0 {
        0
    } else if in_escape {
        width_from(s.drop_first(), s[0] != 'm')
    } else if s[0] == '\u{1b}' {
        width_from(s.drop_first(), true)
    } else {
        1 + width_from(s.drop_first(), false)
    }
}

pub open spec fn text_width(s: Seq<char>) -> nat {
    width_from(s, false)
}

proof fn lemma_width_bound(s: Seq<char>, e: bool)
    ensures
        width_from(s, e) <= s.len(),
    decreases s.len(),
{
    if s.len() > 0 {
        lemma_width_bound(s.drop_first(), s[0] != 'm');
        lemma_width_bound(s.drop_first(), true);
        lemma_width_bound(s.drop_first(), false);
    }
}

pub fn display_width(value: &str) -> (r: usize)
    ensures
        r == text_width(value@),
{
    let s = chars_of(value);
    let mut width: usize = 0;
    let mut esc = false;
    assert(s@.skip(0) =~= s@);
    for i in 0..s.len()
        invariant
            width + width_from(s@.skip(i as int), esc) == text_width(s@),
            width <= i,
    {
        assert(s@.skip(i as int)[0] == s@[i as int]);
        assert(s@.skip(i as int).drop_first() =~= s@.skip(i + 1));
        if esc {
            esc = s[i] != 'm';
        } else if s[i] == '\u{1b}' {
            esc = true;
        } else {
            width = width + 1;
        }
    }
    assert(s@.skip(s@.len() as int) =~= Seq::<char>::empty());
    width
}

pub open spec fn blank_control(c: char) -> char {
    if c == '\n' || c == '\r' || c == '\t' {
        ' '
    } else {
        c
    }
}

/// A cell with line breaks and tabs made spaces.
pub open spec fn sanitized(s: Seq<char>) -> Seq<char> {
    s.map_values(|c: char| blank_control(c))
}

pub fn sanitize_cell(value: &str) -> (r: String)
    ensures
        r@ == sanitized(value@),
{
    let s = chars_of(value);
    let mut out: Vec<char> = Vec::new();
    for i in 0..s.len()
        invariant
            out@ == sanitized(s@.take(i as int)),
    {
        let c = s[i];
        if c == '\n' || c == '\r' || c == '\t' {
            out.push(' ');
        } else {
            out.push(c);
        }
        assert(sanitized(s@.take(i + 1)) =~= sanitized(s@.take(i as int)).push(blank_control(c)));
    }
    assert(s@.take(s@.len() as int) =~= s@);
    string_of(out.as_slice())
}

/// `n` spaces.
pub open spec fn spaces(n: nat) -> Seq<char> {
    Seq::new(n, |i: int| ' ')
}

/// A cell padded with spaces to `width` columns.
pub open spec fn padded(v: Seq<char>, width: usize) -> Seq<char> {
    let s = sanitized(v);
    let w = text_width(s);
    if width > w {
        s + spaces((width - w) as nat)
    } else {
        s
    }
}

/// `s` without trailing spaces.
pub open spec fn trim_trailing_spaces(s: Seq<char>) -> Seq<char>
    decreases s.len(),
{
    if s.len() > 0 && s.last() == ' ' {
        trim_trailing_spaces(s.drop_last())
    } else {
        s
    }
}

/// A table line: the cells (as many as there are widths) padded and joined
/// by two spaces, trailing spaces removed.
pub open spec fn table_line(values: Seq<Seq<char>>, widths: Seq<usize>) -> Seq<char> {
    let n = if values.len() <= widths.len() {
        values.len()
    } else {
        widths.len()
    };
    trim_trailing_spaces(join_seqs(Seq::new(n, |i: int| padded(values[i], widths[i])), "  "@))
}

pub fn format_row(values: &[String], widths: &[usize]) -> (r: String)
    ensures
        r@ == table_line(strs_view(values@), widths@),
{
    let n: usize = if values.len() <= widths.len() {
        values.len()
    } else {
        widths.len()
    };
    let ghost vv = strs_view(values@);
    let mut cells: Vec<String> = Vec::new();
    for i in 0..n
        invariant
            n <= values@.len(),
            n <= widths@.len(),
            vv == strs_view(values@),
            cells@.len() == i,
            forall|j: int| 0 <= j < i ==> #[trigger] cells@[j]@ == padded(vv[j], widths@[j]),
    {
        let s = sanitize_cell(values[i].as_str());
        let w = display_width(s.as_str());
        let mut cell = chars_of(s.as_str());
        if widths[i] > w {
            let pad = widths[i] - w;
            let mut k: usize = 0;
            let ghost base = cell@;
            while k < pad
                invariant
                    k <= pad,
                    cell@ == base + spaces(k as nat),
                decreases pad - k,
            {
                cell.push(' ');
                k += 1;
                assert(cell@ =~= base + spaces(k as nat));
            }
        } else {
            assert(cell@ == padded(vv[i as int], widths@[i as int]));
        }
        cells.push(string_of(cell.as_slice()));
    }
    let ghost parts = Seq::new(n as nat, |i: int| padded(vv[i], widths@[i]));
    assert(strs_view(cells@) =~= parts);
    let joined = crate::text::join_strings(cells.as_slice(), "  ");
    let mut line = chars_of(joined.as_str());
    assert(line@ == join_seqs(parts, "  "@));
    let ghost full = line@;
    while line.len() > 0 && line[line.len() - 1] == ' '
        invariant
            trim_trailing_spaces(full) == trim_trailing_spaces(line@),
        decreases line.len(),
    {
        let ghost before = line@;
        line.pop();
        assert(line@ =~= before.drop_last());
    }
    string_of(line.as_slice())
}

/// The widest of column `i` among the header and the first `k` rows.
pub open spec fn column_width_upto(headers: Seq<Seq<char>>, rows: Seq<Seq<Seq<char>>>, i: int, k: int) -> nat
    decreases k,
{
    if k <= 0 {
        text_width(headers[i])
    } else {
        let prev = column_width_upto(headers, rows, i, k - 1);
        let r = rows[k - 1];
        if i < r.len() && text_width(r[i]) > prev {
            text_width(r[i])
        } else {
            prev
        }
    }
}

/// The width of column `i`: its widest cell, at least one.
pub open spec fn column_width(headers: Seq<Seq<char>>, rows: Seq<Seq<Seq<char>>>, i: int) -> nat {
    let w = column_width_upto(headers, rows, i, rows.len() as int);
    if w >= 1 {
        w
    } else {
        1
    }
}

pub open spec fn table_widths(headers: Seq<Seq<char>>, rows: Seq<Seq<Seq<char>>>) -> Seq<usize> {
    Seq::new(headers.len(), |i: int| column_width(headers, rows, i) as usize)
}

/// The rule under the header: dashes as wide as each column, three at
/// least.
pub open spec fn rule_widths(w: Seq<usize>) -> Seq<usize> {
    w.map_values(|x: usize| if x >= 3 {
        x
    } else {
        3usize
    })
}

pub open spec fn dashes(n: nat) -> Seq<char> {
    Seq::new(n, |i: int| '-')
}

pub open spec fn rows_lines(rows: Seq<Seq<Seq<char>>>, w: Seq<usize>) -> Seq<char>
    decreases rows.len(),
{
    if rows.len() == 0 {
        Seq::empty()
    } else {
        rows_lines(rows.drop_last(), w) + table_line(rows.last(), w) + "\n"@
    }
}

/// The rendered table: header line, rule, one line per row, each ending in
/// a newline.
pub open spec fn table_text(headers: Seq<Seq<char>>, rows: Seq<Seq<Seq<char>>>) -> Seq<char> {
    let w = table_widths(headers, rows);
    let sw = rule_widths(w);
    table_line(headers, w) + "\n"@ + table_line(sw.map_values(|x: usize| dashes(x as nat)), sw)
        + "\n"@ + rows_lines(rows, w)
}

fn make_dashes(n: usize) -> (r: String)
    ensures
        r@ == dashes(n as nat),
{
    let mut v: Vec<char> = Vec::new();
    for i in 0..n
        invariant
            v@ == dashes(i as nat),
    {
        v.push('-');
        assert(v@ =~= dashes((i + 1) as nat));
    }
    string_of(v.as_slice())
}

pub fn render_table(headers: &[String], rows: &[Vec<String>]) -> (r: String)
    ensures
        r@ == table_text(strs_view(headers@), crate::header::rows_view(rows@)),
{
    let ghost hv = strs_view(headers@);
    let ghost rv = crate::header::rows_view(rows@);
    let n = headers.len();
    let mut widths: Vec<usize> = Vec::new();
    for i in 0..n
        invariant
            n == headers@.len(),
            hv == strs_view(headers@),
            widths@.len() == i,
            forall|j: int| 0 <= j < i ==> #[trigger] widths@[j] == column_width_upto(hv, rv, j, 0),
    {
        widths.push(display_width(headers[i].as_str()));
    }
    for k in 0..rows.len()
        invariant
            n == headers@.len(),
            hv == strs_view(headers@),
            rv == crate::header::rows_view(rows@),
            widths@.len() == n,
            forall|j: int| 0 <= j < n ==> #[trigger] widths@[j] == column_width_upto(hv, rv, j, k as int),
    {
        let row = &rows[k];
        assert(rv[k as int] == strs_view(row@));
        let m: usize = if row.len() <= n {
            row.len()
        } else {
            n
        };
        let ghost wk = widths@;
        for j in 0..m
            invariant
                m <= n,
                m <= row@.len(),
                n == headers@.len(),
                hv == strs_view(headers@),
                rv == crate::header::rows_view(rows@),
                rv[k as int] == strs_view(row@),
                k < rv.len(),
                widths@.len() == n,
                forall|q: int| 0 <= q < n ==> #[trigger] wk[q] == column_width_upto(hv, rv, q, k as int),
                forall|q: int|
                    0 <= q < n ==> #[trigger] widths@[q] == if q < j {
                        column_width_upto(hv, rv, q, k + 1)
                    } else {
                        wk[q] as nat
                    },
        {
            let w = display_width(row[j].as_str());
            if w > widths[j] {
                widths.set(j, w);
            }
        }
        assert forall|q: int| 0 <= q < n implies #[trigger] widths@[q] == column_width_upto(
            hv,
            rv,
            q,
            k + 1,
        ) by {
            if q >= m {
                assert(!(q < rv[k as int].len()));
            }
        }
    }
    assert forall|j: int| 0 <= j < n implies column_width_upto(hv, rv, j, rv.len() as int)
        <= usize::MAX by {
        assert(widths@[j] == column_width_upto(hv, rv, j, rows@.len() as int));
    }
    for i in 0..n
        invariant
            n == headers@.len(),
            widths@.len() == n,
            forall|j: int|
                0 <= j < n ==> #[trigger] widths@[j] == if j < i {
                    column_width(hv, rv, j) as usize
                } else {
                    column_width_upto(hv, rv, j, rv.len() as int) as usize
                },
            rv == crate::header::rows_view(rows@),
            forall|j: int| 0 <= j < n ==> column_width_upto(hv, rv, j, rv.len() as int) <= usize::MAX,
    {
        if widths[i] < 1 {
            widths.set(i, 1);
        }
    }
    assert(widths@ =~= table_widths(hv, rv));
    let mut out = chars_of(format_row(headers, widths.as_slice()).as_str());
    out.push('\n');
    let mut sep_widths: Vec<usize> = Vec::new();
    let mut sep_cells: Vec<String> = Vec::new();
    for i in 0..n
        invariant
            widths@.len() == n,
            sep_widths@.len() == i,
            sep_cells@.len() == i,
            forall|j: int| 0 <= j < i ==> #[trigger] sep_widths@[j] == rule_widths(widths@)[j],
            forall|j: int| 0 <= j < i ==> #[trigger] sep_cells@[j]@ == dashes(sep_widths@[j] as nat),
    {
        let w: usize = if widths[i] >= 3 {
            widths[i]
        } else {
            3
        };
        sep_widths.push(w);
        sep_cells.push(make_dashes(w));
    }
    assert(sep_widths@ =~= rule_widths(widths@));
    assert(strs_view(sep_cells@) =~= sep_widths@.map_values(|x: usize| dashes(x as nat)));
    let sep_line = format_row(sep_cells.as_slice(), sep_widths.as_slice());
    crate::text::extend_chars(&mut out, chars_of(sep_line.as_str()).as_slice());
    out.push('\n');
    let ghost head = out@;
    proof {
        reveal_strlit("\n");
    }
    assert(head =~= table_line(hv, widths@) + "\n"@ + table_line(
        rule_widths(widths@).map_values(|x: usize| dashes(x as nat)),
        rule_widths(widths@),
    ) + "\n"@);
    for k in 0..rows.len()
        invariant
            rv == crate::header::rows_view(rows@),
            out@ == head + rows_lines(rv.take(k as int), widths@),
    {
        let line = format_row(rows[k].as_slice(), widths.as_slice());
        crate::text::extend_chars(&mut out, chars_of(line.as_str()).as_slice());
        out.push('\n');
        proof {
            reveal_strlit("\n");
        }
        assert(rv.take(k + 1).drop_last() =~= rv.take(k as int));
        assert(rv.take(k + 1).last() == strs_view(rows@[k as int]@));
        assert(out@ =~= head + rows_lines(rv.take(k + 1), widths@));
    }
    assert(rv.take(rv.len() as int) =~= rv);
    string_of(out.as_slice())
}

} // verus!
