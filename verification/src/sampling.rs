//! What schema inference records while it samples rows: placeholder tokens
//! and their counts, a short summary of each column's values, the sample
//! value shown for each column, and the statistics handed back with the
//! inferred schema.
use vstd::prelude::*;

use crate::header::{
    alias_lists, build_header_aliases, header_alias_list, looks_like_header, opt_views,
    option_row_looks_like_header, strs_view,
};
use crate::inference::{
    candidate_update, candidate_wf, empty_candidate, numeric_token_fits, placeholder_token,
    placeholder_token_original, TypeCandidate,
};
use crate::schema::{ColumnMeta, ColumnType, Schema};
use crate::text::{chars_eq, chars_lt, chars_of, seq_lt, string_of, trim, trim_chars, trim_str};

verus! {

// ---------------------------------------------------------------------------
// Placeholder counts
// ---------------------------------------------------------------------------

/// What to write in place of a placeholder token.
#[derive(Debug, Clone)]
pub enum PlaceholderPolicy {
    TreatAsEmpty,
    FillWith(String),
}

impl PlaceholderPolicy {
    /// The default policy: placeholders become empty values.
    pub fn default_policy() -> (r: Self)
        ensures
            r is TreatAsEmpty,
    {
        PlaceholderPolicy::TreatAsEmpty
    }
}

/// Token counts as character sequences.
pub open spec fn pair_views(v: Seq<(String, usize)>) -> Seq<(Seq<char>, usize)> {
    v.map_values(|p: (String, usize)| (p.0@, p.1))
}

/// Keys in strictly increasing order (so each key once).
pub open spec fn keys_increasing(v: Seq<(Seq<char>, usize)>) -> bool {
    forall|i: int, j: int| 0 <= i < j < v.len() ==> seq_lt(v[i].0, v[j].0)
}

/// The counts after one more occurrence of `t`: its count goes up by one,
/// or it is added, in key order, with count one.
pub open spec fn tally(v: Seq<(Seq<char>, usize)>, t: Seq<char>) -> Seq<(Seq<char>, usize)>
    decreases v.len(),
{
    if v.len() == 0 {
        seq![(t, 1usize)]
    } else if v[0].0 == t {
        seq![(t, (v[0].1 + 1) as usize)] + v.drop_first()
    } else if seq_lt(v[0].0, t) {
        seq![v[0]] + tally(v.drop_first(), t)
    } else {
        seq![(t, 1usize)] + v
    }
}

/// The count listed for `k` (0 when it is not listed).
pub open spec fn count_of(v: Seq<(Seq<char>, usize)>, k: Seq<char>) -> nat
    decreases v.len(),
{
    if v.len() == 0 {
        0
    } else {
        (if v[0].0 == k {
            v[0].1 as nat
        } else {
            0
        }) + count_of(v.drop_first(), k)
    }
}

/// Counting `t` raises the count of `t` by one and leaves every other
/// count as it was.
pub proof fn law_tally_raises_only_its_count(v: Seq<(Seq<char>, usize)>, t: Seq<char>, k: Seq<char>)
    requires
        forall|i: int| 0 <= i < v.len() ==> #[trigger] v[i].1 < usize::MAX,
    ensures
        count_of(tally(v, t), k) == count_of(v, k) + if k == t {
            1nat
        } else {
            0nat
        },
    decreases v.len(),
{
    let r = tally(v, t);
    assert(count_of(r, k) == (if r[0].0 == k {
        r[0].1 as nat
    } else {
        0
    }) + count_of(r.drop_first(), k));
    if v.len() == 0 {
        assert(r.drop_first() =~= Seq::<(Seq<char>, usize)>::empty());
        assert(count_of(r.drop_first(), k) == 0);
    } else if v[0].0 == t {
        assert(v[0].1 < usize::MAX);
        assert(r.drop_first() =~= v.drop_first());
    } else if seq_lt(v[0].0, t) {
        assert forall|i: int| 0 <= i < v.drop_first().len() implies #[trigger] v.drop_first()[i].1
            < usize::MAX by {
            assert(v.drop_first()[i] == v[i + 1]);
        }
        law_tally_raises_only_its_count(v.drop_first(), t, k);
        assert(r.drop_first() =~= tally(v.drop_first(), t));
    } else {
        assert(r.drop_first() =~= v);
        assert(r[0] == (t, 1usize));
    }
}

/// Every listed count is at least one, and stays so as values are counted.
pub proof fn law_tally_counts_positive(v: Seq<(Seq<char>, usize)>, t: Seq<char>)
    requires
        forall|i: int| 0 <= i < v.len() ==> 1 <= #[trigger] v[i].1 < usize::MAX,
    ensures
        forall|i: int| 0 <= i < tally(v, t).len() ==> #[trigger] tally(v, t)[i].1 >= 1,
    decreases v.len(),
{
    let r = tally(v, t);
    if v.len() == 0 {
    } else if v[0].0 == t {
        assert forall|i: int| 0 <= i < r.len() implies #[trigger] r[i].1 >= 1 by {
            if i > 0 {
                assert(r[i] == v[i]);
            }
        }
    } else if seq_lt(v[0].0, t) {
        assert forall|i: int| 0 <= i < v.drop_first().len() implies 1 <= #[trigger] v.drop_first()[i].1
            < usize::MAX by {
            assert(v.drop_first()[i] == v[i + 1]);
        }
        law_tally_counts_positive(v.drop_first(), t);
        let rest = tally(v.drop_first(), t);
        assert forall|i: int| 0 <= i < r.len() implies #[trigger] r[i].1 >= 1 by {
            if i > 0 {
                assert(r[i] == rest[i - 1]);
            }
        }
    } else {
        assert forall|i: int| 0 <= i < r.len() implies #[trigger] r[i].1 >= 1 by {
            if i > 0 {
                assert(r[i] == v[i - 1]);
            }
        }
    }
}

/// The counts a summary holds after recording `vals` in turn, from empty.
pub open spec fn recorded(vals: Seq<Seq<char>>) -> Seq<(Seq<char>, usize)>
    decreases vals.len(),
{
    if vals.len() == 0 {
        Seq::empty()
    } else {
        let before = recorded(vals.drop_last());
        let t = trim(vals.last());
        if t.len() == 0 {
            before
        } else {
            tally(before, t)
        }
    }
}

/// How many of `vals` trim to `k`.
pub open spec fn occurrences(vals: Seq<Seq<char>>, k: Seq<char>) -> nat
    decreases vals.len(),
{
    if vals.len() == 0 {
        0
    } else {
        occurrences(vals.drop_last(), k) + if trim(vals.last()) == k {
            1nat
        } else {
            0nat
        }
    }
}

proof fn lemma_occurrences_bound(vals: Seq<Seq<char>>, k: Seq<char>)
    ensures
        occurrences(vals, k) <= vals.len(),
    decreases vals.len(),
{
    if vals.len() > 0 {
        lemma_occurrences_bound(vals.drop_last(), k);
    }
}

/// Each key of `tally(v, t)` is `t` or a key of `v`, and key order is kept.
proof fn lemma_tally_keys(v: Seq<(Seq<char>, usize)>, t: Seq<char>)
    requires
        keys_increasing(v),
    ensures
        keys_increasing(tally(v, t)),
        forall|i: int|
            0 <= i < tally(v, t).len() ==> #[trigger] tally(v, t)[i].0 == t || exists|j: int|
                0 <= j < v.len() && v[j].0 == tally(v, t)[i].0,
    decreases v.len(),
{
    let r = tally(v, t);
    if v.len() == 0 {
    } else if v[0].0 == t {
        assert forall|i: int| 0 <= i < r.len() implies #[trigger] r[i].0 == v[i].0 by {}
    } else if seq_lt(v[0].0, t) {
        let rest = v.drop_first();
        assert(keys_increasing(rest)) by {
            assert forall|i: int, j: int| 0 <= i < j < rest.len() implies seq_lt(rest[i].0, rest[j].0) by {
                assert(rest[i] == v[i + 1] && rest[j] == v[j + 1]);
            }
        }
        lemma_tally_keys(rest, t);
        let tr = tally(rest, t);
        assert forall|i: int| 0 < i < r.len() implies #[trigger] r[i].0 == t || exists|j: int|
            0 <= j < v.len() && v[j].0 == r[i].0 by {
            assert(r[i] == tr[i - 1]);
            if r[i].0 != t {
                let m = choose|m: int| 0 <= m < rest.len() && rest[m].0 == tr[i - 1].0;
                assert(v[m + 1].0 == r[i].0);
            }
        }
        assert forall|i: int| 0 <= i < r.len() implies #[trigger] r[i].0 == t || exists|j: int|
            0 <= j < v.len() && v[j].0 == r[i].0 by {
            if i == 0 {
                assert(v[0].0 == r[0].0);
            }
        }
        assert forall|i: int, j: int| 0 <= i < j < r.len() implies seq_lt(r[i].0, r[j].0) by {
            assert(r[j] == tr[j - 1]);
            if i == 0 {
                if r[j].0 != t {
                    let m = choose|m: int| 0 <= m < rest.len() && rest[m].0 == tr[j - 1].0;
                    assert(v[m + 1].0 == r[j].0);
                }
            } else {
                assert(r[i] == tr[i - 1]);
            }
        }
    } else {
        crate::text::lemma_seq_lt_total(v[0].0, t);
        assert forall|i: int| 0 <= i < r.len() implies #[trigger] r[i].0 == t || exists|j: int|
            0 <= j < v.len() && v[j].0 == r[i].0 by {
            if i > 0 {
                assert(r[i] == v[i - 1]);
            }
        }
        assert forall|i: int, j: int| 0 <= i < j < r.len() implies seq_lt(r[i].0, r[j].0) by {
            assert(r[j] == v[j - 1]);
            if i == 0 {
                if j > 1 {
                    crate::text::lemma_seq_lt_transitive(t, v[0].0, v[j - 1].0);
                }
            } else {
                assert(r[i] == v[i - 1]);
            }
        }
    }
}

/// A key that is not listed has count zero.
proof fn lemma_count_of_absent(v: Seq<(Seq<char>, usize)>, k: Seq<char>)
    requires
        forall|i: int| 0 <= i < v.len() ==> #[trigger] v[i].0 != k,
    ensures
        count_of(v, k) == 0,
    decreases v.len(),
{
    if v.len() > 0 {
        assert forall|i: int| 0 <= i < v.drop_first().len() implies #[trigger] v.drop_first()[i].0 != k by {
            assert(v.drop_first()[i] == v[i + 1]);
        }
        lemma_count_of_absent(v.drop_first(), k);
    }
}

/// With keys in order, the count of a listed key is its entry's count.
proof fn lemma_count_of_listed(v: Seq<(Seq<char>, usize)>, i: int)
    requires
        keys_increasing(v),
        0 <= i < v.len(),
    ensures
        count_of(v, v[i].0) == v[i].1,
    decreases v.len(),
{
    let rest = v.drop_first();
    let k = v[i].0;
    if i == 0 {
        assert forall|j: int| 0 <= j < rest.len() implies #[trigger] rest[j].0 != k by {
            assert(rest[j] == v[j + 1]);
            crate::text::lemma_seq_lt_irreflexive(k);
        }
        lemma_count_of_absent(rest, k);
    } else {
        assert(keys_increasing(rest)) by {
            assert forall|a: int, b: int| 0 <= a < b < rest.len() implies seq_lt(rest[a].0, rest[b].0) by {
                assert(rest[a] == v[a + 1] && rest[b] == v[b + 1]);
            }
        }
        crate::text::lemma_seq_lt_irreflexive(k);
        assert(v[0].0 != k);
        assert(rest[i - 1] == v[i]);
        lemma_count_of_listed(rest, i - 1);
    }
}

/// A key with a positive count is listed.
proof fn lemma_count_of_positive(v: Seq<(Seq<char>, usize)>, k: Seq<char>)
    requires
        count_of(v, k) > 0,
    ensures
        exists|i: int| 0 <= i < v.len() && v[i].0 == k,
    decreases v.len(),
{
    if v[0].0 != k {
        lemma_count_of_positive(v.drop_first(), k);
        let i = choose|i: int| 0 <= i < v.drop_first().len() && v.drop_first()[i].0 == k;
        assert(v[i + 1].0 == k);
    }
}

/// Recording values in turn, from an empty summary, lists each distinct
/// non-blank trimmed value exactly once, in strictly ascending order, with
/// the number of values that trim to it, which is at least one; a value that
/// occurs is listed, and nothing else is.
pub proof fn law_recorded_summary(vals: Seq<Seq<char>>)
    requires
        vals.len() < usize::MAX,
    ensures
        keys_increasing(recorded(vals)),
        forall|i: int|
            0 <= i < recorded(vals).len() ==> (#[trigger] recorded(vals)[i]).0.len() > 0
                && recorded(vals)[i].1 >= 1 && recorded(vals)[i].1 == occurrences(vals, recorded(vals)[i].0),
        forall|k: Seq<char>| k.len() > 0 ==> count_of(recorded(vals), k) == #[trigger] occurrences(vals, k),
        forall|k: Seq<char>|
            k.len() > 0 && #[trigger] occurrences(vals, k) > 0 ==> exists|i: int|
                0 <= i < recorded(vals).len() && recorded(vals)[i].0 == k,
    decreases vals.len(),
{
    let r = recorded(vals);
    if vals.len() == 0 {
        assert forall|k: Seq<char>| k.len() > 0 implies count_of(r, k) == #[trigger] occurrences(vals, k) by {}
    } else {
        let p = vals.drop_last();
        let rp = recorded(p);
        let t = trim(vals.last());
        law_recorded_summary(p);
        if t.len() == 0 {
            assert forall|k: Seq<char>| k.len() > 0 implies #[trigger] occurrences(vals, k) == occurrences(p, k) by {}
            assert forall|i: int| 0 <= i < r.len() implies (#[trigger] r[i]).0.len() > 0 && r[i].1 >= 1
                && r[i].1 == occurrences(vals, r[i].0) by {
                assert(occurrences(vals, r[i].0) == occurrences(p, r[i].0));
            }
        } else {
            assert forall|i: int| 0 <= i < rp.len() implies 1 <= #[trigger] rp[i].1 < usize::MAX by {
                lemma_occurrences_bound(p, rp[i].0);
            }
            lemma_tally_keys(rp, t);
            law_tally_counts_positive(rp, t);
            assert forall|k: Seq<char>| k.len() > 0 implies count_of(r, k) == #[trigger] occurrences(vals, k) by {
                law_tally_raises_only_its_count(rp, t, k);
                assert(count_of(rp, k) == occurrences(p, k));
                assert(occurrences(vals, k) == occurrences(p, k) + if t == k {
                    1nat
                } else {
                    0nat
                });
            }
            assert forall|i: int| 0 <= i < r.len() implies (#[trigger] r[i]).0.len() > 0 && r[i].1 >= 1
                && r[i].1 == occurrences(vals, r[i].0) by {
                if r[i].0 != t {
                    let j = choose|j: int| 0 <= j < rp.len() && rp[j].0 == r[i].0;
                    assert(rp[j].0.len() > 0);
                }
                lemma_count_of_listed(r, i);
                law_tally_raises_only_its_count(rp, t, r[i].0);
            }
        }
        assert forall|k: Seq<char>| k.len() > 0 && #[trigger] occurrences(vals, k) > 0 implies exists|i: int|
            0 <= i < r.len() && r[i].0 == k by {
            lemma_count_of_positive(r, k);
        }
    }
}

/// Recording one more value takes the summary of the values before it to
/// what `PlaceholderSummary::record` leaves: the same counts for a blank
/// value, else the trimmed value counted once more.
pub proof fn law_record_extends_recorded(vals: Seq<Seq<char>>, v: Seq<char>)
    ensures
        recorded(vals.push(v)) == if trim(v).len() == 0 {
            recorded(vals)
        } else {
            tally(recorded(vals), trim(v))
        },
{
    assert(vals.push(v).drop_last() =~= vals);
}

/// Counts of the placeholder tokens met in a column, in token order.
#[derive(Debug, Clone)]
pub struct PlaceholderSummary {
    counts: Vec<(String, usize)>,
}

impl View for PlaceholderSummary {
    type V = Seq<(Seq<char>, usize)>;

    closed spec fn view(&self) -> Seq<(Seq<char>, usize)> {
        pair_views(self.counts@)
    }
}

proof fn lemma_tally_found(v: Seq<(Seq<char>, usize)>, t: Seq<char>, p: int)
    requires
        keys_increasing(v),
        0 <= p < v.len(),
        v[p].0 == t,
        forall|i: int| 0 <= i < p ==> seq_lt(v[i].0, t),
    ensures
        tally(v, t) == v.update(p, (t, (v[p].1 + 1) as usize)),
    decreases p,
{
    if p == 0 {
        assert(tally(v, t) =~= v.update(p, (t, (v[p].1 + 1) as usize)));
    } else {
        crate::text::lemma_seq_lt_irreflexive(t);
        lemma_tally_found(v.drop_first(), t, p - 1);
        assert(tally(v, t) =~= v.update(p, (t, (v[p].1 + 1) as usize)));
    }
}

proof fn lemma_tally_insert(v: Seq<(Seq<char>, usize)>, t: Seq<char>, p: int)
    requires
        keys_increasing(v),
        0 <= p <= v.len(),
        forall|i: int| 0 <= i < p ==> seq_lt(v[i].0, t),
        p < v.len() ==> seq_lt(t, v[p].0),
    ensures
        tally(v, t) == v.insert(p, (t, 1usize)),
    decreases p,
{
    if p == 0 {
        if v.len() > 0 {
            crate::text::lemma_seq_lt_irreflexive(t);
            crate::text::lemma_seq_lt_asymmetric(t, v[0].0);
        }
        assert(tally(v, t) =~= v.insert(p, (t, 1usize)));
    } else {
        crate::text::lemma_seq_lt_irreflexive(t);
        crate::text::lemma_seq_lt_asymmetric(v[0].0, t);
        lemma_tally_insert(v.drop_first(), t, p - 1);
        assert(tally(v, t) =~= v.insert(p, (t, 1usize)));
    }
}

/// Counts one occurrence of `t` in counts kept in key order: its count
/// goes up by one, or it is inserted with count one.
pub fn count_occurrence(counts: &mut Vec<(String, usize)>, t: &[char])
    requires
        keys_increasing(pair_views(old(counts)@)),
        forall|i: int| 0 <= i < old(counts)@.len() ==> #[trigger] old(counts)@[i].1 < usize::MAX,
    ensures
        keys_increasing(pair_views(final(counts)@)),
        pair_views(final(counts)@) == tally(pair_views(old(counts)@), t@),
{
    let ghost v = pair_views(counts@);
    let mut p: usize = 0;
    while p < counts.len() && chars_lt(chars_of(counts[p].0.as_str()).as_slice(), t)
        invariant
            v == pair_views(counts@),
            p <= v.len(),
            forall|i: int| 0 <= i < p ==> seq_lt(v[i].0, t@),
        decreases counts.len() - p,
    {
        p += 1;
    }
    if p < counts.len() && chars_eq(chars_of(counts[p].0.as_str()).as_slice(), t) {
        let k = counts[p].0.clone();
        let c = counts[p].1;
        proof {
            lemma_tally_found(v, t@, p as int);
        }
        counts.set(p, (k, c + 1));
        assert(pair_views(counts@) =~= v.update(p as int, (t@, (v[p as int].1 + 1) as usize)));
    } else {
        proof {
            if p < v.len() {
                crate::text::lemma_seq_lt_total(v[p as int].0, t@);
            }
            lemma_tally_insert(v, t@, p as int);
        }
        counts.insert(p, (string_of(t), 1));
        assert(pair_views(counts@) =~= v.insert(p as int, (t@, 1usize)));
    }
    proof {
        let w = pair_views(counts@);
        if w.len() == v.len() {
            assert forall|i: int, j: int| 0 <= i < j < w.len() implies seq_lt(w[i].0, w[j].0) by {
                assert(w[i].0 == v[i].0);
                assert(w[j].0 == v[j].0);
            }
        } else {
            assert forall|i: int, j: int| 0 <= i < j < w.len() implies seq_lt(w[i].0, w[j].0) by {
                if j < p {
                    assert(w[i] == v[i] && w[j] == v[j]);
                } else if j == p {
                    assert(w[j].0 == t@);
                    assert(w[i] == v[i]);
                } else if i < p {
                    assert(w[i] == v[i] && w[j] == v[j - 1]);
                } else if i == p {
                    assert(w[i].0 == t@ && w[j] == v[j - 1]);
                    if j > p + 1 {
                        crate::text::lemma_seq_lt_transitive(t@, v[p as int].0, w[j].0);
                    }
                } else {
                    assert(w[i] == v[i - 1] && w[j] == v[j - 1]);
                }
            }
        }
    }
}

impl PlaceholderSummary {
    pub fn new() -> (r: Self)
        ensures
            r@ == Seq::<(Seq<char>, usize)>::empty(),
    {
        let r = PlaceholderSummary { counts: Vec::new() };
        assert(r@ =~= Seq::<(Seq<char>, usize)>::empty());
        r
    }

    pub fn is_empty(&self) -> (r: bool)
        ensures
            r == (self@.len() == 0),
    {
        self.counts.len() == 0
    }

    /// Counts one occurrence of the trimmed value (an empty one is not
    /// counted).
    pub fn record(&mut self, value: &str)
        requires
            keys_increasing(old(self)@),
            forall|i: int| 0 <= i < old(self)@.len() ==> #[trigger] old(self)@[i].1 < usize::MAX,
        ensures
            keys_increasing(final(self)@),
            final(self)@ == if trim(value@).len() == 0 {
                old(self)@
            } else {
                tally(old(self)@, trim(value@))
            },
    {
        let t = trim_str(value);
        if t.len() == 0 {
            return;
        }
        assert forall|i: int| 0 <= i < self.counts@.len() implies #[trigger] self.counts@[i].1 < usize::MAX by {
            assert(self@[i].1 == self.counts@[i].1);
        }
        count_occurrence(&mut self.counts, t.as_slice());
    }

    /// The tokens and their counts, in token order.
    pub fn entries(&self) -> (r: Vec<(String, usize)>)
        ensures
            pair_views(r@) == self@,
    {
        let mut r: Vec<(String, usize)> = Vec::new();
        for i in 0..self.counts.len()
            invariant
                pair_views(r@) == pair_views(self.counts@.take(i as int)),
        {
            r.push((self.counts[i].0.clone(), self.counts[i].1));
            assert(pair_views(self.counts@.take(i + 1)) =~= pair_views(self.counts@.take(i as int)).push(
                (self.counts@[i as int].0@, self.counts@[i as int].1),
            ));
            assert(pair_views(r@) =~= pair_views(r@.drop_last()).push((r@.last().0@, r@.last().1)));
        }
        assert(self.counts@.take(self.counts@.len() as int) =~= self.counts@);
        r
    }

    /// A copy with the same counts.
    pub fn duplicate(&self) -> (r: Self)
        ensures
            r@ == self@,
    {
        PlaceholderSummary { counts: self.entries() }
    }
}

// ---------------------------------------------------------------------------
// Value summaries
// ---------------------------------------------------------------------------

/// Distinct values listed per column; further values are only counted.
pub const SUMMARY_LISTED_LIMIT: usize = 5;

/// The values seen in a column: how many, the first few distinct ones with
/// their counts, and how many others.
#[derive(Debug, Clone)]
pub struct ColumnSummary {
    pub non_empty: usize,
    pub listed_values: Vec<(String, usize)>,
    pub other_values: usize,
}

/// A summary as plain values: count, listed values, other values.
pub type SummaryView = (usize, Seq<(Seq<char>, usize)>, usize);

/// The position of `v` among the listed values.
pub open spec fn find_listed(t: Seq<(Seq<char>, usize)>, v: Seq<char>) -> Option<int>
    decreases t.len(),
{
    if t.len() == 0 {
        None
    } else if t[0].0 == v {
        Some(0)
    } else {
        match find_listed(t.drop_first(), v) {
            Some(k) => Some(k + 1),
            None => None,
        }
    }
}

/// The summary after one more value.
pub open spec fn summary_record(s: SummaryView, v: Seq<char>) -> SummaryView {
    let ne = (s.0 + 1) as usize;
    match find_listed(s.1, v) {
        Some(j) => (ne, s.1.update(j, (v, (s.1[j].1 + 1) as usize)), s.2),
        None => if s.1.len() < SUMMARY_LISTED_LIMIT {
            (ne, s.1.push((v, 1usize)), s.2)
        } else {
            (ne, s.1, (s.2 + 1) as usize)
        },
    }
}

pub open spec fn summary_view(s: ColumnSummary) -> SummaryView {
    (s.non_empty, pair_views(s.listed_values@), s.other_values)
}

/// No count exceeds `bound`.
pub open spec fn summary_bounded(s: SummaryView, bound: int) -> bool {
    &&& s.0 <= bound
    &&& s.2 <= bound
    &&& forall|i: int| 0 <= i < s.1.len() ==> #[trigger] s.1[i].1 <= bound
}

proof fn lemma_find_listed(t: Seq<(Seq<char>, usize)>, v: Seq<char>, i: int)
    requires
        0 <= i <= t.len(),
        forall|k: int| 0 <= k < i ==> t[k].0 != v,
    ensures
        find_listed(t, v) == (match find_listed(t.skip(i), v) {
            Some(k) => Some(k + i),
            None => None,
        }),
    decreases i,
{
    if i == 0 {
        assert(t.skip(0) =~= t);
    } else {
        lemma_find_listed(t.drop_first(), v, i - 1);
        assert(t.drop_first().skip(i - 1) =~= t.skip(i));
    }
}

proof fn lemma_find_listed_range(t: Seq<(Seq<char>, usize)>, v: Seq<char>)
    ensures
        find_listed(t, v) matches Some(j) ==> 0 <= j < t.len() && t[j].0 == v,
    decreases t.len(),
{
    if t.len() > 0 {
        lemma_find_listed_range(t.drop_first(), v);
    }
}

proof fn lemma_summary_record_bounded(s: SummaryView, v: Seq<char>, b: int)
    requires
        summary_bounded(s, b),
    ensures
        summary_bounded(summary_record(s, v), b + 1),
{
    lemma_find_listed_range(s.1, v);
    let r = summary_record(s, v);
    match find_listed(s.1, v) {
        Some(j) => {
            assert forall|i: int| 0 <= i < r.1.len() implies #[trigger] r.1[i].1 <= b + 1 by {
                if i != j {
                    assert(r.1[i] == s.1[i]);
                }
            }
        },
        None => {
            assert forall|i: int| 0 <= i < r.1.len() implies #[trigger] r.1[i].1 <= b + 1 by {
                if i < s.1.len() {
                    assert(r.1[i] == s.1[i]);
                }
            }
        },
    }
}

impl ColumnSummary {
    pub fn empty() -> (r: Self)
        ensures
            summary_view(r) == (0usize, Seq::<(Seq<char>, usize)>::empty(), 0usize),
    {
        let r = ColumnSummary { non_empty: 0, listed_values: Vec::new(), other_values: 0 };
        assert(pair_views(r.listed_values@) =~= Seq::<(Seq<char>, usize)>::empty());
        r
    }

    /// The summary with one more value counted.
    pub fn recorded(&self, value: &str) -> (r: Self)
        requires
            self.non_empty < usize::MAX,
            self.other_values < usize::MAX,
            forall|i: int|
                0 <= i < self.listed_values@.len() ==> #[trigger] self.listed_values@[i].1
                    < usize::MAX,
        ensures
            summary_view(r) == summary_record(summary_view(*self), value@),
    {
        let ghost t = pair_views(self.listed_values@);
        let mut listed: Vec<(String, usize)> = Vec::new();
        let mut found: Option<usize> = None;
        for i in 0..self.listed_values.len()
            invariant
                t == pair_views(self.listed_values@),
                forall|k: int|
                    0 <= k < self.listed_values@.len() ==> #[trigger] self.listed_values@[k].1
                        < usize::MAX,
                listed@.len() == i,
                found matches Some(j) ==> j < i && t[j as int].0 == value@ && forall|k: int|
                    0 <= k < j ==> t[k].0 != value@,
                found is None ==> forall|k: int| 0 <= k < i ==> t[k].0 != value@,
                forall|k: int|
                    0 <= k < i ==> (#[trigger] listed@[k]).0@ == t[k].0 && listed@[k].1 == if found
                        == Some(k as usize) {
                        (t[k].1 + 1) as usize
                    } else {
                        t[k].1
                    },
        {
            let name = self.listed_values[i].0.clone();
            let count = self.listed_values[i].1;
            assert(t[i as int].1 == count);
            if found.is_none() && crate::text::str_eq(name.as_str(), value) {
                found = Some(i);
                listed.push((name, count + 1));
            } else {
                listed.push((name, count));
            }
        }
        match found {
            Some(j) => {
                proof {
                    lemma_find_listed(t, value@, j as int);
                }
                assert(pair_views(listed@) =~= t.update(j as int, (value@, (t[j as int].1 + 1) as usize)));
                ColumnSummary {
                    non_empty: self.non_empty + 1,
                    listed_values: listed,
                    other_values: self.other_values,
                }
            },
            None => {
                proof {
                    lemma_find_listed(t, value@, t.len() as int);
                }
                assert(pair_views(listed@) =~= t);
                if listed.len() < SUMMARY_LISTED_LIMIT {
                    listed.push((value.to_string(), 1));
                    assert(pair_views(listed@) =~= t.push((value@, 1usize)));
                    ColumnSummary {
                        non_empty: self.non_empty + 1,
                        listed_values: listed,
                        other_values: self.other_values,
                    }
                } else {
                    ColumnSummary {
                        non_empty: self.non_empty + 1,
                        listed_values: listed,
                        other_values: self.other_values + 1,
                    }
                }
            },
        }
    }
}

// ---------------------------------------------------------------------------
// Inference statistics
// ---------------------------------------------------------------------------

/// What sampling learned besides the column types.
#[derive(Debug, Clone)]
pub struct InferenceStats {
    sample_values: Vec<Option<String>>,
    rows_read: usize,
    requested_rows: usize,
    decode_errors: usize,
    summaries: Vec<ColumnSummary>,
    placeholder_summaries: Vec<PlaceholderSummary>,
}

impl InferenceStats {
    pub closed spec fn samples_view(&self) -> Seq<Option<Seq<char>>> {
        opt_views(self.sample_values@)
    }

    pub closed spec fn summaries_view(&self) -> Seq<SummaryView> {
        self.summaries@.map_values(|c: ColumnSummary| summary_view(c))
    }

    pub closed spec fn placeholders_view(&self) -> Seq<Seq<(Seq<char>, usize)>> {
        self.placeholder_summaries@.map_values(|p: PlaceholderSummary| p@)
    }

    pub closed spec fn rows_read_view(&self) -> usize {
        self.rows_read
    }

    pub closed spec fn requested_rows_view(&self) -> usize {
        self.requested_rows
    }

    pub closed spec fn decode_errors_view(&self) -> usize {
        self.decode_errors
    }

    /// The first value sampled from column `index`.
    pub fn sample_value(&self, index: usize) -> (r: Option<&str>)
        ensures
            index < self.samples_view().len() && self.samples_view()[index as int] is Some ==> (r
                matches Some(v) && v@ == self.samples_view()[index as int].unwrap()),
            !(index < self.samples_view().len() && self.samples_view()[index as int] is Some)
                ==> r is None,
    {
        if index < self.sample_values.len() {
            match &self.sample_values[index] {
                Some(v) => Some(v.as_str()),
                None => None,
            }
        } else {
            None
        }
    }

    pub fn summary(&self, index: usize) -> (r: Option<&ColumnSummary>)
        ensures
            index < self.summaries_view().len() ==> (r matches Some(c) && summary_view(*c)
                == self.summaries_view()[index as int]),
            index >= self.summaries_view().len() ==> r is None,
    {
        if index < self.summaries.len() {
            Some(&self.summaries[index])
        } else {
            None
        }
    }

    pub fn rows_read(&self) -> (r: usize)
        ensures
            r == self.rows_read_view(),
    {
        self.rows_read
    }

    pub fn requested_rows(&self) -> (r: usize)
        ensures
            r == self.requested_rows_view(),
    {
        self.requested_rows
    }

    pub fn decode_errors(&self) -> (r: usize)
        ensures
            r == self.decode_errors_view(),
    {
        self.decode_errors
    }

    pub fn placeholder_summary(&self, index: usize) -> (r: Option<&PlaceholderSummary>)
        ensures
            index < self.placeholders_view().len() ==> (r matches Some(p) && p@
                == self.placeholders_view()[index as int]),
            index >= self.placeholders_view().len() ==> r is None,
    {
        if index < self.placeholder_summaries.len() {
            Some(&self.placeholder_summaries[index])
        } else {
            None
        }
    }
}

// ---------------------------------------------------------------------------
// Sampling rows
// ---------------------------------------------------------------------------

/// A field of a sampled record, as read from the file.
#[derive(Debug, Clone)]
pub enum RawField {
    /// No bytes.
    Empty,
    /// The decoded text.
    Text(String),
    /// Bytes that the file's encoding could not decode.
    DecodeError,
}

/// A field's value: its trimmed text, if there is any.
pub open spec fn raw_cell(f: RawField) -> Option<Seq<char>> {
    match f {
        RawField::Text(s) => if trim(s@).len() == 0 {
            None
        } else {
            Some(trim(s@))
        },
        _ => None,
    }
}

/// The first `n` fields' values, missing ones as `None`.
pub open spec fn decoded_cells(fields: Seq<RawField>, n: nat) -> Seq<Option<Seq<char>>> {
    Seq::new(
        n,
        |i: int|
            if i < fields.len() {
                raw_cell(fields[i])
            } else {
                None
            },
    )
}

/// Undecodable fields among the first `n`.
pub open spec fn decode_failures(fields: Seq<RawField>, n: nat) -> nat {
    crate::header::count_true(
        Seq::new(
            crate::header::min_len(fields.len() as int, n as int) as nat,
            |i: int| fields[i] is DecodeError,
        ),
    )
}

/// A value counted towards the column's type (present, not a placeholder).
pub open spec fn counted_value(cell: Option<Seq<char>>) -> bool {
    cell matches Some(v) && placeholder_token(v) is None
}

pub open spec fn cell_candidate(c: TypeCandidate, cell: Option<Seq<char>>) -> TypeCandidate {
    if counted_value(cell) {
        candidate_update(c, cell.unwrap())
    } else {
        c
    }
}

pub open spec fn cell_summary(s: SummaryView, cell: Option<Seq<char>>) -> SummaryView {
    if counted_value(cell) {
        summary_record(s, cell.unwrap())
    } else {
        s
    }
}

pub open spec fn cell_sample(s: Option<Seq<char>>, cell: Option<Seq<char>>) -> Option<Seq<char>> {
    if counted_value(cell) && s is None {
        cell
    } else {
        s
    }
}

pub open spec fn cell_placeholders(p: Seq<(Seq<char>, usize)>, cell: Option<Seq<char>>) -> Seq<
    (Seq<char>, usize),
> {
    match cell {
        Some(v) => match placeholder_token(v) {
            Some(t) => tally(p, t),
            None => p,
        },
        None => p,
    }
}

/// The running state of schema inference over a file's rows.
pub struct InferenceAccumulator {
    headers: Vec<String>,
    candidates: Vec<TypeCandidate>,
    samples: Vec<Option<String>>,
    summaries: Vec<ColumnSummary>,
    placeholders: Vec<PlaceholderSummary>,
    header_aliases: Vec<Vec<String>>,
    processed: usize,
    decode_errors: usize,
    sample_rows: usize,
}

impl InferenceAccumulator {
    pub closed spec fn headers_view(&self) -> Seq<Seq<char>> {
        strs_view(self.headers@)
    }

    pub closed spec fn candidates_view(&self) -> Seq<TypeCandidate> {
        self.candidates@
    }

    pub closed spec fn samples_view(&self) -> Seq<Option<Seq<char>>> {
        opt_views(self.samples@)
    }

    pub closed spec fn summaries_view(&self) -> Seq<SummaryView> {
        self.summaries@.map_values(|c: ColumnSummary| summary_view(c))
    }

    pub closed spec fn placeholders_view(&self) -> Seq<Seq<(Seq<char>, usize)>> {
        self.placeholders@.map_values(|p: PlaceholderSummary| p@)
    }

    pub closed spec fn processed_view(&self) -> usize {
        self.processed
    }

    pub closed spec fn decode_errors_view(&self) -> usize {
        self.decode_errors
    }

    pub closed spec fn sample_rows_view(&self) -> usize {
        self.sample_rows
    }

    pub closed spec fn aliases_view(&self) -> Seq<Seq<Seq<char>>> {
        alias_lists(self.header_aliases@)
    }

    /// Every per-column list has one entry per header, the aliases are those
    /// of the headers, and no count exceeds the rows processed.
    pub closed spec fn wf(&self) -> bool {
        let n = self.headers@.len();
        &&& self.candidates@.len() == n
        &&& self.samples@.len() == n
        &&& self.summaries@.len() == n
        &&& self.placeholders@.len() == n
        &&& self.header_aliases@.len() == n
        &&& forall|i: int|
            0 <= i < n ==> strs_view(#[trigger] self.header_aliases@[i]@) == header_alias_list(
                self.headers@[i]@,
            )
        &&& forall|i: int|
            0 <= i < n ==> candidate_wf(#[trigger] self.candidates@[i])
                && self.candidates@[i].non_empty <= self.processed
        &&& forall|i: int|
            0 <= i < n ==> summary_bounded(
                summary_view(#[trigger] self.summaries@[i]),
                self.processed as int,
            )
        &&& forall|i: int|
            0 <= i < n ==> keys_increasing(#[trigger] self.placeholders@[i]@) && forall|k: int|
                0 <= k < self.placeholders@[i]@.len() ==> self.placeholders@[i]@[k].1
                    <= self.processed
    }

    /// A fresh state for a file with these headers; `sample_rows` limits
    /// the rows counted (0 for no limit).
    pub fn new(headers: &[String], sample_rows: usize) -> (r: Self)
        ensures
            r.wf(),
            r.headers_view() == strs_view(headers@),
            r.candidates_view() == Seq::new(headers@.len(), |i: int| empty_candidate()),
            r.samples_view() == Seq::new(headers@.len(), |i: int| None::<Seq<char>>),
            r.summaries_view() == Seq::new(
                headers@.len(),
                |i: int| (0usize, Seq::<(Seq<char>, usize)>::empty(), 0usize),
            ),
            r.placeholders_view() == Seq::new(
                headers@.len(),
                |i: int| Seq::<(Seq<char>, usize)>::empty(),
            ),
            r.aliases_view() == strs_view(headers@).map_values(
                |h: Seq<char>| header_alias_list(h),
            ),
            r.processed_view() == 0,
            r.decode_errors_view() == 0,
            r.sample_rows_view() == sample_rows,
    {
        let mut hs: Vec<String> = Vec::new();
        let mut candidates: Vec<TypeCandidate> = Vec::new();
        let mut samples: Vec<Option<String>> = Vec::new();
        let mut summaries: Vec<ColumnSummary> = Vec::new();
        let mut placeholders: Vec<PlaceholderSummary> = Vec::new();
        let mut aliases: Vec<Vec<String>> = Vec::new();
        for i in 0..headers.len()
            invariant
                hs@.len() == i,
                candidates@.len() == i,
                samples@.len() == i,
                summaries@.len() == i,
                placeholders@.len() == i,
                aliases@.len() == i,
                forall|j: int| 0 <= j < i ==> #[trigger] hs@[j]@ == headers@[j]@,
                forall|j: int| 0 <= j < i ==> #[trigger] candidates@[j] == empty_candidate(),
                forall|j: int| 0 <= j < i ==> #[trigger] samples@[j] is None,
                forall|j: int|
                    0 <= j < i ==> summary_view(#[trigger] summaries@[j]) == (
                        0usize,
                        Seq::<(Seq<char>, usize)>::empty(),
                        0usize,
                    ),
                forall|j: int|
                    0 <= j < i ==> (#[trigger] placeholders@[j])@ == Seq::<
                        (Seq<char>, usize),
                    >::empty(),
                forall|j: int|
                    0 <= j < i ==> strs_view(#[trigger] aliases@[j]@) == header_alias_list(
                        headers@[j]@,
                    ),
        {
            hs.push(headers[i].clone());
            candidates.push(TypeCandidate::new());
            samples.push(None);
            summaries.push(ColumnSummary::empty());
            placeholders.push(PlaceholderSummary::new());
            aliases.push(build_header_aliases(headers[i].as_str()));
        }
        let r = InferenceAccumulator {
            headers: hs,
            candidates,
            samples,
            summaries,
            placeholders,
            header_aliases: aliases,
            processed: 0,
            decode_errors: 0,
            sample_rows,
        };
        assert(strs_view(r.headers@) =~= strs_view(headers@));
        assert(r.candidates_view() =~= Seq::new(headers@.len(), |i: int| empty_candidate()));
        assert(r.samples_view() =~= Seq::new(headers@.len(), |i: int| None::<Seq<char>>));
        assert(r.summaries_view() =~= Seq::new(
            headers@.len(),
            |i: int| (0usize, Seq::<(Seq<char>, usize)>::empty(), 0usize),
        ));
        assert(r.placeholders_view() =~= Seq::new(
            headers@.len(),
            |i: int| Seq::<(Seq<char>, usize)>::empty(),
        ));
        assert(r.aliases_view() =~= strs_view(headers@).map_values(
            |h: Seq<char>| header_alias_list(h),
        ));
        r
    }

    /// Rows counted so far.
    pub fn rows_processed(&self) -> (r: usize)
        ensures
            r == self.processed_view(),
    {
        self.processed
    }

    /// Undecodable fields met so far.
    pub fn decode_error_count(&self) -> (r: usize)
        ensures
            r == self.decode_errors_view(),
    {
        self.decode_errors
    }

    /// Whether another row is to be read: always when there is no limit,
    /// else until `sample_rows` rows were counted.
    pub fn wants_row(&self) -> (r: bool)
        ensures
            r == !(self.sample_rows_view() > 0 && self.processed_view() >= self.sample_rows_view()),
    {
        !(self.sample_rows > 0 && self.processed >= self.sample_rows)
    }
}

/// Column `j`'s counters are consistent and bounded by `b`.
pub open spec fn column_bounded(
    c: TypeCandidate,
    sm: SummaryView,
    ph: Seq<(Seq<char>, usize)>,
    b: int,
) -> bool {
    &&& candidate_wf(c)
    &&& c.non_empty <= b
    &&& summary_bounded(sm, b)
    &&& keys_increasing(ph)
    &&& forall|k: int| 0 <= k < ph.len() ==> ph[k].1 <= b
}

proof fn lemma_tally_bounded(v: Seq<(Seq<char>, usize)>, t: Seq<char>, b: int)
    requires
        forall|k: int| 0 <= k < v.len() ==> v[k].1 <= b,
        b >= 0,
        forall|k: int| 0 <= k < v.len() ==> v[k].1 < usize::MAX,
    ensures
        forall|k: int| 0 <= k < tally(v, t).len() ==> tally(v, t)[k].1 <= b + 1,
    decreases v.len(),
{
    if v.len() > 0 && v[0].0 != t && seq_lt(v[0].0, t) {
        lemma_tally_bounded(v.drop_first(), t, b);
        let r = tally(v, t);
        assert forall|k: int| 0 <= k < r.len() implies r[k].1 <= b + 1 by {
            if k > 0 {
                assert(r[k] == tally(v.drop_first(), t)[k - 1]);
            }
        }
    } else if v.len() > 0 && v[0].0 == t {
        let r = tally(v, t);
        assert forall|k: int| 0 <= k < r.len() implies r[k].1 <= b + 1 by {
            if k > 0 {
                assert(r[k] == v[k]);
            }
        }
    } else if v.len() > 0 {
        let r = tally(v, t);
        assert forall|k: int| 0 <= k < r.len() implies r[k].1 <= b + 1 by {
            if k > 0 {
                assert(r[k] == v[k - 1]);
            }
        }
    }
}

impl InferenceAccumulator {
    fn observe_cell(&mut self, idx: usize, cell: &Option<String>)
        requires
            idx < old(self).candidates@.len(),
            old(self).summaries@.len() == old(self).candidates@.len(),
            old(self).placeholders@.len() == old(self).candidates@.len(),
            old(self).samples@.len() == old(self).candidates@.len(),
            old(self).processed < usize::MAX,
            column_bounded(
                old(self).candidates@[idx as int],
                summary_view(old(self).summaries@[idx as int]),
                old(self).placeholders@[idx as int]@,
                old(self).processed as int,
            ),
            cell matches Some(v) ==> numeric_token_fits(v@),
        ensures
            final(self).headers == old(self).headers,
            final(self).header_aliases == old(self).header_aliases,
            final(self).processed == old(self).processed,
            final(self).decode_errors == old(self).decode_errors,
            final(self).sample_rows == old(self).sample_rows,
            final(self).candidates@.len() == old(self).candidates@.len(),
            final(self).summaries@.len() == old(self).summaries@.len(),
            final(self).placeholders@.len() == old(self).placeholders@.len(),
            final(self).samples@.len() == old(self).samples@.len(),
            forall|j: int|
                0 <= j < old(self).candidates@.len() && j != idx ==> final(self).candidates@[j]
                    == old(self).candidates@[j] && final(self).summaries@[j] == old(
                    self,
                ).summaries@[j] && final(self).placeholders@[j] == old(self).placeholders@[j]
                    && final(self).samples@[j] == old(self).samples@[j],
            final(self).candidates@[idx as int] == cell_candidate(
                old(self).candidates@[idx as int],
                opt_views(seq![*cell])[0],
            ),
            summary_view(final(self).summaries@[idx as int]) == cell_summary(
                summary_view(old(self).summaries@[idx as int]),
                opt_views(seq![*cell])[0],
            ),
            final(self).placeholders@[idx as int]@ == cell_placeholders(
                old(self).placeholders@[idx as int]@,
                opt_views(seq![*cell])[0],
            ),
            opt_views(final(self).samples@)[idx as int] == cell_sample(
                opt_views(old(self).samples@)[idx as int],
                opt_views(seq![*cell])[0],
            ),
            column_bounded(
                final(self).candidates@[idx as int],
                summary_view(final(self).summaries@[idx as int]),
                final(self).placeholders@[idx as int]@,
                old(self).processed + 1,
            ),
    {
        let ghost cv = opt_views(seq![*cell])[0];
        match cell {
            None => {
                assert(cv is None);
            },
            Some(value) => {
                assert(cv == Some(value@));
                proof {
                    crate::text::lemma_trim_idempotent(value@);
                }
                match placeholder_token_original(value.as_str()) {
                    Some(token) => {
                        let mut p = self.placeholders[idx].duplicate();
                        proof {
                            lemma_tally_bounded(p@, token@, self.processed as int);
                        }
                        p.record(token.as_str());
                        self.placeholders.set(idx, p);
                    },
                    None => {
                        let mut c = self.candidates[idx];
                        c.update(value.as_str());
                        self.candidates.set(idx, c);
                        proof {
                            let ls = self.summaries@[idx as int].listed_values@;
                            assert forall|i: int| 0 <= i < ls.len() implies #[trigger] ls[i].1
                                < usize::MAX by {
                                assert(pair_views(ls)[i].1 == ls[i].1);
                                assert(summary_view(self.summaries@[idx as int]).1[i].1
                                    <= self.processed);
                            }
                            lemma_summary_record_bounded(
                                summary_view(self.summaries@[idx as int]),
                                value@,
                                self.processed as int,
                            );
                        }
                        let sm = self.summaries[idx].recorded(value.as_str());
                        self.summaries.set(idx, sm);
                        if self.samples[idx].is_none() {
                            self.samples.set(idx, Some(value.clone()));
                        }
                    },
                }
            },
        }
    }
}

/// `v` is the trimmed text of the field.
pub open spec fn trimmed_text_of(f: RawField, v: Seq<char>) -> bool {
    match f {
        RawField::Text(s) => v == trim(s@),
        _ => false,
    }
}

/// The row's fields as cells: the first `n`, trimmed, missing ones `None`.
fn decode_row(fields: &[RawField], n: usize) -> (r: (Vec<Option<String>>, usize))
    ensures
        opt_views(r.0@) == decoded_cells(fields@, n as nat),
        r.1 == decode_failures(fields@, n as nat),
        r.1 <= fields@.len(),
        forall|i: int|
            0 <= i < r.0@.len() ==> (#[trigger] r.0@[i] matches Some(v) ==> exists|k: int|
                0 <= k < fields@.len() && trimmed_text_of(fields@[k], v@)),
{
    let mut cells: Vec<Option<String>> = Vec::new();
    let mut errs: usize = 0;
    let m: usize = if fields.len() <= n {
        fields.len()
    } else {
        n
    };
    let ghost flags = Seq::new(m as nat, |i: int| fields@[i] is DecodeError);
    for i in 0..n
        invariant
            m == crate::header::min_len(fields@.len() as int, n as int),
            flags == Seq::new(m as nat, |i: int| fields@[i] is DecodeError),
            cells@.len() == i,
            forall|j: int|
                0 <= j < i ==> #[trigger] opt_views(cells@)[j] == decoded_cells(fields@, n as nat)[j],
            errs == crate::header::count_true(flags.take(if i <= m {
                i as int
            } else {
                m as int
            })),
            errs <= i,
            errs <= m,
            forall|j: int|
                0 <= j < i ==> (#[trigger] cells@[j] matches Some(v) ==> exists|k: int|
                    0 <= k < fields@.len() && trimmed_text_of(fields@[k], v@)),
    {
        let ghost before = cells@;
        if i < fields.len() {
            assert(flags.take(i + 1).drop_last() =~= flags.take(i as int));
            match &fields[i] {
                RawField::Empty => {
                    cells.push(None);
                },
                RawField::DecodeError => {
                    errs = errs + 1;
                    cells.push(None);
                },
                RawField::Text(s) => {
                    let t = trim_str(s.as_str());
                    if t.len() == 0 {
                        cells.push(None);
                    } else {
                        cells.push(Some(string_of(t.as_slice())));
                    }
                },
            }
        } else {
            cells.push(None);
        }
        assert(opt_views(cells@)[i as int] == decoded_cells(fields@, n as nat)[i as int]);
        assert forall|j: int| 0 <= j < i implies #[trigger] opt_views(cells@)[j] == opt_views(
            before,
        )[j] by {
            assert(cells@[j] == before[j]);
        }
    }
    assert(flags.take(m as int) =~= flags);
    assert(opt_views(cells@) =~= decoded_cells(fields@, n as nat));
    (cells, errs)
}

impl InferenceAccumulator {
    /// Counts one sampled row (its first `headers.len()` fields). A row that
    /// repeats the header is skipped, though its undecodable fields are
    /// counted.
    pub fn observe_row(&mut self, fields: &[RawField])
        requires
            old(self).wf(),
            old(self).processed_view() < usize::MAX,
            old(self).decode_errors_view() + fields@.len() <= usize::MAX,
            forall|i: int|
                0 <= i < fields@.len() ==> (#[trigger] fields@[i] matches RawField::Text(s)
                    ==> numeric_token_fits(s@)),
        ensures
            final(self).wf(),
            final(self).headers_view() == old(self).headers_view(),
            final(self).aliases_view() == old(self).aliases_view(),
            final(self).sample_rows_view() == old(self).sample_rows_view(),
            final(self).decode_errors_view() == old(self).decode_errors_view() + decode_failures(
                fields@,
                old(self).headers_view().len(),
            ),
            ({
                let cells = decoded_cells(fields@, old(self).headers_view().len());
                let n = old(self).headers_view().len();
                if looks_like_header(cells, old(self).aliases_view()) {
                    &&& final(self).processed_view() == old(self).processed_view()
                    &&& final(self).candidates_view() == old(self).candidates_view()
                    &&& final(self).summaries_view() == old(self).summaries_view()
                    &&& final(self).samples_view() == old(self).samples_view()
                    &&& final(self).placeholders_view() == old(self).placeholders_view()
                } else {
                    &&& final(self).processed_view() == old(self).processed_view() + 1
                    &&& final(self).candidates_view() == Seq::new(
                        n,
                        |i: int| cell_candidate(old(self).candidates_view()[i], cells[i]),
                    )
                    &&& final(self).summaries_view() == Seq::new(
                        n,
                        |i: int| cell_summary(old(self).summaries_view()[i], cells[i]),
                    )
                    &&& final(self).samples_view() == Seq::new(
                        n,
                        |i: int| cell_sample(old(self).samples_view()[i], cells[i]),
                    )
                    &&& final(self).placeholders_view() == Seq::new(
                        n,
                        |i: int| cell_placeholders(old(self).placeholders_view()[i], cells[i]),
                    )
                }
            }),
    {
        let n = self.headers.len();
        let (cells, errs) = decode_row(fields, n);
        let ghost cv = decoded_cells(fields@, n as nat);
        self.decode_errors = self.decode_errors + errs;
        if option_row_looks_like_header(cells.as_slice(), self.header_aliases.as_slice()) {
            return;
        }
        proof {
            assert forall|i: int|
                0 <= i < cells@.len() implies (#[trigger] cells@[i] matches Some(v)
                ==> numeric_token_fits(v@)) by {
                if let Some(v) = cells@[i] {
                    let k = choose|k: int|
                        0 <= k < fields@.len() && trimmed_text_of(fields@[k], v@);
                    if let RawField::Text(s) = fields@[k] {
                        crate::text::lemma_trim_idempotent(s@);
                    }
                }
            }
        }
        assert(old(self).headers_view().len() == n);
        assert(decoded_cells(fields@, old(self).headers_view().len()) == cv);
        let ghost old_c = self.candidates@;
        let ghost old_s = self.summaries@.map_values(|c: ColumnSummary| summary_view(c));
        let ghost old_p = self.placeholders@.map_values(|p: PlaceholderSummary| p@);
        let ghost old_m = opt_views(self.samples@);
        let ghost hs = self.headers;
        let ghost al = self.header_aliases;
        let ghost de = self.decode_errors;
        for idx in 0..n
            invariant
                n == self.headers@.len(),
                self.headers == hs,
                self.header_aliases == al,
                self.decode_errors == de,
                self.processed == old(self).processed,
                self.processed < usize::MAX,
                self.sample_rows == old(self).sample_rows,
                self.candidates@.len() == n,
                self.summaries@.len() == n,
                self.placeholders@.len() == n,
                self.samples@.len() == n,
                self.header_aliases@.len() == n,
                cv == decoded_cells(fields@, n as nat),
                opt_views(cells@) == cv,
                cells@.len() == n,
                old_c.len() == n,
                old_s.len() == n,
                old_p.len() == n,
                old_m.len() == n,
                forall|i: int|
                    0 <= i < n ==> strs_view(#[trigger] self.header_aliases@[i]@) == header_alias_list(
                        self.headers@[i]@,
                    ),
                forall|i: int|
                    0 <= i < cells@.len() ==> (#[trigger] cells@[i] matches Some(v)
                        ==> numeric_token_fits(v@)),
                forall|j: int| idx <= j < n ==> #[trigger] self.candidates@[j] == old_c[j],
                forall|j: int|
                    idx <= j < n ==> summary_view(#[trigger] self.summaries@[j]) == old_s[j],
                forall|j: int| idx <= j < n ==> (#[trigger] self.placeholders@[j])@ == old_p[j],
                forall|j: int| idx <= j < n ==> #[trigger] opt_views(self.samples@)[j] == old_m[j],
                forall|j: int|
                    idx <= j < n ==> column_bounded(
                        #[trigger] self.candidates@[j],
                        summary_view(self.summaries@[j]),
                        self.placeholders@[j]@,
                        self.processed as int,
                    ),
                forall|j: int|
                    0 <= j < idx ==> #[trigger] self.candidates@[j] == cell_candidate(old_c[j], cv[j]),
                forall|j: int|
                    0 <= j < idx ==> summary_view(#[trigger] self.summaries@[j]) == cell_summary(
                        old_s[j],
                        cv[j],
                    ),
                forall|j: int|
                    0 <= j < idx ==> (#[trigger] self.placeholders@[j])@ == cell_placeholders(
                        old_p[j],
                        cv[j],
                    ),
                forall|j: int|
                    0 <= j < idx ==> #[trigger] opt_views(self.samples@)[j] == cell_sample(
                        old_m[j],
                        cv[j],
                    ),
                forall|j: int|
                    0 <= j < idx ==> column_bounded(
                        #[trigger] self.candidates@[j],
                        summary_view(self.summaries@[j]),
                        self.placeholders@[j]@,
                        self.processed + 1,
                    ),
        {
            let ghost before_m = opt_views(self.samples@);
            assert(opt_views(seq![cells@[idx as int]])[0] == cv[idx as int]);
            let ghost bc = self.candidates@;
            let ghost bs = self.summaries@;
            let ghost bp = self.placeholders@;
            let ghost bmr = self.samples@;
            self.observe_cell(idx, &cells[idx]);
            assert forall|j: int| 0 <= j < n && j != idx implies #[trigger] opt_views(
                self.samples@,
            )[j] == before_m[j] by {
                assert(self.samples@[j] == bmr[j]);
            }
            assert forall|j: int| 0 <= j < n && j != idx implies #[trigger] self.summaries@[j]
                == bs[j] by {}
            assert forall|j: int| 0 <= j < n && j != idx implies #[trigger] self.placeholders@[j]
                == bp[j] by {}
            assert forall|j: int| 0 <= j < n && j != idx implies #[trigger] self.candidates@[j]
                == bc[j] by {}
        }
        self.processed = self.processed + 1;
        assert forall|i: int| 0 <= i < n implies column_bounded(
            #[trigger] self.candidates@[i],
            summary_view(self.summaries@[i]),
            self.placeholders@[i]@,
            self.processed as int,
        ) by {}
        assert forall|i: int| 0 <= i < n implies summary_bounded(
            summary_view(#[trigger] self.summaries@[i]),
            self.processed as int,
        ) by {
            assert(column_bounded(
                self.candidates@[i],
                summary_view(self.summaries@[i]),
                self.placeholders@[i]@,
                self.processed as int,
            ));
        }
        assert forall|i: int| 0 <= i < n implies keys_increasing(
            #[trigger] self.placeholders@[i]@,
        ) && forall|k: int|
            0 <= k < self.placeholders@[i]@.len() ==> self.placeholders@[i]@[k].1 <= self.processed by {
            assert(column_bounded(
                self.candidates@[i],
                summary_view(self.summaries@[i]),
                self.placeholders@[i]@,
                self.processed as int,
            ));
        }
        assert(self.wf());
        assert(self.candidates_view() =~= Seq::new(
            n as nat,
            |i: int| cell_candidate(old_c[i], cv[i]),
        ));
        assert(self.summaries_view() =~= Seq::new(
            n as nat,
            |i: int| cell_summary(old_s[i], cv[i]),
        ));
        assert(self.samples_view() =~= Seq::new(n as nat, |i: int| cell_sample(old_m[i], cv[i])));
        assert(self.placeholders_view() =~= Seq::new(
            n as nat,
            |i: int| cell_placeholders(old_p[i], cv[i]),
        ));
        assert(old_c == old(self).candidates_view());
        assert(old_s == old(self).summaries_view());
        assert(old_p == old(self).placeholders_view());
        assert(old_m == old(self).samples_view());
        assert(self.processed_view() == old(self).processed_view() + 1);
    }
}

impl InferenceAccumulator {
    /// The inferred schema (each column named by its header and typed by
    /// its counters) and the statistics gathered.
    pub fn finish(self, has_headers: bool) -> (r: (Schema, InferenceStats))
        requires
            self.wf(),
        ensures
            r.0.columns@.len() == self.headers_view().len(),
            forall|i: int|
                0 <= i < self.headers_view().len() ==> {
                    let c = #[trigger] r.0.columns@[i];
                    &&& c.name@ == self.headers_view()[i]
                    &&& c.datatype == crate::inference::candidate_decision(self.candidates_view()[i])
                    &&& c.rename is None
                    &&& c.value_replacements@.len() == 0
                    &&& c.datatype_mappings@.len() == 0
                },
            r.0.schema_version is None,
            r.0.has_headers == has_headers,
            r.1.samples_view() == self.samples_view(),
            r.1.summaries_view() == self.summaries_view(),
            r.1.placeholders_view() == self.placeholders_view(),
            r.1.rows_read_view() == self.processed_view(),
            r.1.requested_rows_view() == self.sample_rows_view(),
            r.1.decode_errors_view() == self.decode_errors_view(),
    {
        let mut columns: Vec<ColumnMeta> = Vec::new();
        let n = self.headers.len();
        for i in 0..n
            invariant
                n == self.headers@.len(),
                self.candidates@.len() == n,
                columns@.len() == i,
                forall|j: int|
                    0 <= j < i ==> {
                        let c = #[trigger] columns@[j];
                        &&& c.name@ == self.headers@[j]@
                        &&& c.datatype == crate::inference::candidate_decision(self.candidates@[j])
                        &&& c.rename is None
                        &&& c.value_replacements@.len() == 0
                        &&& c.datatype_mappings@.len() == 0
                    },
        {
            columns.push(
                ColumnMeta {
                    name: self.headers[i].clone(),
                    datatype: self.candidates[i].decide(),
                    rename: None,
                    value_replacements: Vec::new(),
                    datatype_mappings: Vec::new(),
                },
            );
        }
        let schema = Schema { columns, schema_version: None, has_headers };
        let stats = InferenceStats {
            sample_values: self.samples,
            rows_read: self.processed,
            requested_rows: self.sample_rows,
            decode_errors: self.decode_errors,
            summaries: self.summaries,
            placeholder_summaries: self.placeholders,
        };
        (schema, stats)
    }
}

// ---------------------------------------------------------------------------
// Placeholder replacements
// ---------------------------------------------------------------------------

/// Replacements as pairs of texts.
pub open spec fn rep_views(r: Seq<crate::schema::ValueReplacement>) -> Seq<(Seq<char>, Seq<char>)> {
    r.map_values(|v: crate::schema::ValueReplacement| (v.from@, v.to@))
}

pub open spec fn has_from(reps: Seq<(Seq<char>, Seq<char>)>, t: Seq<char>) -> bool {
    exists|i: int| 0 <= i < reps.len() && #[trigger] reps[i].0 == t
}

/// The replacements after adding, for each token in turn that none
/// replaces yet, one that writes `to` in its place.
pub open spec fn add_placeholder_reps(
    reps: Seq<(Seq<char>, Seq<char>)>,
    tokens: Seq<(Seq<char>, usize)>,
    to: Seq<char>,
) -> Seq<(Seq<char>, Seq<char>)>
    decreases tokens.len(),
{
    if tokens.len() == 0 {
        reps
    } else {
        let r = add_placeholder_reps(reps, tokens.drop_last(), to);
        let t = tokens.last().0;
        if has_from(r, t) {
            r
        } else {
            r.push((t, to))
        }
    }
}

/// The text a policy writes in place of a placeholder.
pub open spec fn policy_text(p: PlaceholderPolicy) -> Seq<char> {
    match p {
        PlaceholderPolicy::TreatAsEmpty => Seq::empty(),
        PlaceholderPolicy::FillWith(v) => v@,
    }
}

/// Sum of the lengths.
pub open spec fn total_len(v: Seq<Seq<(Seq<char>, usize)>>) -> nat
    decreases v.len(),
{
    if v.len() == 0 {
        0
    } else {
        total_len(v.drop_last()) + v.last().len()
    }
}

proof fn lemma_add_reps_len(
    reps: Seq<(Seq<char>, Seq<char>)>,
    tokens: Seq<(Seq<char>, usize)>,
    to: Seq<char>,
)
    ensures
        reps.len() <= add_placeholder_reps(reps, tokens, to).len() <= reps.len() + tokens.len(),
    decreases tokens.len(),
{
    if tokens.len() > 0 {
        lemma_add_reps_len(reps, tokens.drop_last(), to);
    }
}

impl InferenceStats {
    /// Whether the placeholder tokens of all columns number fewer than
    /// `usize::MAX`.
    pub fn placeholder_entries_fit(&self) -> (r: bool)
        ensures
            r == (total_len(self.placeholders_view()) < usize::MAX),
    {
        let mut total: usize = 0;
        let ghost pv = self.placeholders_view();
        for i in 0..self.placeholder_summaries.len()
            invariant
                pv == self.placeholders_view(),
                pv.len() == self.placeholder_summaries@.len(),
                total == total_len(pv.take(i as int)),
                total < usize::MAX,
        {
            assert(pv.take(i + 1).drop_last() =~= pv.take(i as int));
            assert(pv[i as int] == self.placeholder_summaries@[i as int]@);
            let len = self.placeholder_summaries[i].entries().len();
            if len >= usize::MAX - total {
                proof {
                    lemma_total_len_prefix(pv, i + 1);
                }
                return false;
            }
            total = total + len;
        }
        assert(pv.take(pv.len() as int) =~= pv);
        true
    }
}

proof fn lemma_total_len_prefix(v: Seq<Seq<(Seq<char>, usize)>>, k: int)
    requires
        0 <= k <= v.len(),
    ensures
        total_len(v.take(k)) <= total_len(v),
    decreases v.len() - k,
{
    if k < v.len() {
        lemma_total_len_prefix(v, k + 1);
        assert(v.take(k + 1).drop_last() =~= v.take(k));
    } else {
        assert(v.take(k) =~= v);
    }
}

fn add_column_placeholders(
    reps: &mut Vec<crate::schema::ValueReplacement>,
    entries: &[(String, usize)],
    to: &String,
) -> (added: usize)
    ensures
        rep_views(final(reps)@) == add_placeholder_reps(rep_views(old(reps)@), pair_views(entries@), to@),
        added == final(reps)@.len() - old(reps)@.len(),
{
    let ghost r0 = rep_views(reps@);
    let ghost ev = pair_views(entries@);
    let mut added: usize = 0;
    let ghost start = reps@.len();
    for k in 0..entries.len()
        invariant
            ev == pair_views(entries@),
            rep_views(reps@) == add_placeholder_reps(r0, ev.take(k as int), to@),
            r0.len() == start,
            added == reps@.len() - start,
            added <= k,
    {
        assert(ev.take(k + 1).drop_last() =~= ev.take(k as int));
        assert(ev.take(k + 1).last().0 == entries@[k as int].0@);
        let token = &entries[k].0;
        let ghost rv = rep_views(reps@);
        let mut present = false;
        for j in 0..reps.len()
            invariant
                rv == rep_views(reps@),
                present <==> exists|q: int| 0 <= q < j && #[trigger] rv[q].0 == token@,
        {
            assert(rv[j as int].0 == reps@[j as int].from@);
            if crate::text::str_eq(reps[j].from.as_str(), token.as_str()) {
                present = true;
            }
        }
        if !present {
            reps.push(crate::schema::ValueReplacement { from: token.clone(), to: to.clone() });
            assert(rep_views(reps@) =~= rv.push((token@, to@)));
            added = added + 1;
        }
    }
    assert(ev.take(entries@.len() as int) =~= ev);
    added
}

/// The count of entries added across columns.
pub open spec fn added_total(old_cols: Seq<ColumnMeta>, new_cols: Seq<ColumnMeta>, n: int) -> int
    decreases n,
{
    if n <= 0 {
        0
    } else {
        added_total(old_cols, new_cols, n - 1) + new_cols[n - 1].value_replacements@.len()
            - old_cols[n - 1].value_replacements@.len()
    }
}

/// Adds to each column a replacement for every placeholder token sampled
/// in it that it does not replace yet, writing the policy's text (empty,
/// or the fill value) in its place; returns how many were added.
pub fn apply_placeholder_replacements(
    schema: &mut Schema,
    stats: &InferenceStats,
    policy: &PlaceholderPolicy,
) -> (added: usize)
    requires
        total_len(stats.placeholders_view()) < usize::MAX,
    ensures
        final(schema).schema_version == old(schema).schema_version,
        final(schema).has_headers == old(schema).has_headers,
        final(schema).columns@.len() == old(schema).columns@.len(),
        forall|i: int|
            0 <= i < old(schema).columns@.len() ==> {
                let c = #[trigger] final(schema).columns@[i];
                let o = old(schema).columns@[i];
                &&& c.name == o.name
                &&& c.datatype == o.datatype
                &&& c.rename == o.rename
                &&& c.datatype_mappings == o.datatype_mappings
                &&& rep_views(c.value_replacements@) == if i < stats.placeholders_view().len() {
                    add_placeholder_reps(
                        rep_views(o.value_replacements@),
                        stats.placeholders_view()[i],
                        policy_text(*policy),
                    )
                } else {
                    rep_views(o.value_replacements@)
                }
            },
        added == added_total(old(schema).columns@, final(schema).columns@, old(schema).columns@.len() as int),
{
    let to: String = match policy {
        PlaceholderPolicy::TreatAsEmpty => String::new(),
        PlaceholderPolicy::FillWith(v) => v.clone(),
    };
    let mut added: usize = 0;
    let n = schema.columns.len();
    let ghost old_cols = schema.columns@;
    let ghost pv = stats.placeholders_view();
    for idx in 0..n
        invariant
            n == old_cols.len(),
            schema.columns@.len() == n,
            schema.schema_version == old(schema).schema_version,
            schema.has_headers == old(schema).has_headers,
            old_cols == old(schema).columns@,
            pv == stats.placeholders_view(),
            total_len(pv) < usize::MAX,
            to@ == policy_text(*policy),
            forall|i: int| idx <= i < n ==> #[trigger] schema.columns@[i] == old_cols[i],
            forall|i: int|
                0 <= i < idx ==> {
                    let c = #[trigger] schema.columns@[i];
                    let o = old_cols[i];
                    &&& c.name == o.name
                    &&& c.datatype == o.datatype
                    &&& c.rename == o.rename
                    &&& c.datatype_mappings == o.datatype_mappings
                    &&& rep_views(c.value_replacements@) == if i < pv.len() {
                        add_placeholder_reps(rep_views(o.value_replacements@), pv[i], to@)
                    } else {
                        rep_views(o.value_replacements@)
                    }
                },
            added == added_total(old_cols, schema.columns@, idx as int),
            added <= total_len(pv.take(if idx <= pv.len() {
                idx as int
            } else {
                pv.len() as int
            })),
    {
        match stats.placeholder_summary(idx) {
            None => {
                assert(added_total(old_cols, schema.columns@, idx + 1) == added_total(
                    old_cols,
                    schema.columns@,
                    idx as int,
                ));
            },
            Some(summary) => {
                let entries = summary.entries();
                let ghost s0 = schema.columns@;
                let mut col = schema.columns.remove(idx);
                let ghost before = schema.columns@;
                let got = add_column_placeholders(&mut col.value_replacements, entries.as_slice(), &to);
                proof {
                    lemma_add_reps_len(
                        rep_views(old_cols[idx as int].value_replacements@),
                        pv[idx as int],
                        to@,
                    );
                    assert(pv.take(idx + 1).drop_last() =~= pv.take(idx as int));
                    lemma_total_len_prefix(pv, idx + 1);
                }
                schema.columns.insert(idx, col);
                proof {
                    assert forall|i: int| 0 <= i < idx implies #[trigger] schema.columns@[i] == s0[i] by {
                        assert(before[i] == s0[i]);
                    }
                    lemma_added_total_prefix(old_cols, schema.columns@, s0, idx as int);
                    assert forall|i: int| idx < i < n implies #[trigger] schema.columns@[i] == s0[i] by {
                        assert(before[i - 1] == s0[i]);
                    }
                }
                added = added + got;
            },
        }
    }
    added
}

proof fn lemma_added_total_prefix(o: Seq<ColumnMeta>, a: Seq<ColumnMeta>, b: Seq<ColumnMeta>, n: int)
    requires
        forall|i: int| 0 <= i < n ==> a[i] == b[i],
    ensures
        added_total(o, a, n) == added_total(o, b, n),
    decreases n,
{
    if n > 0 {
        lemma_added_total_prefix(o, a, b, n - 1);
    }
}

// ---------------------------------------------------------------------------
// Laws
// ---------------------------------------------------------------------------

/// The sum of the counts.
pub open spec fn total_count(v: Seq<(Seq<char>, usize)>) -> int
    decreases v.len(),
{
    if v.len() == 0 {
        0
    } else {
        v[0].1 + total_count(v.drop_first())
    }
}

/// Counting a placeholder token adds exactly one to the total of the
/// counts.
pub proof fn law_tally_adds_one(v: Seq<(Seq<char>, usize)>, t: Seq<char>)
    requires
        forall|k: int| 0 <= k < v.len() ==> v[k].1 < usize::MAX,
    ensures
        total_count(tally(v, t)) == total_count(v) + 1,
    decreases v.len(),
{
    let r = tally(v, t);
    if v.len() == 0 {
        lemma_total_count_cons((t, 1usize), Seq::<(Seq<char>, usize)>::empty());
        assert(r =~= seq![(t, 1usize)] + Seq::<(Seq<char>, usize)>::empty());
    } else if v[0].0 == t {
        lemma_total_count_cons((t, (v[0].1 + 1) as usize), v.drop_first());
        lemma_total_count_cons(v[0], v.drop_first());
        assert(v =~= seq![v[0]] + v.drop_first());
    } else if seq_lt(v[0].0, t) {
        law_tally_adds_one(v.drop_first(), t);
        lemma_total_count_cons(v[0], tally(v.drop_first(), t));
        lemma_total_count_cons(v[0], v.drop_first());
        assert(v =~= seq![v[0]] + v.drop_first());
    } else {
        lemma_total_count_cons((t, 1usize), v);
    }
}

proof fn lemma_total_count_cons(x: (Seq<char>, usize), s: Seq<(Seq<char>, usize)>)
    ensures
        total_count(seq![x] + s) == x.1 + total_count(s),
{
    let c = seq![x] + s;
    assert(c.len() > 0);
    assert(c[0] == x);
    assert(c.drop_first() =~= s);
}

proof fn lemma_has_from_push(r: Seq<(Seq<char>, Seq<char>)>, x: (Seq<char>, Seq<char>), t: Seq<char>)
    ensures
        has_from(r.push(x), t) == (has_from(r, t) || x.0 == t),
{
    if has_from(r.push(x), t) && x.0 != t {
        let i = choose|i: int| 0 <= i < r.push(x).len() && #[trigger] r.push(x)[i].0 == t;
        assert(r[i] == r.push(x)[i]);
    }
    if has_from(r, t) {
        let i = choose|i: int| 0 <= i < r.len() && #[trigger] r[i].0 == t;
        assert(r.push(x)[i] == r[i]);
    }
    if x.0 == t {
        assert(r.push(x)[r.len() as int].0 == t);
    }
}

proof fn lemma_add_reps_keeps(
    reps: Seq<(Seq<char>, Seq<char>)>,
    tokens: Seq<(Seq<char>, usize)>,
    to: Seq<char>,
    t: Seq<char>,
)
    requires
        has_from(reps, t),
    ensures
        has_from(add_placeholder_reps(reps, tokens, to), t),
    decreases tokens.len(),
{
    if tokens.len() > 0 {
        lemma_add_reps_keeps(reps, tokens.drop_last(), to, t);
        let r = add_placeholder_reps(reps, tokens.drop_last(), to);
        lemma_has_from_push(r, (tokens.last().0, to), t);
    }
}

proof fn lemma_add_reps_covers(
    reps: Seq<(Seq<char>, Seq<char>)>,
    tokens: Seq<(Seq<char>, usize)>,
    to: Seq<char>,
    k: int,
)
    requires
        0 <= k < tokens.len(),
    ensures
        has_from(add_placeholder_reps(reps, tokens, to), tokens[k].0),
    decreases tokens.len(),
{
    let r = add_placeholder_reps(reps, tokens.drop_last(), to);
    if k == tokens.len() - 1 {
        lemma_has_from_push(r, (tokens.last().0, to), tokens[k].0);
    } else {
        lemma_add_reps_covers(reps, tokens.drop_last(), to, k);
        assert(tokens.drop_last()[k] == tokens[k]);
        lemma_has_from_push(r, (tokens.last().0, to), tokens[k].0);
    }
}

proof fn lemma_add_reps_noop(
    reps: Seq<(Seq<char>, Seq<char>)>,
    tokens: Seq<(Seq<char>, usize)>,
    to: Seq<char>,
)
    requires
        forall|k: int| 0 <= k < tokens.len() ==> has_from(reps, #[trigger] tokens[k].0),
    ensures
        add_placeholder_reps(reps, tokens, to) == reps,
    decreases tokens.len(),
{
    if tokens.len() > 0 {
        assert forall|k: int| 0 <= k < tokens.drop_last().len() implies has_from(
            reps,
            #[trigger] tokens.drop_last()[k].0,
        ) by {
            assert(tokens.drop_last()[k] == tokens[k]);
        }
        lemma_add_reps_noop(reps, tokens.drop_last(), to);
        assert(has_from(reps, tokens[tokens.len() - 1].0));
    }
}

/// Adding the placeholder replacements a second time adds nothing.
pub proof fn law_placeholder_replacements_idempotent(
    reps: Seq<(Seq<char>, Seq<char>)>,
    tokens: Seq<(Seq<char>, usize)>,
    to: Seq<char>,
)
    ensures
        add_placeholder_reps(add_placeholder_reps(reps, tokens, to), tokens, to)
            == add_placeholder_reps(reps, tokens, to),
{
    let once = add_placeholder_reps(reps, tokens, to);
    assert forall|k: int| 0 <= k < tokens.len() implies has_from(once, #[trigger] tokens[k].0) by {
        lemma_add_reps_covers(reps, tokens, to, k);
    }
    lemma_add_reps_noop(once, tokens, to);
}

} // verus!
