//! Counting how often each value occurs in a column, and listing the values
//! by how often they occur.
use vstd::prelude::*;

use crate::filter::FilterCondition;
use crate::sampling::{count_occurrence, keys_increasing, pair_views, tally};
use crate::text::{chars_lt, chars_of, seq_lt};

verus! {

/// What the `frequency` command is asked for: how many values to list per
/// column (0 for all of them), how many rows to read, and which rows to
/// keep.
pub struct FrequencyOptions<'a> {
    pub top: usize,
    pub row_limit: Option<usize>,
    pub filters: &'a [FilterCondition],
    pub filter_exprs: &'a [String],
}

/// How a cell is counted: `<empty>` for an empty cell, else the value as
/// its type displays it, else the cell's text.
pub open spec fn frequency_label_of(normalized: Seq<char>, display: Option<Seq<char>>) -> Seq<char> {
    if normalized.len() == 0 {
        "<empty>"@
    } else {
        match display {
            Some(d) => d,
            None => normalized,
        }
    }
}

pub fn frequency_label(normalized: &str, display: Option<&str>) -> (r: String)
    ensures
        r@ == frequency_label_of(
            normalized@,
            match display {
                Some(d) => Some(d@),
                None => None,
            },
        ),
{
    if normalized.is_empty() {
        proof {
            reveal_strlit("<empty>");
        }
        "<empty>".to_string()
    } else {
        match display {
            Some(d) => d.to_string(),
            None => normalized.to_string(),
        }
    }
}

/// `a` is listed before `b`: the higher count first, and of equal counts
/// the smaller value.
#[verifier::opaque]
pub open spec fn ranks_before(a: (Seq<char>, usize), b: (Seq<char>, usize)) -> bool {
    a.1 > b.1 || (a.1 == b.1 && seq_lt(a.0, b.0))
}

/// The sum of the counts.
pub open spec fn count_sum(v: Seq<(Seq<char>, usize)>) -> nat
    decreases v.len(),
{
    if v.len() == 0 {
        0
    } else {
        (count_sum(v.drop_first()) + v[0].1) as nat
    }
}

/// One more occurrence adds one to the sum of the counts.
pub proof fn law_tally_adds_one_to_sum(v: Seq<(Seq<char>, usize)>, t: Seq<char>)
    requires
        forall|i: int| 0 <= i < v.len() ==> #[trigger] v[i].1 < usize::MAX,
    ensures
        count_sum(tally(v, t)) == count_sum(v) + 1,
    decreases v.len(),
{
    let r = tally(v, t);
    if v.len() == 0 {
        assert(r.drop_first() =~= Seq::<(Seq<char>, usize)>::empty());
        assert(count_sum(r.drop_first()) == 0);
        assert(count_sum(r) == count_sum(r.drop_first()) + r[0].1);
    } else if v[0].0 == t {
        assert(v[0].1 < usize::MAX);
        assert(r.drop_first() =~= v.drop_first());
        assert(count_sum(r) == count_sum(r.drop_first()) + r[0].1);
        assert(count_sum(v) == count_sum(v.drop_first()) + v[0].1);
    } else if seq_lt(v[0].0, t) {
        assert forall|i: int| 0 <= i < v.drop_first().len() implies #[trigger] v.drop_first()[i].1
            < usize::MAX by {
            assert(v.drop_first()[i] == v[i + 1]);
        }
        law_tally_adds_one_to_sum(v.drop_first(), t);
        assert(r.drop_first() =~= tally(v.drop_first(), t));
        assert(count_sum(r) == count_sum(r.drop_first()) + r[0].1);
        assert(count_sum(v) == count_sum(v.drop_first()) + v[0].1);
    } else {
        assert(r.drop_first() =~= v);
        assert(count_sum(r) == count_sum(r.drop_first()) + r[0].1);
    }
}

/// No count exceeds the sum of the counts.
pub proof fn lemma_count_within_sum(v: Seq<(Seq<char>, usize)>, i: int)
    requires
        0 <= i < v.len(),
    ensures
        v[i].1 <= count_sum(v),
    decreases v.len(),
{
    if i > 0 {
        lemma_count_within_sum(v.drop_first(), i - 1);
    }
}

proof fn lemma_ranks_before_transitive(a: (Seq<char>, usize), b: (Seq<char>, usize), c: (Seq<char>, usize))
    requires
        ranks_before(a, b),
        ranks_before(b, c),
    ensures
        ranks_before(a, c),
{
    reveal(ranks_before);
    if a.1 == b.1 && b.1 == c.1 {
        crate::text::lemma_seq_lt_transitive(a.0, b.0, c.0);
    }
}

proof fn lemma_ranks_before_total(a: (Seq<char>, usize), b: (Seq<char>, usize))
    requires
        a.0 != b.0,
    ensures
        ranks_before(a, b) || ranks_before(b, a),
{
    reveal(ranks_before);
    crate::text::lemma_seq_lt_total(a.0, b.0);
}

fn ranks_before_exec(a: &(String, usize), b: &(String, usize)) -> (r: bool)
    ensures
        r == ranks_before((a.0@, a.1), (b.0@, b.1)),
{
    reveal(ranks_before);
    if a.1 != b.1 {
        a.1 > b.1
    } else {
        chars_lt(chars_of(a.0.as_str()).as_slice(), chars_of(b.0.as_str()).as_slice())
    }
}

/// The entries are listed in ranking order.
#[verifier::opaque]
pub open spec fn in_rank_order(s: Seq<(Seq<char>, usize)>) -> bool {
    forall|a: int, b: int| 0 <= a < b < s.len() ==> ranks_before(#[trigger] s[a], #[trigger] s[b])
}

/// Each entry of `s` is one of the first `n` entries of `v`.
#[verifier::opaque]
pub open spec fn drawn_from(s: Seq<(Seq<char>, usize)>, v: Seq<(Seq<char>, usize)>, n: int) -> bool {
    forall|a: int| #![trigger s[a]] 0 <= a < s.len() ==> exists|j: int| 0 <= j < n && #[trigger] v[j] == s[a]
}

/// Each of the first `n` entries of `v` is in `s`.
#[verifier::opaque]
pub open spec fn covers(s: Seq<(Seq<char>, usize)>, v: Seq<(Seq<char>, usize)>, n: int) -> bool {
    forall|j: int| #![trigger v[j]] 0 <= j < n ==> exists|a: int| 0 <= a < s.len() && #[trigger] s[a] == v[j]
}

/// No value is listed twice.
pub open spec fn keys_distinct(v: Seq<(Seq<char>, usize)>) -> bool {
    forall|j: int, k: int| 0 <= j < k < v.len() ==> (#[trigger] v[j]).0 != (#[trigger] v[k]).0
}

proof fn lemma_increasing_keys_distinct(v: Seq<(Seq<char>, usize)>)
    requires
        keys_increasing(v),
    ensures
        keys_distinct(v),
{
    assert forall|j: int, k: int| 0 <= j < k < v.len() implies (#[trigger] v[j]).0 != (#[trigger] v[k]).0 by {
        crate::text::lemma_seq_lt_irreflexive(v[k].0);
    }
}

/// Inserting an entry after those that rank before it and before the one
/// it ranks before keeps the list in ranking order.
proof fn lemma_insert_in_order(sv: Seq<(Seq<char>, usize)>, ev: (Seq<char>, usize), p: int)
    requires
        0 <= p <= sv.len(),
        in_rank_order(sv),
        forall|q: int| 0 <= q < p ==> ranks_before(#[trigger] sv[q], ev),
        p < sv.len() ==> ranks_before(ev, sv[p]),
    ensures
        in_rank_order(sv.insert(p, ev)),
{
    reveal(in_rank_order);
    let nv = sv.insert(p, ev);
    assert forall|a: int, b: int| 0 <= a < b < nv.len() implies ranks_before(#[trigger] nv[a], #[trigger] nv[b]) by {
        if b < p {
            assert(nv[a] == sv[a] && nv[b] == sv[b]);
        } else if b == p {
            assert(nv[a] == sv[a]);
        } else if a < p {
            assert(nv[a] == sv[a] && nv[b] == sv[b - 1]);
        } else if a == p {
            assert(nv[b] == sv[b - 1]);
            if b > p + 1 {
                lemma_ranks_before_transitive(ev, sv[p], sv[b - 1]);
            }
        } else {
            assert(nv[a] == sv[a - 1] && nv[b] == sv[b - 1]);
        }
    }
}

/// Inserting the next entry keeps the list made of the entries seen so
/// far.
proof fn lemma_insert_drawn(sv: Seq<(Seq<char>, usize)>, cv: Seq<(Seq<char>, usize)>, i: int, p: int)
    requires
        0 <= i < cv.len(),
        0 <= p <= sv.len(),
        drawn_from(sv, cv, i),
    ensures
        drawn_from(sv.insert(p, cv[i]), cv, i + 1),
{
    reveal(drawn_from);
    let nv = sv.insert(p, cv[i]);
    assert forall|a: int| #![trigger nv[a]] 0 <= a < nv.len() implies exists|j: int|
        0 <= j < i + 1 && #[trigger] cv[j] == nv[a] by {
        if a < p {
            assert(nv[a] == sv[a]);
            let j = choose|j: int| 0 <= j < i && #[trigger] cv[j] == sv[a];
            assert(cv[j] == nv[a]);
        } else if a == p {
            assert(cv[i] == nv[a]);
        } else {
            assert(nv[a] == sv[a - 1]);
            let j = choose|j: int| 0 <= j < i && #[trigger] cv[j] == sv[a - 1];
            assert(cv[j] == nv[a]);
        }
    }
}

/// Inserting the next entry keeps every entry seen so far in the list.
proof fn lemma_insert_covers(sv: Seq<(Seq<char>, usize)>, cv: Seq<(Seq<char>, usize)>, i: int, p: int)
    requires
        0 <= i < cv.len(),
        0 <= p <= sv.len(),
        covers(sv, cv, i),
    ensures
        covers(sv.insert(p, cv[i]), cv, i + 1),
{
    reveal(covers);
    let nv = sv.insert(p, cv[i]);
    assert forall|j: int| #![trigger cv[j]] 0 <= j < i + 1 implies exists|a: int|
        0 <= a < nv.len() && #[trigger] nv[a] == cv[j] by {
        if j == i {
            assert(nv[p] == cv[j]);
        } else {
            let a = choose|a: int| 0 <= a < sv.len() && #[trigger] sv[a] == cv[j];
            if a < p {
                assert(nv[a] == cv[j]);
            } else {
                assert(nv[a + 1] == cv[j]);
            }
        }
    }
}

/// The entry found where insertion stopped ranks after the new one: their
/// values differ, as the new value was not seen before.
proof fn lemma_stop_ranks_after(sv: Seq<(Seq<char>, usize)>, cv: Seq<(Seq<char>, usize)>, i: int, p: int)
    requires
        forall|j: int| 0 <= j < i ==> (#[trigger] cv[j]).0 != cv[i].0,
        0 <= i < cv.len(),
        0 <= p < sv.len(),
        drawn_from(sv, cv, i),
        !ranks_before(sv[p], cv[i]),
    ensures
        ranks_before(cv[i], sv[p]),
{
    reveal(drawn_from);
    let j = choose|j: int| 0 <= j < i && #[trigger] cv[j] == sv[p];
    assert(cv[j].0 != cv[i].0);
    lemma_ranks_before_total(cv[i], sv[p]);
}

/// The first `limit` entries of a ranking of all of `cv` are entries of
/// `cv`, still in order, and every entry left out ranks after all of them.
proof fn lemma_ranking_prefix(full: Seq<(Seq<char>, usize)>, cv: Seq<(Seq<char>, usize)>, limit: int)
    requires
        in_rank_order(full),
        drawn_from(full, cv, cv.len() as int),
        covers(full, cv, cv.len() as int),
        0 <= limit <= full.len(),
    ensures
        forall|i: int| 0 <= i < limit ==> cv.contains(#[trigger] full.subrange(0, limit)[i]),
        in_rank_order(full.subrange(0, limit)),
        forall|k: int|
            0 <= k < cv.len() ==> full.subrange(0, limit).contains(#[trigger] cv[k]) || (forall|i: int|
                0 <= i < limit ==> ranks_before(full.subrange(0, limit)[i], cv[k])),
{
    reveal(in_rank_order);
    reveal(drawn_from);
    reveal(covers);
    let rv = full.subrange(0, limit);
    assert forall|i: int| 0 <= i < limit implies cv.contains(#[trigger] rv[i]) by {
        assert(rv[i] == full[i]);
        let j = choose|j: int| 0 <= j < cv.len() && #[trigger] cv[j] == full[i];
        assert(cv[j] == rv[i]);
    }
    assert forall|a: int, b: int| 0 <= a < b < rv.len() implies ranks_before(#[trigger] rv[a], #[trigger] rv[b]) by {
        assert(rv[a] == full[a] && rv[b] == full[b]);
    }
    assert forall|k: int| 0 <= k < cv.len() implies rv.contains(#[trigger] cv[k]) || (forall|i: int|
        0 <= i < limit ==> ranks_before(rv[i], cv[k])) by {
        let a = choose|a: int| 0 <= a < full.len() && #[trigger] full[a] == cv[k];
        if a < limit {
            assert(rv[a] == cv[k]);
        } else {
            assert forall|i: int| 0 <= i < limit implies ranks_before(rv[i], cv[k]) by {
                assert(rv[i] == full[i]);
            }
        }
    }
}

/// How often each value of a column occurred, kept in value order, and
/// how many values were counted.
pub struct FrequencyTally {
    counts: Vec<(String, usize)>,
    total: usize,
}

impl FrequencyTally {
    /// The values and their counts, in value order.
    pub closed spec fn counts_view(&self) -> Seq<(Seq<char>, usize)> {
        pair_views(self.counts@)
    }

    /// How many values were counted.
    pub closed spec fn total_view(&self) -> usize {
        self.total
    }

    /// Each value is listed once, in order, and the counts add up to the
    /// number of values counted.
    pub open spec fn wf(&self) -> bool {
        &&& keys_increasing(self.counts_view())
        &&& count_sum(self.counts_view()) == self.total_view()
    }

    pub fn new() -> (r: Self)
        ensures
            r.wf(),
            r.counts_view() == Seq::<(Seq<char>, usize)>::empty(),
            r.total_view() == 0,
    {
        let r = FrequencyTally { counts: Vec::new(), total: 0 };
        assert(r.counts_view() =~= Seq::<(Seq<char>, usize)>::empty());
        r
    }

    /// Counts one occurrence of `value`.
    pub fn record(&mut self, value: &str)
        requires
            old(self).wf(),
            old(self).total_view() < usize::MAX,
        ensures
            final(self).wf(),
            final(self).counts_view() == tally(old(self).counts_view(), value@),
            final(self).total_view() == old(self).total_view() + 1,
    {
        let ghost v = pair_views(self.counts@);
        proof {
            assert forall|i: int| 0 <= i < self.counts@.len() implies #[trigger] self.counts@[i].1
                < usize::MAX by {
                lemma_count_within_sum(v, i);
                assert(v[i].1 == self.counts@[i].1);
            }
            assert forall|i: int| 0 <= i < v.len() implies #[trigger] v[i].1 < usize::MAX by {
                lemma_count_within_sum(v, i);
            }
            law_tally_adds_one_to_sum(v, value@);
        }
        let t = chars_of(value);
        count_occurrence(&mut self.counts, t.as_slice());
        self.total = self.total + 1;
    }

    /// How many values were counted.
    pub fn total(&self) -> (r: usize)
        ensures
            r == self.total_view(),
    {
        self.total
    }

    /// The values with their counts, most frequent first and equal counts
    /// in value order; only the first `top` of them when `top` is not 0.
    pub fn ranked(&self, top: usize) -> (r: Vec<(String, usize)>)
        requires
            self.wf(),
        ensures
            r@.len() == (if top > 0 && self.counts_view().len() > top {
                top as int
            } else {
                self.counts_view().len() as int
            }),
            forall|i: int| 0 <= i < r@.len() ==> self.counts_view().contains(#[trigger] pair_views(r@)[i]),
            in_rank_order(pair_views(r@)),
            forall|k: int|
                0 <= k < self.counts_view().len() ==> pair_views(r@).contains(#[trigger] self.counts_view()[k])
                    || (forall|i: int| 0 <= i < r@.len() ==> ranks_before(pair_views(r@)[i], self.counts_view()[k])),
    {
        let ghost cv = pair_views(self.counts@);
        let mut sorted: Vec<(String, usize)> = Vec::new();
        assert(pair_views(sorted@) =~= Seq::<(Seq<char>, usize)>::empty());
        proof {
            lemma_increasing_keys_distinct(cv);
            reveal(in_rank_order);
            reveal(drawn_from);
            reveal(covers);
        }
        for i in 0..self.counts.len()
            invariant
                cv == pair_views(self.counts@),
                keys_distinct(cv),
                sorted@.len() == i,
                in_rank_order(pair_views(sorted@)),
                drawn_from(pair_views(sorted@), cv, i as int),
                covers(pair_views(sorted@), cv, i as int),
        {
            let e = (self.counts[i].0.clone(), self.counts[i].1);
            let ghost ev = (e.0@, e.1);
            assert(ev == cv[i as int]);
            let ghost sv = pair_views(sorted@);
            let mut p: usize = 0;
            while p < sorted.len() && ranks_before_exec(&sorted[p], &e)
                invariant
                    sv == pair_views(sorted@),
                    ev == (e.0@, e.1),
                    p <= sorted@.len(),
                    forall|q: int| 0 <= q < p ==> ranks_before(#[trigger] sv[q], ev),
                decreases sorted.len() - p,
            {
                p += 1;
            }
            proof {
                assert forall|j: int| 0 <= j < i implies (#[trigger] cv[j]).0 != cv[i as int].0 by {
                    assert(cv[j].0 != cv[i as int].0);
                }
                if p < sv.len() {
                    lemma_stop_ranks_after(sv, cv, i as int, p as int);
                }
                lemma_insert_in_order(sv, ev, p as int);
                lemma_insert_drawn(sv, cv, i as int, p as int);
                lemma_insert_covers(sv, cv, i as int, p as int);
            }
            sorted.insert(p, e);
            assert(pair_views(sorted@) =~= sv.insert(p as int, ev));
        }
        let ghost full = pair_views(sorted@);
        let limit = if top > 0 && sorted.len() > top {
            top
        } else {
            sorted.len()
        };
        sorted.truncate(limit);
        proof {
            assert(pair_views(sorted@) =~= full.subrange(0, limit as int));
            lemma_ranking_prefix(full, cv, limit as int);
        }
        sorted
    }
}

} // verus!
