//! Joining two CSV files on key columns: finding the key columns, checking
//! that their types can be compared, and naming the output columns.
use vstd::prelude::*;
use vstd::relations::injective_on;
use vstd::set_lib::{lemma_int_range, lemma_len_subset, lemma_map_size, set_int_range};

use crate::commands::{same_type, types_join};
use crate::header::strs_view;
use crate::schema::{first_column_named, type_debug, Schema};
use crate::text::{chars_of, extend_chars, lemma_nat_to_seq_digits, nat_to_seq, string_of, usize_to_chars};

verus! {

// ---------------------------------------------------------------------------
// Key columns
// ---------------------------------------------------------------------------

/// The position of each named key column, or the first name not found.
pub open spec fn key_positions(columns: Seq<crate::schema::ColumnMeta>, names: Seq<Seq<char>>) -> Result<
    Seq<int>,
    Seq<char>,
>
    decreases names.len(),
{
    if names.len() == 0 {
        Ok(Seq::empty())
    } else {
        match key_positions(columns, names.drop_last()) {
            Err(e) => Err(e),
            Ok(found) => match first_column_named(columns, names.last()) {
                Some(i) => Ok(found.push(i)),
                None => Err("Column '"@ + names.last() + "' not found in schema"@),
            },
        }
    }
}

/// Finds each key column in the schema, by name or rename.
pub fn column_indices(schema: &Schema, columns: &[String]) -> (r: Result<Vec<usize>, String>)
    ensures
        match key_positions(schema.columns@, strs_view(columns@)) {
            Ok(found) => r matches Ok(v) && v@.len() == found.len() && (forall|i: int|
                0 <= i < found.len() ==> #[trigger] v@[i] as int == found[i]) && (forall|i: int|
                0 <= i < v@.len() ==> #[trigger] v@[i] < schema.columns@.len()),
            Err(e) => r matches Err(m) && m@ == e,
        },
{
    let ghost names = strs_view(columns@);
    let mut out: Vec<usize> = Vec::new();
    for k in 0..columns.len()
        invariant
            names == strs_view(columns@),
            key_positions(schema.columns@, names.take(k as int)) matches Ok(found) && out@.len()
                == found.len() && (forall|i: int| 0 <= i < found.len() ==> #[trigger] out@[i] as int == found[i]),
            forall|i: int| 0 <= i < out@.len() ==> #[trigger] out@[i] < schema.columns@.len(),
    {
        assert(names.take(k + 1).drop_last() =~= names.take(k as int));
        assert(names.take(k + 1).last() == columns@[k as int]@);
        match schema.column_index(columns[k].as_str()) {
            Some(i) => {
                out.push(i);
            },
            None => {
                let mut m = chars_of("Column '");
                extend_chars(&mut m, chars_of(columns[k].as_str()).as_slice());
                extend_chars(&mut m, chars_of("' not found in schema").as_slice());
                let r = string_of(m.as_slice());
                proof {
                    lemma_key_positions_stay_err(schema.columns@, names, (k + 1) as nat);
                }
                return Err(r);
            },
        }
    }
    assert(names.take(columns@.len() as int) =~= names);
    Ok(out)
}

/// Once a key is missing, the longer lists fail with the same message.
proof fn lemma_key_positions_stay_err(
    columns: Seq<crate::schema::ColumnMeta>,
    names: Seq<Seq<char>>,
    n: nat,
)
    requires
        n <= names.len(),
        key_positions(columns, names.take(n as int)) is Err,
    ensures
        key_positions(columns, names) == key_positions(columns, names.take(n as int)),
    decreases names.len() - n,
{
    if n < names.len() {
        assert(names.take((n + 1) as int).drop_last() =~= names.take(n as int));
        lemma_key_positions_stay_err(columns, names, n + 1);
    } else {
        assert(names.take(n as int) =~= names);
    }
}

/// The first pair of key columns whose types cannot be compared, if any.
pub open spec fn key_type_mismatch(
    left: Seq<crate::schema::ColumnMeta>,
    right: Seq<crate::schema::ColumnMeta>,
    left_keys: Seq<usize>,
    right_keys: Seq<usize>,
    n: nat,
) -> Option<Seq<char>>
    decreases n,
{
    if n == 0 {
        None
    } else {
        match key_type_mismatch(left, right, left_keys, right_keys, (n - 1) as nat) {
            Some(e) => Some(e),
            None => {
                let lt = left[left_keys[n - 1] as int].datatype;
                let rt = right[right_keys[n - 1] as int].datatype;
                if types_join(lt, rt) {
                    None
                } else {
                    Some("Type mismatch for join keys: left "@ + type_debug(lt) + " vs right "@ + type_debug(rt))
                }
            },
        }
    }
}

/// The number of key pairs: the shorter of the two key lists.
pub open spec fn key_pairs(left_keys: Seq<usize>, right_keys: Seq<usize>) -> nat {
    if left_keys.len() <= right_keys.len() {
        left_keys.len()
    } else {
        right_keys.len()
    }
}

/// Checks that each pair of key columns holds comparable types (an integer
/// and a float compare).
pub fn validate_key_types(
    left_schema: &Schema,
    right_schema: &Schema,
    left_indices: &[usize],
    right_indices: &[usize],
) -> (r: Result<(), String>)
    requires
        forall|i: int| 0 <= i < left_indices@.len() ==> #[trigger] left_indices@[i] < left_schema.columns@.len(),
        forall|i: int| 0 <= i < right_indices@.len() ==> #[trigger] right_indices@[i] < right_schema.columns@.len(),
    ensures
        match key_type_mismatch(
            left_schema.columns@,
            right_schema.columns@,
            left_indices@,
            right_indices@,
            key_pairs(left_indices@, right_indices@),
        ) {
            None => r is Ok,
            Some(e) => r matches Err(m) && m@ == e,
        },
{
    let n = if left_indices.len() <= right_indices.len() {
        left_indices.len()
    } else {
        right_indices.len()
    };
    for k in 0..n
        invariant
            n == key_pairs(left_indices@, right_indices@),
            n <= left_indices@.len(),
            n <= right_indices@.len(),
            forall|i: int| 0 <= i < left_indices@.len() ==> #[trigger] left_indices@[i] < left_schema.columns@.len(),
            forall|i: int| 0 <= i < right_indices@.len() ==> #[trigger] right_indices@[i] < right_schema.columns@.len(),
            key_type_mismatch(left_schema.columns@, right_schema.columns@, left_indices@, right_indices@, k as nat)
                is None,
    {
        let lt = &left_schema.columns[left_indices[k]].datatype;
        let rt = &right_schema.columns[right_indices[k]].datatype;
        if !same_type(lt, rt) {
            let mut m = chars_of("Type mismatch for join keys: left ");
            extend_chars(&mut m, chars_of(lt.debug_string().as_str()).as_slice());
            extend_chars(&mut m, chars_of(" vs right ").as_slice());
            extend_chars(&mut m, chars_of(rt.debug_string().as_str()).as_slice());
            proof {
                lemma_mismatch_stays(
                    left_schema.columns@,
                    right_schema.columns@,
                    left_indices@,
                    right_indices@,
                    (k + 1) as nat,
                    n as nat,
                );
            }
            return Err(string_of(m.as_slice()));
        }
    }
    Ok(())
}

/// Once a pair mismatches, the first mismatch stays the reported one.
proof fn lemma_mismatch_stays(
    left: Seq<crate::schema::ColumnMeta>,
    right: Seq<crate::schema::ColumnMeta>,
    left_keys: Seq<usize>,
    right_keys: Seq<usize>,
    k: nat,
    n: nat,
)
    requires
        k <= n,
        key_type_mismatch(left, right, left_keys, right_keys, k) is Some,
    ensures
        key_type_mismatch(left, right, left_keys, right_keys, n) == key_type_mismatch(
            left,
            right,
            left_keys,
            right_keys,
            k,
        ),
    decreases n - k,
{
    if k < n {
        lemma_mismatch_stays(left, right, left_keys, right_keys, k, (n - 1) as nat);
    }
}

// ---------------------------------------------------------------------------
// Output headers
// ---------------------------------------------------------------------------

/// `right_<base>_<n>`: the name a right column takes when its own is taken.
pub open spec fn right_name(base: Seq<char>, n: nat) -> Seq<char> {
    "right_"@ + base + "_"@ + nat_to_seq(n)
}

/// `n` is the first counter, from 1, whose name is not taken.
pub open spec fn first_free_counter(taken: Seq<Seq<char>>, base: Seq<char>, n: nat) -> bool {
    &&& n >= 1
    &&& !taken.contains(right_name(base, n))
    &&& forall|m: nat| 1 <= m < n ==> taken.contains(#[trigger] right_name(base, m))
}

/// The name a right column takes: its own when free, else `right_<name>_<n>`
/// with the first free counter `n`.
pub open spec fn unique_name(taken: Seq<Seq<char>>, name: Seq<char>) -> Seq<char> {
    if !taken.contains(name) {
        name
    } else {
        right_name(name, choose|n: nat| first_free_counter(taken, name, n))
    }
}

/// The output headers and the right columns kept after the first `n` right
/// columns: the left headers, then each right column that is not a key,
/// under a name not taken before it.
pub open spec fn joined_headers(
    left: Seq<Seq<char>>,
    right: Seq<Seq<char>>,
    keys: Seq<usize>,
    n: nat,
) -> (Seq<Seq<char>>, Seq<usize>)
    decreases n,
{
    if n == 0 {
        (left, Seq::empty())
    } else {
        let prev = joined_headers(left, right, keys, (n - 1) as nat);
        let i = (n - 1) as int;
        if keys.contains(i as usize) {
            prev
        } else {
            (prev.0.push(unique_name(prev.0, right[i])), prev.1.push(i as usize))
        }
    }
}

proof fn lemma_right_name_injective(base: Seq<char>, a: nat, b: nat)
    requires
        right_name(base, a) == right_name(base, b),
    ensures
        a == b,
{
    let p = "right_"@ + base + "_"@;
    assert((p + nat_to_seq(a)).skip(p.len() as int) =~= nat_to_seq(a));
    assert((p + nat_to_seq(b)).skip(p.len() as int) =~= nat_to_seq(b));
    lemma_nat_to_seq_digits(a);
    lemma_nat_to_seq_digits(b);
}

/// When the names of counters 1 to `k` are all taken, at least `k` names
/// are taken.
proof fn lemma_taken_names_bounded(taken: Seq<Seq<char>>, base: Seq<char>, k: nat)
    requires
        forall|m: nat| 1 <= m <= k ==> taken.contains(#[trigger] right_name(base, m)),
    ensures
        k <= taken.len(),
{
    let x = set_int_range(1, (k + 1) as int);
    lemma_int_range(1, (k + 1) as int);
    let f = |m: int| right_name(base, m as nat);
    let y = x.map(f);
    assert forall|m1: int, m2: int| x.contains(m1) && x.contains(m2) && #[trigger] f(m1) == #[trigger] f(m2) implies m1
        == m2 by {
        lemma_right_name_injective(base, m1 as nat, m2 as nat);
    }
    assert(injective_on(f, x));
    lemma_map_size(x, y, f);
    assert forall|s: Seq<char>| y.contains(s) implies taken.to_set().contains(s) by {
        let m = choose|m: int| x.contains(m) && f(m) == s;
        assert(taken.contains(right_name(base, m as nat)));
    }
    assert(y.subset_of(taken.to_set()));
    vstd::seq_lib::seq_to_set_is_finite(taken);
    lemma_len_subset(y, taken.to_set());
    taken.lemma_cardinality_of_set();
}

proof fn lemma_first_free_unique(taken: Seq<Seq<char>>, base: Seq<char>, a: nat, b: nat)
    requires
        first_free_counter(taken, base, a),
        first_free_counter(taken, base, b),
    ensures
        a == b,
{
    if a < b {
        assert(taken.contains(right_name(base, a)));
    } else if b < a {
        assert(taken.contains(right_name(base, b)));
    }
}

fn make_right_name(base: &[char], n: usize) -> (r: String)
    ensures
        r@ == right_name(base@, n as nat),
{
    let mut m = chars_of("right_");
    extend_chars(&mut m, base);
    m.push('_');
    extend_chars(&mut m, usize_to_chars(n).as_slice());
    proof {
        reveal_strlit("right_");
        reveal_strlit("_");
    }
    let r = string_of(m.as_slice());
    assert(r@ =~= right_name(base@, n as nat));
    r
}

fn names_contain(v: &[String], s: &[char]) -> (r: bool)
    ensures
        r == strs_view(v@).contains(s@),
{
    for i in 0..v.len()
        invariant
            forall|j: int| 0 <= j < i ==> strs_view(v@)[j] != s@,
    {
        if crate::text::str_eq_chars(v[i].as_str(), s) {
            assert(strs_view(v@)[i as int] == s@);
            return true;
        }
    }
    false
}

fn positions_contain(v: &[usize], x: usize) -> (r: bool)
    ensures
        r == v@.contains(x),
{
    for i in 0..v.len()
        invariant
            forall|j: int| 0 <= j < i ==> v@[j] != x,
    {
        if v[i] == x {
            return true;
        }
    }
    false
}

/// `right_<base>_<n>` with the first counter `n` whose name is not taken.
fn fresh_right_name(taken: &[String], base: &[char]) -> (r: String)
    requires
        taken@.len() < usize::MAX,
    ensures
        exists|n: nat| first_free_counter(strs_view(taken@), base@, n) && r@ == right_name(base@, n),
{
    let ghost t = strs_view(taken@);
    let mut counter: usize = 1;
    let mut candidate = make_right_name(base, counter);
    while names_contain(taken, chars_of(candidate.as_str()).as_slice())
        invariant
            t == strs_view(taken@),
            taken@.len() < usize::MAX,
            1 <= counter <= taken@.len() + 1,
            candidate@ == right_name(base@, counter as nat),
            forall|m: nat| 1 <= m < counter ==> t.contains(#[trigger] right_name(base@, m)),
        decreases taken@.len() + 1 - counter,
    {
        proof {
            assert forall|m: nat| 1 <= m <= counter implies t.contains(#[trigger] right_name(base@, m)) by {
                if m < counter {
                    assert(t.contains(right_name(base@, m)));
                }
            }
            lemma_taken_names_bounded(t, base@, counter as nat);
        }
        counter = counter + 1;
        candidate = make_right_name(base, counter);
    }
    assert(first_free_counter(t, base@, counter as nat));
    candidate
}

/// The joined file's headers: the left headers, then each right column that
/// is not a key; a right name already taken becomes `right_<name>_<n>` with
/// the first free counter `n`. Also gives the right columns kept, in order.
pub fn build_output_headers(
    left_headers: &[String],
    right_headers: &[String],
    right_key_indices: &[usize],
) -> (r: (Vec<String>, Vec<usize>))
    requires
        left_headers@.len() + right_headers@.len() < usize::MAX,
    ensures
        (strs_view(r.0@), r.1@) == joined_headers(
            strs_view(left_headers@),
            strs_view(right_headers@),
            right_key_indices@,
            right_headers@.len() as nat,
        ),
{
    let ghost left = strs_view(left_headers@);
    let ghost right = strs_view(right_headers@);
    let mut headers = crate::text::clone_strings(left_headers);
    assert(strs_view(headers@) =~= left);
    let mut kept: Vec<usize> = Vec::new();
    assert(kept@ =~= Seq::<usize>::empty());
    for idx in 0..right_headers.len()
        invariant
            left == strs_view(left_headers@),
            right == strs_view(right_headers@),
            left_headers@.len() + right_headers@.len() < usize::MAX,
            headers@.len() <= left_headers@.len() + idx,
            (strs_view(headers@), kept@) == joined_headers(left, right, right_key_indices@, idx as nat),
    {
        let ghost before = strs_view(headers@);
        if !positions_contain(right_key_indices, idx) {
            let name = chars_of(right_headers[idx].as_str());
            assert(name@ == right[idx as int]);
            let candidate = if !names_contain(&headers, name.as_slice()) {
                string_of(name.as_slice())
            } else {
                let c = fresh_right_name(&headers, name.as_slice());
                proof {
                    let n = choose|n: nat| first_free_counter(before, name@, n) && c@ == right_name(name@, n);
                    let m = choose|m: nat| first_free_counter(before, name@, m);
                    lemma_first_free_unique(before, name@, n, m);
                }
                c
            };
            assert(candidate@ == unique_name(before, right[idx as int]));
            headers.push(candidate);
            kept.push(idx);
            assert(strs_view(headers@) =~= before.push(candidate@));
        }
    }
    (headers, kept)
}

} // verus!
