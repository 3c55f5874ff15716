//! Derived column specifications: `name=expression`.
use vstd::prelude::*;

use crate::header::strs_view;
use crate::text::{chars_of, find_char, slice_chars, string_of, trim, trim_chars};

verus! {

/// A column computed from an expression over the row.
#[derive(Debug, Clone)]
pub struct DerivedColumn {
    pub name: String,
    pub expression: String,
}

/// The text before the first `=` and, if there is one, the text after it.
pub open spec fn split_at_equals(s: Seq<char>) -> (Seq<char>, Option<Seq<char>>) {
    if exists|i: int| 0 <= i < s.len() && s[i] == '=' {
        let i = choose|i: int| 0 <= i < s.len() && s[i] == '=' && forall|j: int| 0 <= j < i ==> s[j] != '=';
        (s.take(i), Some(s.skip(i + 1)))
    } else {
        (s, None)
    }
}

/// A derived column specification read as name and expression (both
/// trimmed, both non-empty), or its error.
pub open spec fn derived_parse(spec: Seq<char>) -> Result<(Seq<char>, Seq<char>), Seq<char>> {
    let (a, b) = split_at_equals(spec);
    let name = trim(a);
    if name.len() == 0 {
        Err("Derived column is missing a name"@)
    } else {
        match b {
            Some(e) => if trim(e).len() > 0 {
                Ok((name, trim(e)))
            } else {
                Err("Derived column '"@ + name + "' is missing an expression"@)
            },
            None => Err("Derived column '"@ + name + "' is missing an expression"@),
        }
    }
}

pub open spec fn derived_view(d: DerivedColumn) -> (Seq<char>, Seq<char>) {
    (d.name@, d.expression@)
}

proof fn lemma_split_at_equals(s: Seq<char>, i: int)
    requires
        0 <= i < s.len(),
        s[i] == '=',
        forall|j: int| 0 <= j < i ==> s[j] != '=',
    ensures
        split_at_equals(s) == (s.take(i), Some(s.skip(i + 1))),
{
    let k = choose|k: int| 0 <= k < s.len() && s[k] == '=' && forall|j: int| 0 <= j < k ==> s[j] != '=';
    if k < i {
        assert(s[k] != '=');
    }
    if k > i {
        assert(s[i] != '=');
    }
}

impl DerivedColumn {
    /// Reads `name=expression`.
    pub fn parse(spec: &str) -> (r: Result<Self, String>)
        ensures
            match derived_parse(spec@) {
                Ok(v) => r matches Ok(d) && derived_view(d) == v,
                Err(e) => r matches Err(x) && x@ == e,
            },
    {
        let s = chars_of(spec);
        let (a, b): (Vec<char>, Option<Vec<char>>) = match find_char(s.as_slice(), '=') {
            Some(i) => {
                proof {
                    lemma_split_at_equals(s@, i as int);
                }
                let a = slice_chars(s.as_slice(), 0, i);
                let b = slice_chars(s.as_slice(), i + 1, s.len());
                assert(a@ =~= s@.take(i as int));
                assert(b@ =~= s@.skip(i + 1));
                (a, Some(b))
            },
            None => (crate::text::clone_chars(s.as_slice()), None),
        };
        let name = trim_chars(a.as_slice());
        if name.len() == 0 {
            return Err("Derived column is missing a name".to_string());
        }
        match b {
            Some(e) => {
                let et = trim_chars(e.as_slice());
                if et.len() > 0 {
                    Ok(
                        DerivedColumn {
                            name: string_of(name.as_slice()),
                            expression: string_of(et.as_slice()),
                        },
                    )
                } else {
                    Err(crate::text::cat3("Derived column '", name.as_slice(), "' is missing an expression"))
                }
            },
            None => Err(crate::text::cat3("Derived column '", name.as_slice(), "' is missing an expression")),
        }
    }
}

/// The specifications parsed in order, or the first error.
pub open spec fn derived_list(specs: Seq<Seq<char>>) -> Result<Seq<(Seq<char>, Seq<char>)>, Seq<char>>
    decreases specs.len(),
{
    if specs.len() == 0 {
        Ok(Seq::empty())
    } else {
        match derived_list(specs.drop_last()) {
            Err(e) => Err(e),
            Ok(v) => match derived_parse(specs.last()) {
                Err(e) => Err(e),
                Ok(d) => Ok(v.push(d)),
            },
        }
    }
}

proof fn lemma_derived_err_extends(fs: Seq<Seq<char>>, k: int)
    requires
        0 <= k <= fs.len(),
        derived_list(fs.take(k)) is Err,
    ensures
        derived_list(fs) == derived_list(fs.take(k)),
    decreases fs.len() - k,
{
    if k < fs.len() {
        assert(fs.take(k + 1).drop_last() =~= fs.take(k));
        lemma_derived_err_extends(fs, k + 1);
    } else {
        assert(fs.take(k) =~= fs);
    }
}

pub open spec fn derived_views(ds: Seq<DerivedColumn>) -> Seq<(Seq<char>, Seq<char>)> {
    ds.map_values(|d: DerivedColumn| derived_view(d))
}

pub fn parse_derived_columns(specs: &[String]) -> (r: Result<Vec<DerivedColumn>, String>)
    ensures
        match derived_list(strs_view(specs@)) {
            Ok(v) => r matches Ok(ds) && derived_views(ds@) == v,
            Err(e) => r matches Err(x) && x@ == e,
        },
{
    let ghost fv = strs_view(specs@);
    let mut out: Vec<DerivedColumn> = Vec::new();
    assert(fv.take(0) =~= Seq::<Seq<char>>::empty());
    assert(derived_views(out@) =~= Seq::<(Seq<char>, Seq<char>)>::empty());
    for i in 0..specs.len()
        invariant
            fv == strs_view(specs@),
            derived_list(fv.take(i as int)) == Ok::<Seq<(Seq<char>, Seq<char>)>, Seq<char>>(
                derived_views(out@),
            ),
    {
        assert(fv.take(i + 1).drop_last() =~= fv.take(i as int));
        assert(fv.take(i + 1).last() == specs@[i as int]@);
        match DerivedColumn::parse(specs[i].as_str()) {
            Err(e) => {
                proof {
                    lemma_derived_err_extends(fv, i + 1);
                }
                return Err(e);
            },
            Ok(d) => {
                let ghost before = derived_views(out@);
                let ghost dv = derived_view(d);
                out.push(d);
                assert(derived_views(out@) =~= before.push(dv));
            },
        }
    }
    assert(fv.take(specs@.len() as int) =~= fv);
    Ok(out)
}

} // verus!
