//! Command-line values: delimiters, boolean output formats, join kinds and
//! the expansion of `--report-invalid:` shorthand arguments.
use vstd::prelude::*;

use crate::header::strs_view;
use crate::text::{chars_of, split_chars, split_on, str_eq_chars, string_of};

verus! {

/// How boolean values are written.
#[derive(Debug, Clone, Copy, PartialEq, Eq, Structural)]
pub enum BooleanFormat {
    Original,
    TrueFalse,
    OneZero,
}

impl BooleanFormat {
    /// The default format: values as they were read.
    pub fn default_format() -> (r: Self)
        ensures
            r == BooleanFormat::Original,
    {
        BooleanFormat::Original
    }
}

/// Which unmatched rows a join keeps.
#[derive(Debug, Clone, Copy, PartialEq, Eq, Structural)]
pub enum JoinKind {
    Inner,
    Left,
    Right,
    Full,
}

/// A delimiter given by name or as a single ASCII character.
pub open spec fn delimiter_of(value: Seq<char>) -> Result<u8, Seq<char>> {
    if value == "tab"@ || value == "\t"@ {
        Ok(9u8)
    } else if value == "comma"@ || value == ","@ {
        Ok(44u8)
    } else if value == "|"@ || value == "pipe"@ {
        Ok(124u8)
    } else if value == ";"@ || value == "semicolon"@ {
        Ok(59u8)
    } else if value.len() == 0 {
        Err("Delimiter cannot be empty"@)
    } else if value.len() > 1 {
        Err("Delimiter must be a single character"@)
    } else if (value[0] as u32) >= 128 {
        Err("Delimiter must be ASCII"@)
    } else {
        Ok(value[0] as u8)
    }
}

pub fn parse_delimiter(value: &str) -> (r: Result<u8, String>)
    ensures
        match delimiter_of(value@) {
            Ok(d) => r == Ok::<u8, String>(d),
            Err(e) => r matches Err(x) && x@ == e,
        },
{
    let v = chars_of(value);
    let s = v.as_slice();
    if str_eq_chars("tab", s) || str_eq_chars("\t", s) {
        Ok(9)
    } else if str_eq_chars("comma", s) || str_eq_chars(",", s) {
        Ok(44)
    } else if str_eq_chars("|", s) || str_eq_chars("pipe", s) {
        Ok(124)
    } else if str_eq_chars(";", s) || str_eq_chars("semicolon", s) {
        Ok(59)
    } else if v.len() == 0 {
        Err("Delimiter cannot be empty".to_string())
    } else if v.len() > 1 {
        Err("Delimiter must be a single character".to_string())
    } else if (v[0] as u32) >= 128 {
        Err("Delimiter must be ASCII".to_string())
    } else {
        Ok(v[0] as u8)
    }
}

/// How a delimiter is shown in messages.
pub open spec fn delimiter_display(d: u8) -> Seq<char> {
    if d == 44 {
        ","@
    } else if d == 9 {
        "\\t"@
    } else if d == 10 {
        "\\n"@
    } else {
        seq![d as char]
    }
}

pub fn printable_delimiter(delimiter: u8) -> (r: String)
    ensures
        r@ == delimiter_display(delimiter),
{
    if delimiter == 44 {
        ",".to_string()
    } else if delimiter == 9 {
        "\\t".to_string()
    } else if delimiter == 10 {
        "\\n".to_string()
    } else {
        let c = vec![delimiter as char];
        assert(c@ =~= seq![delimiter as char]);
        string_of(c.as_slice())
    }
}

/// The arguments that stand for one argument: `--report-invalid:a:b`
/// becomes `--report-invalid`, `a`, `b` (empty segments dropped); any
/// other argument stays as it is.
pub open spec fn expanded_arg(arg: Seq<char>) -> Seq<Seq<char>> {
    let p = "--report-invalid:"@;
    if p.len() <= arg.len() && arg.take(p.len() as int) == p {
        seq!["--report-invalid"@] + split_on(arg.skip(p.len() as int), ':').filter(
            |s: Seq<char>| s.len() > 0,
        )
    } else {
        seq![arg]
    }
}

pub open spec fn expanded_args(args: Seq<Seq<char>>) -> Seq<Seq<char>>
    decreases args.len(),
{
    if args.len() == 0 {
        Seq::empty()
    } else {
        expanded_args(args.drop_last()) + expanded_arg(args.last())
    }
}

pub fn expand_report_invalid(arg: &str) -> (r: Vec<String>)
    ensures
        strs_view(r@) == expanded_arg(arg@),
{
    let a = chars_of(arg);
    let p = chars_of("--report-invalid:");
    proof {
        reveal_strlit("--report-invalid:");
    }
    if crate::text::starts_with(a.as_slice(), p.as_slice()) {
        let rest = crate::text::slice_chars(a.as_slice(), p.len(), a.len());
        assert(rest@ =~= a@.skip(p@.len() as int));
        let parts = split_chars(rest.as_slice(), ':');
        let ghost ps = split_on(rest@, ':');
        let mut out: Vec<String> = Vec::new();
        out.push("--report-invalid".to_string());
        let ghost head = strs_view(out@);
        assert(ps.take(0).filter(|s: Seq<char>| s.len() > 0) =~= Seq::<Seq<char>>::empty()) by {
            reveal(Seq::filter);
        }
        for i in 0..parts.len()
            invariant
                parts@.len() == ps.len(),
                forall|q: int| 0 <= q < parts@.len() ==> #[trigger] parts@[q]@ == ps[q],
                strs_view(out@) == head + ps.take(i as int).filter(|s: Seq<char>| s.len() > 0),
        {
            assert(ps.take(i + 1).drop_last() =~= ps.take(i as int));
            proof {
                reveal(Seq::filter);
            }
            let ghost before = strs_view(out@);
            if parts[i].len() > 0 {
                out.push(string_of(parts[i].as_slice()));
                assert(strs_view(out@) =~= before.push(ps[i as int]));
            }
        }
        assert(ps.take(ps.len() as int) =~= ps);
        out
    } else {
        let out = vec![arg.to_string()];
        assert(strs_view(out@) =~= seq![arg@]);
        out
    }
}

/// Expands every `--report-invalid:` shorthand argument.
pub fn preprocess_cli_args(args: &[String]) -> (r: Vec<String>)
    ensures
        strs_view(r@) == expanded_args(strs_view(args@)),
{
    let ghost av = strs_view(args@);
    let mut out: Vec<String> = Vec::new();
    assert(av.take(0) =~= Seq::<Seq<char>>::empty());
    assert(strs_view(out@) =~= Seq::<Seq<char>>::empty());
    for i in 0..args.len()
        invariant
            av == strs_view(args@),
            strs_view(out@) == expanded_args(av.take(i as int)),
    {
        assert(av.take(i + 1).drop_last() =~= av.take(i as int));
        assert(av.take(i + 1).last() == args@[i as int]@);
        let parts = expand_report_invalid(args[i].as_str());
        let ghost before = strs_view(out@);
        for k in 0..parts.len()
            invariant
                strs_view(out@) == before + strs_view(parts@).take(k as int),
        {
            let ghost prev = out@;
            out.push(parts[k].clone());
            assert(strs_view(out@) =~= strs_view(prev).push(parts@[k as int]@));
            assert(strs_view(parts@).take(k + 1) =~= strs_view(parts@).take(k as int).push(
                parts@[k as int]@,
            ));
            assert(strs_view(out@) =~= before + strs_view(parts@).take(k + 1));
        }
        assert(strs_view(parts@).take(parts@.len() as int) =~= strs_view(parts@));
    }
    assert(av.take(args@.len() as int) =~= av);
    out
}

} // verus!
