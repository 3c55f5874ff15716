//! String transformations on cell values: case changes, trimming, identifier
//! case conventions and character-indexed substrings.
use vstd::prelude::*;

use std::borrow::Cow;

use heck::{ToLowerCamelCase, ToSnakeCase, ToUpperCamelCase};
use vstd::string::StrSliceExecFns;

use crate::text::{chars_of, string_of, trim_str};

verus! {

/// Whether `char::is_uppercase` holds of `c` (the Unicode `Uppercase`
/// property).
pub uninterp spec fn unicode_is_uppercase(c: char) -> bool;

/// Whether `char::is_lowercase` holds of `c` (the Unicode `Lowercase`
/// property).
pub uninterp spec fn unicode_is_lowercase(c: char) -> bool;

/// What `str::to_lowercase` returns (full Unicode case mapping).
pub uninterp spec fn unicode_to_lowercase(s: Seq<char>) -> Seq<char>;

/// What `str::to_uppercase` returns (full Unicode case mapping).
pub uninterp spec fn unicode_to_uppercase(s: Seq<char>) -> Seq<char>;

/// What `heck::ToSnakeCase::to_snake_case` returns.
pub uninterp spec fn heck_snake_case(s: Seq<char>) -> Seq<char>;

/// What `heck::ToLowerCamelCase::to_lower_camel_case` returns.
pub uninterp spec fn heck_lower_camel_case(s: Seq<char>) -> Seq<char>;

/// What `heck::ToUpperCamelCase::to_upper_camel_case` returns.
pub uninterp spec fn heck_upper_camel_case(s: Seq<char>) -> Seq<char>;

/// Calls `char::is_uppercase`; the result is named `unicode_is_uppercase`.
#[verifier::external_body]
fn is_uppercase_char(c: char) -> (r: bool)
    ensures
        r == unicode_is_uppercase(c),
{
    c.is_uppercase()
}

/// Calls `char::is_lowercase`; the result is named `unicode_is_lowercase`.
#[verifier::external_body]
fn is_lowercase_char(c: char) -> (r: bool)
    ensures
        r == unicode_is_lowercase(c),
{
    c.is_lowercase()
}

/// Calls `str::to_lowercase`; the result is named `unicode_to_lowercase`.
#[verifier::external_body]
fn to_lowercase_str(s: &str) -> (r: String)
    ensures
        r@ == unicode_to_lowercase(s@),
{
    s.to_lowercase()
}

/// Calls `str::to_uppercase`; the result is named `unicode_to_uppercase`.
#[verifier::external_body]
fn to_uppercase_str(s: &str) -> (r: String)
    ensures
        r@ == unicode_to_uppercase(s@),
{
    s.to_uppercase()
}

/// Calls `heck::ToSnakeCase::to_snake_case`; the result is named
/// `heck_snake_case`.
#[verifier::external_body]
fn heck_snake(s: &str) -> (r: String)
    ensures
        r@ == heck_snake_case(s@),
{
    s.to_snake_case()
}

/// Calls `heck::ToLowerCamelCase::to_lower_camel_case`; the result is named
/// `heck_lower_camel_case`.
#[verifier::external_body]
fn heck_lower_camel(s: &str) -> (r: String)
    ensures
        r@ == heck_lower_camel_case(s@),
{
    s.to_lower_camel_case()
}

/// Calls `heck::ToUpperCamelCase::to_upper_camel_case`; the result is named
/// `heck_upper_camel_case`.
#[verifier::external_body]
fn heck_upper_camel(s: &str) -> (r: String)
    ensures
        r@ == heck_upper_camel_case(s@),
{
    s.to_upper_camel_case()
}

/// No character of the text is uppercase.
pub open spec fn none_uppercase(s: Seq<char>) -> bool {
    forall|i: int| 0 <= i < s.len() ==> !unicode_is_uppercase(#[trigger] s[i])
}

/// No character of the text is lowercase.
pub open spec fn none_lowercase(s: Seq<char>) -> bool {
    forall|i: int| 0 <= i < s.len() ==> !unicode_is_lowercase(#[trigger] s[i])
}

/// The value itself, borrowed, when no character is uppercase; else its
/// lowercase form.
pub fn lowercase(input: &str) -> (r: Cow<'_, str>)
    ensures
        r is Borrowed <==> none_uppercase(input@),
        r@ == if none_uppercase(input@) {
            input@
        } else {
            unicode_to_lowercase(input@)
        },
{
    let cs = chars_of(input);
    let mut none_upper = true;
    for i in 0..cs.len()
        invariant
            cs@ == input@,
            none_upper == forall|j: int| 0 <= j < i ==> !unicode_is_uppercase(#[trigger] cs@[j]),
    {
        if is_uppercase_char(cs[i]) {
            none_upper = false;
        }
    }
    if none_upper {
        Cow::Borrowed(input)
    } else {
        Cow::Owned(to_lowercase_str(input))
    }
}

/// The value itself, borrowed, when no character is lowercase; else its
/// uppercase form.
pub fn uppercase(input: &str) -> (r: Cow<'_, str>)
    ensures
        r is Borrowed <==> none_lowercase(input@),
        r@ == if none_lowercase(input@) {
            input@
        } else {
            unicode_to_uppercase(input@)
        },
{
    let cs = chars_of(input);
    let mut none_lower = true;
    for i in 0..cs.len()
        invariant
            cs@ == input@,
            none_lower == forall|j: int| 0 <= j < i ==> !unicode_is_lowercase(#[trigger] cs@[j]),
    {
        if is_lowercase_char(cs[i]) {
            none_lower = false;
        }
    }
    if none_lower {
        Cow::Borrowed(input)
    } else {
        Cow::Owned(to_uppercase_str(input))
    }
}

/// The value without leading and trailing whitespace, always borrowed from
/// the value.
pub fn trim(input: &str) -> (r: Cow<'_, str>)
    ensures
        r is Borrowed,
        r@ == crate::text::trim(input@),
{
    let cs = chars_of(input);
    let (a, b) = crate::text::trim_bounds(cs.as_slice());
    Cow::Borrowed(input.substring_char(a, b))
}

/// The value in `snake_case`; the value itself, borrowed, when it already
/// is.
pub fn snake_case(input: &str) -> (r: Cow<'_, str>)
    ensures
        r@ == heck_snake_case(input@),
        r is Borrowed <==> heck_snake_case(input@) == input@,
{
    let converted = heck_snake(input);
    if crate::text::str_eq(converted.as_str(), input) {
        Cow::Borrowed(input)
    } else {
        Cow::Owned(converted)
    }
}

/// The value in `camelCase`; the value itself, borrowed, when it already is.
pub fn camel_case(input: &str) -> (r: Cow<'_, str>)
    ensures
        r@ == heck_lower_camel_case(input@),
        r is Borrowed <==> heck_lower_camel_case(input@) == input@,
{
    let converted = heck_lower_camel(input);
    if crate::text::str_eq(converted.as_str(), input) {
        Cow::Borrowed(input)
    } else {
        Cow::Owned(converted)
    }
}

/// The value in `PascalCase`; the value itself, borrowed, when it already
/// is.
pub fn pascal_case(input: &str) -> (r: Cow<'_, str>)
    ensures
        r@ == heck_upper_camel_case(input@),
        r is Borrowed <==> heck_upper_camel_case(input@) == input@,
{
    let converted = heck_upper_camel(input);
    if crate::text::str_eq(converted.as_str(), input) {
        Cow::Borrowed(input)
    } else {
        Cow::Owned(converted)
    }
}

/// The characters from index `start`, at most `length` of them.
pub open spec fn char_substring(value: Seq<char>, start: usize, length: usize) -> Seq<char> {
    let end: int = if start + length > usize::MAX {
        usize::MAX as int
    } else {
        start + length
    };
    if length == 0 || start >= value.len() {
        Seq::empty()
    } else if end >= value.len() {
        value.subrange(start as int, value.len() as int)
    } else {
        value.subrange(start as int, end)
    }
}

/// The characters from index `start`, at most `length` of them; a
/// non-empty result is borrowed from the value.
pub fn substring<'a>(value: &'a str, start: usize, length: usize) -> (r: Cow<'a, str>)
    ensures
        r@ == char_substring(value@, start, length),
        r is Borrowed <==> char_substring(value@, start, length).len() > 0,
{
    let n = value.unicode_len();
    if length == 0 || start >= n {
        return Cow::Owned(String::new());
    }
    let end: usize = match start.checked_add(length) {
        Some(e) => e,
        None => usize::MAX,
    };
    let stop: usize = if end >= n {
        n
    } else {
        end
    };
    Cow::Borrowed(value.substring_char(start, stop))
}

/// Declares `regex::Regex` so that it can stand in a field; a compiled
/// pattern is opaque here.
#[verifier::external_type_specification]
#[verifier::external_body]
pub struct ExRegex(regex::Regex);

/// What `regex::Regex::new` says of a pattern text: `None` when it
/// compiles, else the text of its error.
pub uninterp spec fn regex_compile_error(pattern: Seq<char>) -> Option<Seq<char>>;

/// What `regex::Regex::is_match` returns for the regex compiled from the
/// pattern text by `Regex::new`.
pub uninterp spec fn regex_matches(pattern: Seq<char>, value: Seq<char>) -> bool;

/// What `regex::Regex::replace_all` gives for the regex compiled from the
/// pattern text by `Regex::new`.
pub uninterp spec fn regex_replaced(pattern: Seq<char>, value: Seq<char>, replacement: Seq<char>) -> Seq<char>;

/// Calls `regex::Regex::new` with the default options and renders its
/// error with `Display`; the outcome is named `regex_compile_error`.
#[verifier::external_body]
fn regex_compile(pattern: &str) -> (r: Result<regex::Regex, String>)
    ensures
        match regex_compile_error(pattern@) {
            None => r is Ok,
            Some(m) => r matches Err(e) && e@ == m,
        },
{
    regex::Regex::new(pattern).map_err(|e| e.to_string())
}

/// A regular expression held with the text it was compiled from; it is
/// only ever built by `TextPattern::new`, so the compiled form is the one
/// `Regex::new` gives for that text.
pub struct TextPattern {
    source: String,
    compiled: regex::Regex,
}

/// Calls `regex::Regex::is_match` on the pattern's compiled form; the
/// result is named `regex_matches` of the pattern's text.
#[verifier::external_body]
fn pattern_is_match(pattern: &TextPattern, value: &str) -> (r: bool)
    ensures
        r == regex_matches(pattern.source_view(), value@),
{
    pattern.compiled.is_match(value)
}

/// Calls `regex::Regex::replace_all` on the pattern's compiled form and
/// takes the text out of the `Cow` it returns; the text is named
/// `regex_replaced` of the pattern's text.
#[verifier::external_body]
fn pattern_replace_all(pattern: &TextPattern, value: &str, replacement: &str) -> (r: String)
    ensures
        r@ == regex_replaced(pattern.source_view(), value@, replacement@),
{
    pattern.compiled.replace_all(value, replacement).into_owned()
}

impl TextPattern {
    /// The text the pattern was compiled from.
    pub closed spec fn source_view(&self) -> Seq<char> {
        self.source@
    }

    /// Compiles a pattern text, or gives the error `regex` reports.
    pub fn new(pattern: &str) -> (r: Result<TextPattern, String>)
        ensures
            match regex_compile_error(pattern@) {
                None => r matches Ok(p) && p.source_view() == pattern@,
                Some(m) => r matches Err(e) && e@ == m,
            },
    {
        match regex_compile(pattern) {
            Ok(compiled) => Ok(TextPattern { source: pattern.to_string(), compiled }),
            Err(e) => Err(e),
        }
    }

    /// The text the pattern was compiled from.
    pub fn as_str(&self) -> (r: &str)
        ensures
            r@ == self.source_view(),
    {
        self.source.as_str()
    }
}

/// Replaces every match of the pattern in `value` by `replacement`; the
/// value itself is returned, borrowed, when the pattern does not match.
pub fn regex_replace<'a>(value: &'a str, regex: &TextPattern, replacement: &str) -> (r: Cow<'a, str>)
    ensures
        r is Borrowed <==> !regex_matches(regex.source_view(), value@),
        r@ == if regex_matches(regex.source_view(), value@) {
            regex_replaced(regex.source_view(), value@, replacement@)
        } else {
            value@
        },
{
    if pattern_is_match(regex, value) {
        Cow::Owned(pattern_replace_all(regex, value, replacement))
    } else {
        Cow::Borrowed(value)
    }
}

} // verus!
