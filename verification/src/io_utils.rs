//! Choosing delimiters from file names and character encodings from their
//! labels, and the `-` convention for the standard streams.
use vstd::prelude::*;

use encoding_rs::Encoding;

use crate::text::{lower_seq, trim};

verus! {

/// The delimiter of CSV files.
pub const DEFAULT_CSV_DELIMITER: u8 = 44;

/// The delimiter of TSV files.
pub const DEFAULT_TSV_DELIMITER: u8 = 9;

/// What `std::path::Path::extension` gives for the path, as text.
pub uninterp spec fn path_extension_of(path: Seq<char>) -> Option<Seq<char>>;

/// Whether `Path::new(path) == Path::new("-")` (paths compare by their
/// components).
pub uninterp spec fn path_is_dash(path: Seq<char>) -> bool;

/// Calls `std::path::Path::extension` and reads the extension as text; the
/// result is named `path_extension_of`.
#[verifier::external_body]
fn extension_of(path: &str) -> (r: Option<String>)
    ensures
        match path_extension_of(path@) {
            Some(e) => r matches Some(x) && x@ == e,
            None => r is None,
        },
{
    std::path::Path::new(path).extension().and_then(|e| e.to_str()).map(|e| e.to_string())
}

/// Compares the path with `-` as `std::path::Path` does; the result is
/// named `path_is_dash`.
#[verifier::external_body]
fn path_eq_dash(path: &str) -> (r: bool)
    ensures
        r == path_is_dash(path@),
{
    std::path::Path::new(path) == std::path::Path::new("-")
}

/// Whether the path names the standard stream.
pub fn is_dash(path: &str) -> (r: bool)
    ensures
        r == path_is_dash(path@),
{
    path_eq_dash(path)
}

/// The extension is `tsv` in any case.
pub open spec fn is_tsv(path: Seq<char>) -> bool {
    path_extension_of(path) matches Some(e) && lower_seq(e) == "tsv"@
}

pub open spec fn is_csv(path: Seq<char>) -> bool {
    path_extension_of(path) matches Some(e) && lower_seq(e) == "csv"@
}

fn extension_is(path: &str, lowered: &str) -> (r: bool)
    ensures
        r == (path_extension_of(path@) matches Some(e) && lower_seq(e) == lowered@),
{
    match extension_of(path) {
        Some(e) => {
            let l = crate::text::ascii_lower(crate::text::chars_of(e.as_str()).as_slice());
            crate::text::str_eq_chars(lowered, l.as_slice())
        },
        None => false,
    }
}

/// The delimiter given, else tab for a `.tsv` file and comma otherwise.
pub fn resolve_input_delimiter(path: &str, provided: Option<u8>) -> (r: u8)
    ensures
        r == match provided {
            Some(d) => d,
            None => if is_tsv(path@) {
                DEFAULT_TSV_DELIMITER
            } else {
                DEFAULT_CSV_DELIMITER
            },
        },
{
    match provided {
        Some(d) => d,
        None => {
            if extension_is(path, "tsv") {
                DEFAULT_TSV_DELIMITER
            } else {
                DEFAULT_CSV_DELIMITER
            }
        },
    }
}

/// The delimiter given, else tab for a `.tsv` output and comma for a `.csv`
/// one, else `fallback`.
pub fn resolve_output_delimiter(path: Option<&str>, provided: Option<u8>, fallback: u8) -> (r: u8)
    ensures
        r == match provided {
            Some(d) => d,
            None => match path {
                Some(p) => if is_tsv(p@) {
                    DEFAULT_TSV_DELIMITER
                } else if is_csv(p@) {
                    DEFAULT_CSV_DELIMITER
                } else {
                    fallback
                },
                None => fallback,
            },
        },
{
    if let Some(d) = provided {
        return d;
    }
    if let Some(p) = path {
        if extension_is(p, "tsv") {
            return DEFAULT_TSV_DELIMITER;
        }
        if extension_is(p, "csv") {
            return DEFAULT_CSV_DELIMITER;
        }
    }
    fallback
}

// ---------------------------------------------------------------------------
// Character encodings
// ---------------------------------------------------------------------------

#[verifier::external_type_specification]
#[verifier::external_body]
pub struct ExEncoding(encoding_rs::Encoding);

/// What `encoding_rs::Encoding::for_label` finds for the label.
pub uninterp spec fn encoding_found(label: Seq<char>) -> Option<&'static Encoding>;

/// Calls `encoding_rs::Encoding::for_label` on the label's bytes. By the
/// crate's source it looks the label up, ASCII letters in any case and ASCII
/// whitespace around it ignored, in the fixed table of the WHATWG Encoding
/// Standard; the result is named `encoding_found`.
#[verifier::external_body]
fn encoding_for_label(label: &str) -> (r: Option<&'static Encoding>)
    ensures
        r == encoding_found(label@),
{
    Encoding::for_label(label.as_bytes())
}

/// The `encoding_rs::UTF_8` encoding: the one `for_label` finds for
/// `utf-8`.
#[verifier::external_body]
fn utf8_encoding() -> (r: &'static Encoding)
    ensures
        encoding_found("utf-8"@) == Some(r),
{
    encoding_rs::UTF_8
}

/// The message for a label that names no encoding.
pub open spec fn unknown_encoding_message(label: Seq<char>) -> Seq<char> {
    "Unknown encoding '"@ + label + "'"@
}

/// The encoding a label names (its surrounding whitespace ignored); UTF-8
/// when no label is given.
pub fn resolve_encoding(label: Option<&str>) -> (r: Result<&'static Encoding, String>)
    ensures
        match label {
            None => r matches Ok(e) && encoding_found("utf-8"@) == Some(e),
            Some(v) => match encoding_found(trim(v@)) {
                Some(e) => r == Ok::<&'static Encoding, String>(e),
                None => r matches Err(m) && m@ == unknown_encoding_message(v@),
            },
        },
{
    match label {
        None => Ok(utf8_encoding()),
        Some(v) => {
            let t = crate::text::string_of(crate::text::trim_str(v).as_slice());
            match encoding_for_label(t.as_str()) {
                Some(e) => Ok(e),
                None => {
                    let r = crate::text::cat3("Unknown encoding '", crate::text::chars_of(v).as_slice(), "'");
                    Err(r)
                },
            }
        },
    }
}

} // verus!
