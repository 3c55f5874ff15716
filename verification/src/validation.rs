//! Checking the cells of a row against their column types, as the schema
//! `verify` command does.
use vstd::prelude::*;

use crate::data::{
    boolean_text, currency_outcome, date_formats, datetime_formats, first_date, first_datetime,
    first_time, fixed_decimal_outcome, float_literal_ok, i64_literal_value, literal_outcome,
    parse_failure, parse_typed_value, parses_i64, strip_braces, time_formats, typed_value_result,
    uuid_value, TypedCell,
};
use crate::schema::{output_name_of, ColumnMeta, ColumnType, Schema};
use crate::text::{lower_seq, trim};

verus! {

/// The message that rejects the non-empty `value` as `ty`, if any.
pub open spec fn typed_value_error(value: Seq<char>, ty: ColumnType) -> Option<Seq<char>> {
    match ty {
        ColumnType::String => None,
        ColumnType::Integer => if parses_i64(value) {
            None
        } else {
            Some(parse_failure(value, "integer"@))
        },
        ColumnType::Float => if float_literal_ok(value) {
            None
        } else {
            Some(parse_failure(value, "float"@))
        },
        ColumnType::Boolean => if boolean_text(lower_seq(value)) is Some {
            None
        } else {
            Some(parse_failure(value, "boolean"@))
        },
        ColumnType::Date => if first_date(value, date_formats()) is Some {
            None
        } else {
            Some(parse_failure(value, "date"@))
        },
        ColumnType::DateTime => if first_datetime(value, datetime_formats()) is Some {
            None
        } else {
            Some(parse_failure(value, "datetime"@))
        },
        ColumnType::Time => if first_time(value, time_formats()) is Some {
            None
        } else {
            Some(parse_failure(value, "time"@))
        },
        ColumnType::Guid => if uuid_value(strip_braces(trim(value))) is Some {
            None
        } else {
            Some(parse_failure(value, "GUID"@))
        },
        ColumnType::Decimal(spec) => match literal_outcome(value, false) {
            Err(e) => Some(e),
            Ok(d) => match fixed_decimal_outcome(d, spec, None) {
                Ok(_) => None,
                Err(e) => Some(e),
            },
        },
        ColumnType::Currency => match literal_outcome(value, true) {
            Err(e) => Some(e),
            Ok(d) => match currency_outcome(d) {
                Ok(_) => None,
                Err(_) => Some("Parsing '"@ + value + "' as currency"@),
            },
        },
    }
}

/// The message that rejects a cell: none for an empty one.
pub open spec fn cell_error(value: Seq<char>, ty: ColumnType) -> Option<Seq<char>> {
    if value.len() == 0 {
        None
    } else {
        typed_value_error(value, ty)
    }
}

/// A decimal type's scale does not exceed its precision.
pub open spec fn decimal_type_sound(ty: ColumnType) -> bool {
    ty matches ColumnType::Decimal(spec) ==> spec.scale <= spec.precision
}

/// Accepts an empty cell, or one that reads as `column_type`.
pub fn validate_value(value: &str, column_type: &ColumnType) -> (r: Result<(), String>)
    requires
        decimal_type_sound(*column_type),
    ensures
        match cell_error(value@, *column_type) {
            None => r is Ok,
            Some(e) => r matches Err(x) && x@ == e,
        },
{
    if value.is_empty() {
        return Ok(());
    }
    let t = parse_typed_value(value, column_type);
    proof {
        assert(typed_value_result(value@, *column_type, t));
    }
    match t {
        Ok(_) => Ok(()),
        Err(e) => Err(e),
    }
}

/// A cell that does not read as its column's type.
#[derive(Debug, Clone)]
pub struct Violation {
    pub column: usize,
    pub raw_value: String,
    pub normalized_value: String,
    pub reason: String,
}

/// The cell at `i`, or nothing past the end of the row.
pub open spec fn cell_at(row: Seq<String>, i: int) -> Seq<char> {
    if 0 <= i < row.len() {
        row[i]@
    } else {
        Seq::empty()
    }
}

/// The violations of the first `n` columns, in column order: a column's
/// normalized cell (after mappings and replacements) is checked, and the
/// cell as read is kept beside it.
pub open spec fn violations_upto(
    cols: Seq<ColumnMeta>,
    decoded: Seq<String>,
    transformed: Seq<String>,
    n: nat,
) -> Seq<(int, Seq<char>, Seq<char>, Seq<char>)>
    decreases n,
{
    if n == 0 {
        Seq::empty()
    } else {
        let prev = violations_upto(cols, decoded, transformed, (n - 1) as nat);
        let i = n - 1;
        match cell_error(cell_at(transformed, i), cols[i].datatype) {
            None => prev,
            Some(e) => prev.push((i, cell_at(decoded, i), cell_at(transformed, i), e)),
        }
    }
}

pub open spec fn violation_view(v: Violation) -> (int, Seq<char>, Seq<char>, Seq<char>) {
    (v.column as int, v.raw_value@, v.normalized_value@, v.reason@)
}

fn cell_or_empty(row: &[String], i: usize) -> (r: &str)
    ensures
        r@ == cell_at(row@, i as int),
{
    if i < row.len() {
        row[i].as_str()
    } else {
        proof {
            reveal_strlit("");
        }
        ""
    }
}

/// The cells of a row that do not read as their column types.
pub fn row_violations(schema: &Schema, decoded: &[String], transformed: &[String]) -> (r: Vec<Violation>)
    requires
        forall|i: int| 0 <= i < schema.columns@.len() ==> decimal_type_sound(#[trigger] schema.columns@[i].datatype),
    ensures
        r@.map_values(|v: Violation| violation_view(v)) == violations_upto(
            schema.columns@,
            decoded@,
            transformed@,
            schema.columns@.len(),
        ),
{
    let mut out: Vec<Violation> = Vec::new();
    for i in 0..schema.columns.len()
        invariant
            forall|k: int| 0 <= k < schema.columns@.len() ==> decimal_type_sound(#[trigger] schema.columns@[k].datatype),
            out@.map_values(|v: Violation| violation_view(v)) == violations_upto(
                schema.columns@,
                decoded@,
                transformed@,
                i as nat,
            ),
    {
        let ghost before = out@;
        let raw = cell_or_empty(decoded, i);
        let normalized = cell_or_empty(transformed, i);
        match validate_value(normalized, &schema.columns[i].datatype) {
            Ok(()) => {},
            Err(reason) => {
                let v = Violation {
                    column: i,
                    raw_value: raw.to_string(),
                    normalized_value: normalized.to_string(),
                    reason,
                };
                out.push(v);
                assert(out@.map_values(|v: Violation| violation_view(v)) =~= before.map_values(
                    |v: Violation| violation_view(v),
                ).push(violation_view(v)));
            },
        }
    }
    out
}

/// Every violation names a column before `n`.
proof fn lemma_violation_columns_bounded(
    cols: Seq<ColumnMeta>,
    decoded: Seq<String>,
    transformed: Seq<String>,
    n: nat,
)
    ensures
        forall|k: int|
            0 <= k < violations_upto(cols, decoded, transformed, n).len() ==> 0 <= (
            #[trigger] violations_upto(cols, decoded, transformed, n)[k]).0 < n,
    decreases n,
{
    if n > 0 {
        lemma_violation_columns_bounded(cols, decoded, transformed, (n - 1) as nat);
        let prev = violations_upto(cols, decoded, transformed, (n - 1) as nat);
        let cur = violations_upto(cols, decoded, transformed, n);
        assert forall|k: int| 0 <= k < cur.len() implies 0 <= (#[trigger] cur[k]).0 < n by {
            if k < prev.len() {
                assert(cur[k] == prev[k]);
            }
        }
    }
}

/// The message that rejects a record while appending: the first cell that
/// does not read as its column's type, by its row and output name.
pub open spec fn record_error(cols: Seq<ColumnMeta>, record: Seq<String>, row_index: nat) -> Option<Seq<char>> {
    let v = violations_upto(cols, record, record, cols.len());
    if v.len() == 0 {
        None
    } else {
        Some(
            "Row "@ + crate::text::nat_to_seq(row_index) + " column '"@ + output_name_of(cols[v[0].0])
                + "': "@ + v[0].3,
        )
    }
}

/// Checks each cell of a record against its column's type; an empty or
/// missing cell passes.
pub fn validate_record(schema: &Schema, record: &[String], row_index: usize) -> (r: Result<(), String>)
    requires
        forall|i: int| 0 <= i < schema.columns@.len() ==> decimal_type_sound(#[trigger] schema.columns@[i].datatype),
    ensures
        match record_error(schema.columns@, record@, row_index as nat) {
            None => r is Ok,
            Some(e) => r matches Err(x) && x@ == e,
        },
{
    let v = row_violations(schema, record, record);
    let ghost vs = violations_upto(schema.columns@, record@, record@, schema.columns@.len());
    if v.len() == 0 {
        assert(vs.len() == 0) by {
            assert(v@.map_values(|x: Violation| violation_view(x)).len() == 0);
        }
        return Ok(());
    }
    proof {
        lemma_violation_columns_bounded(schema.columns@, record@, record@, schema.columns@.len());
        assert(v@.map_values(|x: Violation| violation_view(x))[0] == violation_view(v@[0]));
        assert(vs[0] == violation_view(v@[0]));
    }
    let first = &v[0];
    let name = schema.columns[first.column].output_name();
    let mut m = crate::text::chars_of("Row ");
    crate::text::extend_chars(&mut m, crate::text::usize_to_chars(row_index).as_slice());
    crate::text::extend_chars(&mut m, crate::text::chars_of(" column '").as_slice());
    crate::text::extend_chars(&mut m, crate::text::chars_of(name).as_slice());
    crate::text::extend_chars(&mut m, crate::text::chars_of("': ").as_slice());
    crate::text::extend_chars(&mut m, crate::text::chars_of(first.reason.as_str()).as_slice());
    let r = crate::text::string_of(m.as_slice());
    assert(r@ =~= "Row "@ + crate::text::nat_to_seq(row_index as nat) + " column '"@ + output_name_of(
        schema.columns@[vs[0].0],
    ) + "': "@ + vs[0].3);
    Err(r)
}

/// What `format!("{:?}", s)` writes for a string (quoted and escaped).
pub uninterp spec fn str_debug(s: Seq<char>) -> Seq<char>;

/// Formats a string with `Debug`; the text is named `str_debug`.
#[verifier::external_body]
fn debug_quoted(s: &str) -> (r: String)
    ensures
        r@ == str_debug(s@),
{
    format!("{:?}", s)
}

/// The message that stops verification at the first bad cell: its row,
/// column and value (and the normalized value when it differs), then the
/// reason.
pub open spec fn violation_message(
    row_number: nat,
    column_name: Seq<char>,
    raw: Seq<char>,
    normalized: Seq<char>,
    reason: Seq<char>,
) -> Seq<char> {
    if normalized == raw {
        "Row "@ + crate::text::nat_to_seq(row_number) + " column '"@ + column_name + "': value "@
            + str_debug(raw) + "\nReason: "@ + reason
    } else {
        "Row "@ + crate::text::nat_to_seq(row_number) + " column '"@ + column_name + "': value "@
            + str_debug(raw) + " (normalized "@ + str_debug(normalized) + ")\nReason: "@ + reason
    }
}

pub fn format_violation(row_number: usize, column_name: &str, raw: &str, normalized: &str, reason: &str) -> (r: String)
    ensures
        r@ == violation_message(row_number as nat, column_name@, raw@, normalized@, reason@),
{
    let mut m = crate::text::chars_of("Row ");
    crate::text::extend_chars(&mut m, crate::text::usize_to_chars(row_number).as_slice());
    crate::text::extend_chars(&mut m, crate::text::chars_of(" column '").as_slice());
    crate::text::extend_chars(&mut m, crate::text::chars_of(column_name).as_slice());
    crate::text::extend_chars(&mut m, crate::text::chars_of("': value ").as_slice());
    let rd = debug_quoted(raw);
    crate::text::extend_chars(&mut m, crate::text::chars_of(rd.as_str()).as_slice());
    let same = crate::text::str_eq(normalized, raw);
    if !same {
        crate::text::extend_chars(&mut m, crate::text::chars_of(" (normalized ").as_slice());
        let nd = debug_quoted(normalized);
        crate::text::extend_chars(&mut m, crate::text::chars_of(nd.as_str()).as_slice());
        crate::text::extend_chars(&mut m, crate::text::chars_of(")").as_slice());
    }
    crate::text::extend_chars(&mut m, crate::text::chars_of("\nReason: ").as_slice());
    crate::text::extend_chars(&mut m, crate::text::chars_of(reason).as_slice());
    proof {
        reveal_strlit(")");
        reveal_strlit("\nReason: ");
        reveal_strlit(")\nReason: ");
    }
    assert(")"@ + "\nReason: "@ =~= ")\nReason: "@);
    let r = crate::text::string_of(m.as_slice());
    assert(r@ =~= violation_message(row_number as nat, column_name@, raw@, normalized@, reason@));
    r
}

} // verus!
