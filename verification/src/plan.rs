//! The shape of the `process` command's output: which input column each
//! header resolves to, the sort plan, the output fields and the schema
//! that describes the output.
use vstd::prelude::*;

use crate::cli::BooleanFormat;
use crate::commands::{key_parts, list_parts, SortDirective};
use crate::index::{best_upto, directives_view, is_first_named, prefix_matches, CsvIndex, IndexVariant, SortDirection};
use crate::data::TypedCell;
use crate::derive::DerivedColumn;
use crate::header::strs_view;
use crate::schema::{first_column_named, output_name_of, ColumnMeta, ColumnType, Schema};
use crate::text::{cat3, chars_of, str_eq};

verus! {

// ---------------------------------------------------------------------------
// Resolving names to input columns
// ---------------------------------------------------------------------------

/// Whether input column `i` is known under `name`: its header, or the
/// non-empty rename of the schema column at the same position.
pub open spec fn key_names_column(
    headers: Seq<Seq<char>>,
    cols: Seq<ColumnMeta>,
    i: int,
    name: Seq<char>,
) -> bool {
    headers[i] == name || (i < cols.len() && (cols[i].rename matches Some(r) && r@.len() > 0 && r@
        == name))
}

/// The last of the first `n` input columns known under `name` (later
/// columns take a name over from earlier ones).
pub open spec fn last_key_match(
    headers: Seq<Seq<char>>,
    cols: Seq<ColumnMeta>,
    name: Seq<char>,
    n: nat,
) -> Option<nat>
    decreases n,
{
    if n == 0 {
        None
    } else if key_names_column(headers, cols, n - 1, name) {
        Some((n - 1) as nat)
    } else {
        last_key_match(headers, cols, name, (n - 1) as nat)
    }
}

/// The input column a name resolves to.
pub open spec fn column_key(headers: Seq<Seq<char>>, cols: Seq<ColumnMeta>, name: Seq<char>) -> Option<
    nat,
> {
    last_key_match(headers, cols, name, headers.len())
}

proof fn lemma_last_key_match_step(
    headers: Seq<Seq<char>>,
    cols: Seq<ColumnMeta>,
    name: Seq<char>,
    i: nat,
)
    requires
        i < headers.len(),
    ensures
        last_key_match(headers, cols, name, i + 1) == (if key_names_column(headers, cols, i as int, name) {
            Some(i)
        } else {
            last_key_match(headers, cols, name, i)
        }),
{
}

proof fn lemma_last_key_match_bound(
    headers: Seq<Seq<char>>,
    cols: Seq<ColumnMeta>,
    name: Seq<char>,
    n: nat,
)
    ensures
        last_key_match(headers, cols, name, n) matches Some(i) ==> i < n,
    decreases n,
{
    if n > 0 {
        lemma_last_key_match_bound(headers, cols, name, (n - 1) as nat);
    }
}

/// The input column a name resolves to: the last column whose header, or
/// the non-empty rename of the schema column at its position, is the name.
pub fn resolve_column_key(headers: &[String], schema: &Schema, name: &str) -> (r: Option<usize>)
    ensures
        r matches Some(i) ==> column_key(strs_view(headers@), schema.columns@, name@) == Some(i as nat)
            && i < headers@.len(),
        r is None ==> column_key(strs_view(headers@), schema.columns@, name@) is None,
{
    let ghost hv = strs_view(headers@);
    let ghost cs = schema.columns@;
    let mut found: Option<usize> = None;
    for i in 0..headers.len()
        invariant
            hv == strs_view(headers@),
            cs == schema.columns@,
            found matches Some(k) ==> last_key_match(hv, cs, name@, i as nat) == Some(k as nat) && k < i,
            found is None ==> last_key_match(hv, cs, name@, i as nat) is None,
    {
        proof {
            lemma_last_key_match_step(hv, cs, name@, i as nat);
        }
        let mut hit = str_eq(headers[i].as_str(), name);
        if !hit && i < schema.columns.len() {
            match &schema.columns[i].rename {
                Some(r) => {
                    hit = !r.as_str().is_empty() && str_eq(r.as_str(), name);
                },
                None => {},
            }
        }
        if hit {
            found = Some(i);
        }
    }
    found
}

/// Fills an empty schema with a string column per header; otherwise the
/// headers must match the schema.
pub fn reconcile_schema_with_headers(schema: &mut Schema, headers: &[String]) -> (r: Result<(), String>)
    ensures
        old(schema).columns@.len() == 0 ==> (r is Ok && final(schema).columns@.len() == headers@.len()
            && (forall|i: int|
            0 <= i < headers@.len() ==> crate::schema::plain_column(
                #[trigger] final(schema).columns@[i],
                headers@[i]@,
            )) && final(schema).schema_version == old(schema).schema_version
            && final(schema).has_headers == old(schema).has_headers),
        old(schema).columns@.len() > 0 ==> *final(schema) == *old(schema) && match crate::schema::headers_check(
            *old(schema),
            strs_view(headers@),
        ) {
            Some(e) => r matches Err(x) && x@ == e,
            None => r is Ok,
        },
{
    if schema.columns.len() == 0 {
        let fresh = Schema::from_headers(headers);
        schema.columns = fresh.columns;
        return Ok(());
    }
    schema.validate_headers(headers)
}

// ---------------------------------------------------------------------------
// Sort plan
// ---------------------------------------------------------------------------

/// A sort key resolved to an input column.
#[derive(Debug, Clone, Copy, PartialEq, Eq, Structural)]
pub struct SortInstruction {
    pub index: usize,
    pub ascending: bool,
}

/// The input column a sort key names: through the header map, else
/// through the schema's names.
pub open spec fn sort_key_index(
    headers: Seq<Seq<char>>,
    cols: Seq<ColumnMeta>,
    name: Seq<char>,
) -> Option<int> {
    match column_key(headers, cols, name) {
        Some(i) => Some(i as int),
        None => first_column_named(cols, name),
    }
}

/// The sort plan for the directives, or the message for the first key
/// that names no column.
pub open spec fn sort_plan(
    headers: Seq<Seq<char>>,
    cols: Seq<ColumnMeta>,
    directives: Seq<SortDirective>,
) -> Result<Seq<SortInstruction>, Seq<char>>
    decreases directives.len(),
{
    if directives.len() == 0 {
        Ok(Seq::empty())
    } else {
        match sort_plan(headers, cols, directives.drop_last()) {
            Err(e) => Err(e),
            Ok(v) => {
                let d = directives.last();
                match sort_key_index(headers, cols, d.column@) {
                    Some(i) => Ok(v.push(SortInstruction { index: i as usize, ascending: d.ascending })),
                    None => Err("Sort column '"@ + d.column@ + "' not found"@),
                }
            },
        }
    }
}

proof fn lemma_sort_plan_err_extends(
    headers: Seq<Seq<char>>,
    cols: Seq<ColumnMeta>,
    ds: Seq<SortDirective>,
    k: int,
)
    requires
        0 <= k <= ds.len(),
        sort_plan(headers, cols, ds.take(k)) is Err,
    ensures
        sort_plan(headers, cols, ds) == sort_plan(headers, cols, ds.take(k)),
    decreases ds.len() - k,
{
    if k < ds.len() {
        assert(ds.take(k + 1).drop_last() =~= ds.take(k));
        lemma_sort_plan_err_extends(headers, cols, ds, k + 1);
    } else {
        assert(ds.take(k) =~= ds);
    }
}

/// Resolves each sort directive to an input column.
pub fn build_sort_plan(directives: &[SortDirective], schema: &Schema, headers: &[String]) -> (r: Result<
    Vec<SortInstruction>,
    String,
>)
    ensures
        match sort_plan(strs_view(headers@), schema.columns@, directives@) {
            Ok(v) => r matches Ok(x) && x@ == v,
            Err(e) => r matches Err(x) && x@ == e,
        },
{
    let ghost hv = strs_view(headers@);
    let ghost ds = directives@;
    let mut out: Vec<SortInstruction> = Vec::new();
    assert(ds.take(0) =~= Seq::<SortDirective>::empty());
    for k in 0..directives.len()
        invariant
            hv == strs_view(headers@),
            ds == directives@,
            sort_plan(hv, schema.columns@, ds.take(k as int)) == Ok::<Seq<SortInstruction>, Seq<char>>(out@),
    {
        assert(ds.take(k + 1).drop_last() =~= ds.take(k as int));
        assert(ds.take(k + 1).last() == ds[k as int]);
        let d = &directives[k];
        let idx = match resolve_column_key(headers, schema, d.column.as_str()) {
            Some(i) => Some(i),
            None => schema.column_index(d.column.as_str()),
        };
        match idx {
            Some(i) => {
                out.push(SortInstruction { index: i, ascending: d.ascending });
            },
            None => {
                proof {
                    lemma_sort_plan_err_extends(hv, schema.columns@, ds, k + 1);
                }
                let c = chars_of(d.column.as_str());
                return Err(cat3("Sort column '", c.as_slice(), "' not found"));
            },
        }
    }
    assert(ds.take(ds.len() as int) =~= ds);
    Ok(out)
}

// ---------------------------------------------------------------------------
// Output plan
// ---------------------------------------------------------------------------

/// Where an output column's value comes from.
#[derive(Debug, Clone, Copy, PartialEq, Eq, Structural)]
pub enum OutputField {
    RowNumber,
    ExistingColumn(usize),
    Derived(usize),
}

/// Every field names an existing column or a derived column that exists.
pub open spec fn fields_in_bounds(fields: Seq<OutputField>, ncols: nat, nderived: nat) -> bool {
    forall|i: int|
        0 <= i < fields.len() ==> match #[trigger] fields[i] {
            OutputField::ExistingColumn(k) => k < ncols,
            OutputField::Derived(k) => k < nderived,
            OutputField::RowNumber => true,
        }
}

/// The output's headers and fields, and how booleans are written.
#[derive(Debug, Clone)]
pub struct OutputPlan {
    pub headers: Vec<String>,
    pub fields: Vec<OutputField>,
    pub boolean_format: BooleanFormat,
}

/// The selected columns resolved to output fields and headers, or the
/// message for the first that resolves to none.
pub open spec fn selected_fields(
    headers: Seq<Seq<char>>,
    cols: Seq<ColumnMeta>,
    names: Seq<Seq<char>>,
) -> Result<(Seq<OutputField>, Seq<Seq<char>>), Seq<char>>
    decreases names.len(),
{
    if names.len() == 0 {
        Ok((Seq::empty(), Seq::empty()))
    } else {
        match selected_fields(headers, cols, names.drop_last()) {
            Err(e) => Err(e),
            Ok((fs, hs)) => {
                let n = names.last();
                match column_key(headers, cols, n) {
                    Some(i) => Ok(
                        (fs.push(OutputField::ExistingColumn(i as usize)), hs.push(output_name_of(cols[i as int]))),
                    ),
                    None => Err("Requested column '"@ + n + "' not found"@),
                }
            },
        }
    }
}

pub open spec fn derived_names(derived: Seq<DerivedColumn>) -> Seq<Seq<char>> {
    derived.map_values(|d: DerivedColumn| d.name@)
}

pub open spec fn derived_fields(n: nat) -> Seq<OutputField> {
    Seq::new(n, |i: int| OutputField::Derived(i as usize))
}

/// The whole plan: the row number first when asked for, then the selected
/// columns (all headers when none is selected), then the derived columns.
pub open spec fn output_plan(
    headers: Seq<Seq<char>>,
    cols: Seq<ColumnMeta>,
    selected: Seq<Seq<char>>,
    derived: Seq<DerivedColumn>,
    row_numbers: bool,
) -> Result<(Seq<OutputField>, Seq<Seq<char>>), Seq<char>> {
    let names = if selected.len() == 0 {
        headers
    } else {
        selected
    };
    let f0: Seq<OutputField> = if row_numbers {
        seq![OutputField::RowNumber]
    } else {
        Seq::empty()
    };
    let h0: Seq<Seq<char>> = if row_numbers {
        seq!["row_number"@]
    } else {
        Seq::empty()
    };
    match selected_fields(headers, cols, names) {
        Err(e) => Err(e),
        Ok((fs, hs)) => Ok((f0 + fs + derived_fields(derived.len()), h0 + hs + derived_names(derived))),
    }
}

proof fn lemma_selected_err_extends(
    headers: Seq<Seq<char>>,
    cols: Seq<ColumnMeta>,
    names: Seq<Seq<char>>,
    k: int,
)
    requires
        0 <= k <= names.len(),
        selected_fields(headers, cols, names.take(k)) is Err,
    ensures
        selected_fields(headers, cols, names) == selected_fields(headers, cols, names.take(k)),
    decreases names.len() - k,
{
    if k < names.len() {
        assert(names.take(k + 1).drop_last() =~= names.take(k));
        lemma_selected_err_extends(headers, cols, names, k + 1);
    } else {
        assert(names.take(k) =~= names);
    }
}

impl OutputPlan {
    /// Builds the plan; a selected column must resolve through the header
    /// map.
    pub fn new(
        headers: &[String],
        schema: &Schema,
        selected_columns: &[String],
        derived: &[DerivedColumn],
        row_numbers: bool,
        boolean_format: BooleanFormat,
    ) -> (r: Result<OutputPlan, String>)
        requires
            headers@.len() <= schema.columns@.len(),
        ensures
            match output_plan(
                strs_view(headers@),
                schema.columns@,
                strs_view(selected_columns@),
                derived@,
                row_numbers,
            ) {
                Ok((fs, hs)) => r matches Ok(p) && p.fields@ == fs && strs_view(p.headers@) == hs
                    && p.boolean_format == boolean_format,
                Err(e) => r matches Err(x) && x@ == e,
            },
            r matches Ok(p) ==> fields_in_bounds(p.fields@, schema.columns@.len(), derived@.len()),
    {
        let ghost hv = strs_view(headers@);
        let ghost cs = schema.columns@;
        let mut fields: Vec<OutputField> = Vec::new();
        let mut output_headers: Vec<String> = Vec::new();
        if row_numbers {
            fields.push(OutputField::RowNumber);
            output_headers.push("row_number".to_string());
        }
        let ghost f0 = fields@;
        let ghost h0 = strs_view(output_headers@);
        let names: &[String] = if selected_columns.len() == 0 {
            headers
        } else {
            selected_columns
        };
        let ghost nv = strs_view(names@);
        assert(nv.take(0) =~= Seq::<Seq<char>>::empty());
        assert(f0 + Seq::<OutputField>::empty() =~= f0);
        assert(h0 + Seq::<Seq<char>>::empty() =~= h0);
        for k in 0..names.len()
            invariant
                hv == strs_view(headers@),
                cs == schema.columns@,
                nv == strs_view(names@),
                nv == (if strs_view(selected_columns@).len() == 0 {
                    hv
                } else {
                    strs_view(selected_columns@)
                }),
                headers@.len() <= cs.len(),
                fields_in_bounds(fields@, cs.len(), derived@.len()),
                selected_fields(hv, cs, nv.take(k as int)) matches Ok((fs, hs)) && fields@ == f0 + fs
                    && strs_view(output_headers@) == h0 + hs,
        {
            assert(nv.take(k + 1).drop_last() =~= nv.take(k as int));
            assert(nv.take(k + 1).last() == names@[k as int]@);
            match resolve_column_key(headers, schema, names[k].as_str()) {
                Some(idx) => {
                    let ghost hb = output_headers@;
                    fields.push(OutputField::ExistingColumn(idx));
                    let nm = schema.columns[idx].output_name().to_string();
                    assert(nm@ == output_name_of(cs[idx as int]));
                    output_headers.push(nm);
                    proof {
                        if let Ok((fs, hs)) = selected_fields(hv, cs, nv.take(k as int)) {
                            assert(fields@ =~= f0 + fs.push(OutputField::ExistingColumn(idx)));
                            assert(output_headers@ =~= hb.push(nm));
                            assert(strs_view(output_headers@) =~= strs_view(hb).push(nm@));
                            assert(strs_view(output_headers@) =~= h0 + hs.push(output_name_of(cs[idx as int])));
                        }
                    }
                },
                None => {
                    proof {
                        lemma_selected_err_extends(hv, cs, nv, k + 1);
                    }
                    let c = chars_of(names[k].as_str());
                    return Err(cat3("Requested column '", c.as_slice(), "' not found"));
                },
            }
        }
        assert(nv.take(nv.len() as int) =~= nv);
        let ghost f1 = fields@;
        let ghost h1 = strs_view(output_headers@);
        for i in 0..derived.len()
            invariant
                fields_in_bounds(fields@, schema.columns@.len(), derived@.len()),
                fields@ == f1 + derived_fields(i as nat),
                strs_view(output_headers@) == h1 + derived_names(derived@.take(i as int)),
        {
            let ghost hb = output_headers@;
            fields.push(OutputField::Derived(i));
            let nm = derived[i].name.clone();
            assert(nm@ == derived@[i as int].name@);
            output_headers.push(nm);
            assert(fields@ =~= f1 + derived_fields((i + 1) as nat));
            assert(derived@.take(i + 1) =~= derived@.take(i as int).push(derived@[i as int]));
            assert(derived_names(derived@.take(i + 1)) =~= derived_names(derived@.take(i as int)).push(nm@));
            assert(output_headers@ =~= hb.push(nm));
            assert(strs_view(output_headers@) =~= strs_view(hb).push(nm@));
            assert(strs_view(output_headers@) =~= h1 + derived_names(derived@.take(i + 1)));
        }
        assert(derived@.take(derived@.len() as int) =~= derived@);
        proof {
            reveal_strlit("row_number");
            if let Ok((fs, hs)) = selected_fields(hv, cs, nv) {
                assert(fields@ =~= f0 + fs + derived_fields(derived@.len()));
                assert(strs_view(output_headers@) =~= h0 + hs + derived_names(derived@));
            }
            if row_numbers {
                assert(h0 =~= seq!["row_number"@]);
            } else {
                assert(h0 =~= Seq::<Seq<char>>::empty());
            }
        }
        Ok(OutputPlan { headers: output_headers, fields, boolean_format })
    }

    pub fn headers(&self) -> (r: &[String])
        ensures
            r@ == self.headers@,
    {
        self.headers.as_slice()
    }

    /// A cell as written: booleans in the chosen format, anything else as
    /// read.
    pub fn format_existing_value(&self, raw: &str, typed: Option<&TypedCell>) -> (r: String)
        ensures
            r@ == (match (self.boolean_format, typed) {
                (BooleanFormat::TrueFalse, Some(TypedCell::Boolean(b))) => if *b {
                    "true"@
                } else {
                    "false"@
                },
                (BooleanFormat::OneZero, Some(TypedCell::Boolean(b))) => if *b {
                    "1"@
                } else {
                    "0"@
                },
                _ => raw@,
            }),
    {
        match (self.boolean_format, typed) {
            (BooleanFormat::TrueFalse, Some(TypedCell::Boolean(b))) => if *b {
                "true".to_string()
            } else {
                "false".to_string()
            },
            (BooleanFormat::OneZero, Some(TypedCell::Boolean(b))) => if *b {
                "1".to_string()
            } else {
                "0".to_string()
            },
            _ => raw.to_string(),
        }
    }

    /// The schema columns that describe the output: the row number as an
    /// integer, each existing column under its output name and type, each
    /// derived column as a string; none with renames, replacements or
    /// mappings.
    pub fn describe_columns(&self, schema: &Schema, derived: &[DerivedColumn]) -> (r: Vec<ColumnMeta>)
        requires
            fields_in_bounds(self.fields@, schema.columns@.len(), derived@.len()),
        ensures
            r@.len() == self.fields@.len(),
            forall|i: int| 0 <= i < r@.len() ==> described_column(#[trigger] r@[i], self.fields@[i], schema.columns@, derived@),
    {
        let mut columns: Vec<ColumnMeta> = Vec::new();
        for i in 0..self.fields.len()
            invariant
                columns@.len() == i,
                fields_in_bounds(self.fields@, schema.columns@.len(), derived@.len()),
                forall|j: int| 0 <= j < i ==> described_column(#[trigger] columns@[j], self.fields@[j], schema.columns@, derived@),
        {
            let c = match self.fields[i] {
                OutputField::RowNumber => ColumnMeta {
                    name: "row_number".to_string(),
                    datatype: ColumnType::Integer,
                    rename: None,
                    value_replacements: Vec::new(),
                    datatype_mappings: Vec::new(),
                },
                OutputField::ExistingColumn(k) => {
                    let source = &schema.columns[k];
                    ColumnMeta {
                        name: source.output_name().to_string(),
                        datatype: source.datatype,
                        rename: None,
                        value_replacements: Vec::new(),
                        datatype_mappings: Vec::new(),
                    }
                },
                OutputField::Derived(k) => ColumnMeta {
                    name: derived[k].name.clone(),
                    datatype: ColumnType::String,
                    rename: None,
                    value_replacements: Vec::new(),
                    datatype_mappings: Vec::new(),
                },
            };
            proof {
                reveal_strlit("row_number");
            }
            columns.push(c);
        }
        columns
    }
}

/// What describes output field `f`.
pub open spec fn described_column(
    c: ColumnMeta,
    f: OutputField,
    cols: Seq<ColumnMeta>,
    derived: Seq<DerivedColumn>,
) -> bool {
    &&& c.rename is None
    &&& c.value_replacements@.len() == 0
    &&& c.datatype_mappings@.len() == 0
    &&& match f {
        OutputField::RowNumber => c.name@ == "row_number"@ && c.datatype == ColumnType::Integer,
        OutputField::ExistingColumn(k) => c.name@ == output_name_of(cols[k as int]) && c.datatype
            == cols[k as int].datatype,
        OutputField::Derived(k) => c.name@ == derived[k as int].name@ && c.datatype == ColumnType::String,
    }
}

/// The schema of the output: the plan's columns, the input schema's
/// version, and a header row.
pub fn build_emitted_schema(schema: &Schema, derived: &[DerivedColumn], plan: &OutputPlan) -> (r: Schema)
    requires
        fields_in_bounds(plan.fields@, schema.columns@.len(), derived@.len()),
    ensures
        r.columns@.len() == plan.fields@.len(),
        forall|i: int| 0 <= i < r.columns@.len() ==> described_column(#[trigger] r.columns@[i], plan.fields@[i], schema.columns@, derived@),
        r.schema_version == schema.schema_version,
        r.has_headers,
{
    Schema {
        columns: plan.describe_columns(schema, derived),
        schema_version: schema.schema_version.clone(),
        has_headers: true,
    }
}

// ---------------------------------------------------------------------------
// Sort and column lists, and the index variant that serves a sort
// ---------------------------------------------------------------------------

/// The items of repeated comma-separated options, in order: each part
/// trimmed, empty ones dropped.
pub open spec fn list_items(values: Seq<Seq<char>>) -> Seq<Seq<char>>
    decreases values.len(),
{
    if values.len() == 0 {
        Seq::empty()
    } else {
        list_items(values.drop_last()) + key_parts(values.last())
    }
}

pub fn split_list(values: &[String]) -> (r: Vec<String>)
    ensures
        strs_view(r@) == list_items(strs_view(values@)),
{
    let ghost vs = strs_view(values@);
    let mut out: Vec<String> = Vec::new();
    assert(vs.take(0) =~= Seq::<Seq<char>>::empty());
    assert(strs_view(out@) =~= list_items(vs.take(0)));
    for i in 0..values.len()
        invariant
            vs == strs_view(values@),
            strs_view(out@) == list_items(vs.take(i as int)),
    {
        let parts = list_parts(values[i].as_str());
        let ghost before = strs_view(out@);
        for k in 0..parts.len()
            invariant
                strs_view(out@) == before + strs_view(parts@).take(k as int),
        {
            let ghost prev = strs_view(out@);
            let item = parts[k].clone();
            assert(item@ == parts@[k as int]@);
            out.push(item);
            assert(strs_view(parts@).take(k + 1) =~= strs_view(parts@).take(k as int).push(parts@[k as int]@));
            assert(strs_view(out@) =~= prev.push(item@));
            assert(before + strs_view(parts@).take(k + 1) =~= (before + strs_view(parts@).take(k as int)).push(item@));
        }
        assert(strs_view(parts@).take(parts@.len() as int) =~= strs_view(parts@));
        assert(vs.take(i + 1).drop_last() =~= vs.take(i as int));
        assert(vs.take(i + 1).last() == values@[i as int]@);
    }
    assert(vs.take(values@.len() as int) =~= vs);
    out
}

/// The columns and directions the sort directives ask for.
pub open spec fn sort_signature_of(sorts: Seq<SortDirective>) -> Seq<(Seq<char>, SortDirection)> {
    sorts.map_values(
        |s: SortDirective|
            (
                s.column@,
                if s.ascending {
                    SortDirection::Asc
                } else {
                    SortDirection::Desc
                },
            ),
    )
}

pub fn sort_signature(sorts: &[SortDirective]) -> (r: Vec<(String, SortDirection)>)
    ensures
        directives_view(r@) == sort_signature_of(sorts@),
{
    let mut out: Vec<(String, SortDirection)> = Vec::new();
    for i in 0..sorts.len()
        invariant
            directives_view(out@) == sort_signature_of(sorts@.take(i as int)),
    {
        let d = if sorts[i].ascending {
            SortDirection::Asc
        } else {
            SortDirection::Desc
        };
        out.push((sorts[i].column.clone(), d));
        assert(sorts@.take(i + 1) =~= sorts@.take(i as int).push(sorts@[i as int]));
        assert(directives_view(out@) =~= directives_view(out@.drop_last()).push((out@.last().0@, out@.last().1)));
        assert(sort_signature_of(sorts@.take(i + 1)) =~= sort_signature_of(sorts@.take(i as int)).push(
            sort_signature_of(sorts@)[i as int],
        ));
    }
    assert(sorts@.take(sorts@.len() as int) =~= sorts@);
    out
}

/// The index variant that serves a sort, by position, or why none can: a
/// variant asked for by name must exist and match the sort (and a sort
/// must be asked for); otherwise the best matching variant, if any.
/// `index_label` names the index file in messages.
pub open spec fn variant_choice(
    variants: Option<Seq<crate::index::VariantView>>,
    requested: Option<Seq<char>>,
    req: Seq<(Seq<char>, SortDirection)>,
    index_label: Seq<char>,
) -> Result<Option<int>, Seq<char>> {
    let name = match requested {
        Some(n) => if crate::text::trim(n).len() > 0 {
            Some(crate::text::trim(n))
        } else {
            None
        },
        None => None,
    };
    match variants {
        None => match name {
            Some(_) => Err("An index variant was specified but no index file was provided"@),
            None => Ok(None),
        },
        Some(vs) => match name {
            Some(n) => if req.len() == 0 {
                Err("Selecting an index variant requires at least one --sort directive"@)
            } else {
                match first_named_upto(vs, n, vs.len() as int) {
                    Some(i) => if prefix_matches(vs[i], req) {
                        Ok(Some(i))
                    } else {
                        Err("Index variant '"@ + n + "' does not match the requested sort order"@)
                    },
                    None => Err("Index variant '"@ + n + "' not found in "@ + index_label),
                }
            },
            None => if req.len() == 0 {
                Ok(None)
            } else {
                Ok(best_upto(vs, req, vs.len() as int))
            },
        },
    }
}

/// The first of the first `k` variants named `n`.
pub open spec fn first_named_upto(vs: Seq<crate::index::VariantView>, n: Seq<char>, k: int) -> Option<int>
    decreases k,
{
    if k <= 0 {
        None
    } else {
        match first_named_upto(vs, n, k - 1) {
            Some(i) => Some(i),
            None => if vs[k - 1].name == Some(n) {
                Some(k - 1)
            } else {
                None
            },
        }
    }
}

proof fn lemma_first_named_upto(vs: Seq<crate::index::VariantView>, n: Seq<char>, k: int)
    requires
        0 <= k <= vs.len(),
    ensures
        match first_named_upto(vs, n, k) {
            Some(i) => is_first_named(vs, n, i) && i < k,
            None => forall|j: int| 0 <= j < k ==> vs[j].name != Some(n),
        },
    decreases k,
{
    if k > 0 {
        lemma_first_named_upto(vs, n, k - 1);
    }
}

/// Chooses the index variant for a sort, as `variant_choice` says.
pub fn select_index_variant<'a>(
    index: Option<&'a CsvIndex>,
    requested: Option<&str>,
    signature: &[(String, SortDirection)],
    index_label: &str,
) -> (r: Result<Option<&'a IndexVariant>, String>)
    ensures
        match variant_choice(
            match index {
                Some(x) => Some(x@.variants),
                None => None,
            },
            match requested {
                Some(n) => Some(n@),
                None => None,
            },
            directives_view(signature@),
            index_label@,
        ) {
            Ok(None) => r == Ok::<Option<&'a IndexVariant>, String>(None),
            Ok(Some(i)) => r matches Ok(Some(v)) && index matches Some(x) && v@ == x@.variants[i],
            Err(e) => r matches Err(m) && m@ == e,
        },
{
    let name: Option<Vec<char>> = match requested {
        Some(n) => {
            let t = crate::text::trim_str(n);
            if t.len() > 0 {
                Some(t)
            } else {
                None
            }
        },
        None => None,
    };
    match index {
        None => match name {
            Some(_) => Err("An index variant was specified but no index file was provided".to_string()),
            None => Ok(None),
        },
        Some(x) => match name {
            Some(n) => {
                if signature.len() == 0 {
                    assert(directives_view(signature@).len() == 0);
                    return Err("Selecting an index variant requires at least one --sort directive".to_string());
                }
                assert(directives_view(signature@).len() > 0);
                let ns = crate::text::string_of(n.as_slice());
                match x.variant_by_name(ns.as_str()) {
                    None => {
                        proof {
                            lemma_first_named_upto(x@.variants, n@, x@.variants.len() as int);
                        }
                        let mut m = chars_of("Index variant '");
                        crate::text::extend_chars(&mut m, n.as_slice());
                        crate::text::extend_chars(&mut m, chars_of("' not found in ").as_slice());
                        crate::text::extend_chars(&mut m, chars_of(index_label).as_slice());
                        let msg = crate::text::string_of(m.as_slice());
                        Err(msg)
                    },
                    Some(v) => {
                        proof {
                            lemma_first_named_upto(x@.variants, n@, x@.variants.len() as int);
                            let i = choose|i: int| is_first_named(x@.variants, n@, i) && v@ == x@.variants[i];
                            let j = first_named_upto(x@.variants, n@, x@.variants.len() as int)->0;
                            assert(i == j);
                        }
                        if v.matches(signature) {
                            Ok(Some(v))
                        } else {
                            Err(cat3("Index variant '", n.as_slice(), "' does not match the requested sort order"))
                        }
                    },
                }
            },
            None => {
                if signature.len() == 0 {
                    Ok(None)
                } else {
                    Ok(x.best_match(signature))
                }
            },
        },
    }
}

// ---------------------------------------------------------------------------
// Output mode and mappings
// ---------------------------------------------------------------------------

/// Rows shown by a preview when no limit is given.
pub const PREVIEW_ROW_LIMIT: usize = 10;

/// How the rows are written: as a table or as CSV, and how many.
#[derive(Debug, Clone, Copy, PartialEq, Eq, Structural)]
pub struct OutputSettings {
    pub use_table_output: bool,
    pub limit: Option<usize>,
}

/// A preview shows a table of the first rows and cannot write to a file;
/// otherwise a table is shown only when asked for and the rows go to the
/// standard output.
pub fn output_settings(
    preview: bool,
    has_output: bool,
    writing_to_stdout: bool,
    table: bool,
    limit: Option<usize>,
) -> (r: Result<OutputSettings, String>)
    ensures
        preview && has_output ==> (r matches Err(e) && e@ == "--preview cannot be combined with --output"@),
        !(preview && has_output) ==> r == Ok::<OutputSettings, String>(
            OutputSettings {
                use_table_output: preview || (table && writing_to_stdout),
                limit: if preview && limit is None {
                    Some(PREVIEW_ROW_LIMIT)
                } else {
                    limit
                },
            },
        ),
{
    if preview && has_output {
        return Err("--preview cannot be combined with --output".to_string());
    }
    let limit = if preview && limit.is_none() {
        Some(PREVIEW_ROW_LIMIT)
    } else {
        limit
    };
    let use_table_output = if preview {
        true
    } else {
        table && writing_to_stdout
    };
    Ok(OutputSettings { use_table_output, limit })
}

/// Whether the schema's datatype mappings are applied: unless skipped,
/// whenever the schema has any.
pub fn mappings_apply(apply_requested: bool, skip_requested: bool, schema_has_mappings: bool) -> (r: Result<bool, String>)
    ensures
        apply_requested && skip_requested ==> (r matches Err(e) && e@
            == "--apply-mappings and --skip-mappings cannot be used together"@),
        !(apply_requested && skip_requested) ==> r == Ok::<bool, String>(!skip_requested && schema_has_mappings),
{
    if apply_requested && skip_requested {
        return Err("--apply-mappings and --skip-mappings cannot be used together".to_string());
    }
    Ok(!skip_requested && schema_has_mappings)
}

} // verus!
