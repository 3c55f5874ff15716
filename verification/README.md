# csv_managed

A library for exploring, validating, transforming and indexing delimited
text data with typed schemas, written in Verus. Each public function states
in `requires` / `ensures` what it does, and Verus proves it.

## Layout

- `src/` — the verified library.
  - `text.rs` — sequence helpers, trimming, digit parsing and printing.
  - `schema.rs`, `schema_cmd.rs` — column types, decimal specifications,
    schema checks, renames, placeholder summaries, schema diffs and reports.
  - `header.rs`, `sampling.rs`, `inference.rs` — header detection, sampling
    and type inference over rows.
  - `data.rs`, `temporal.rs` — typed values: dates, times, UUIDs, decimals,
    currency, and the date/time helper functions of expressions.
  - `transform/`, `mapping.rs`, `derive.rs`, `filter.rs` — value
    transformations, mapping chains, derived columns and filters.
  - `index.rs`, `plan.rs`, `join.rs`, `frequency.rs`, `table.rs`,
    `report.rs`, `validation.rs` — indexes, output plans, joins,
    frequencies, table rendering and verification reports.
  - `io_utils.rs`, `cli.rs`, `commands.rs` — delimiter and encoding
    resolution, argument checks.
- `tests/` — tests of the library on concrete values.
- `app/` — the command-line program: file and stream I/O, expression
  evaluation, floating-point arithmetic, and serialisation.

Calls into outside crates (chrono, regex, rust_decimal, uuid, heck,
encoding_rs, sha2) go through small trusted items, each with a doc comment
that says what its contract claims of the outside function.
