//! Column types, decimal specifications and their textual forms.
use vstd::prelude::*;

use crate::text::{
    ascii_lower,
    cat3,
    cat5,
    chars_of,
    find_char,
    find_seq,
    join_strings,
    lower_seq,
    nat_to_seq,
    parse_unsigned,
    parses_unsigned,
    slice_chars,
    split_chars,
    split_on,
    starts_with,
    str_eq_chars,
    trim,
    trim_chars,
    unsigned_value,
    usize_to_chars,
};

verus! {

/// Largest decimal precision (and scale) a column may declare.
pub const DECIMAL_MAX_PRECISION: u32 = 28;

/// Precision and scale of a fixed decimal column.
#[derive(Debug, Clone, Copy, PartialEq, Eq, Structural)]
pub struct DecimalSpec {
    pub precision: u32,
    pub scale: u32,
}

/// `precision` and `scale` form a usable decimal specification.
pub open spec fn decimal_spec_valid(precision: u32, scale: u32) -> bool {
    0 < precision <= DECIMAL_MAX_PRECISION && scale <= precision
}

/// The message `DecimalSpec::ensure_valid` rejects a specification with.
pub open spec fn decimal_spec_error(precision: u32, scale: u32) -> Seq<char> {
    if precision == 0 {
        "Decimal precision must be positive"@
    } else if precision > DECIMAL_MAX_PRECISION {
        "Decimal precision must be <= 28"@
    } else {
        "Decimal scale ("@ + nat_to_seq(scale as nat) + ") cannot exceed precision ("@ + nat_to_seq(
            precision as nat,
        ) + ")"@
    }
}

pub open spec fn signature_seq(precision: u32, scale: u32) -> Seq<char> {
    "decimal("@ + nat_to_seq(precision as nat) + ","@ + nat_to_seq(scale as nat) + ")"@
}

impl DecimalSpec {
    /// A validated specification.
    pub fn new(precision: u32, scale: u32) -> (r: Result<Self, String>)
        ensures
            r is Ok <==> decimal_spec_valid(precision, scale),
            r matches Ok(spec) ==> spec.precision == precision && spec.scale == scale,
            r matches Err(e) ==> e@ == decimal_spec_error(precision, scale),
    {
        let spec = DecimalSpec { precision, scale };
        match spec.ensure_valid() {
            Ok(()) => Ok(spec),
            Err(e) => Err(e),
        }
    }

    /// Checks precision and scale against the supported ranges.
    pub fn ensure_valid(&self) -> (r: Result<(), String>)
        ensures
            r is Ok <==> decimal_spec_valid(self.precision, self.scale),
            self.precision == 0 ==> (r matches Err(e) && e@ == "Decimal precision must be positive"@),
            0 < self.precision && self.precision > DECIMAL_MAX_PRECISION ==> (r matches Err(e)
                && e@ == "Decimal precision must be <= 28"@),
            0 < self.precision <= DECIMAL_MAX_PRECISION && self.scale > self.precision
                ==> (r matches Err(e) && e@ == "Decimal scale ("@ + nat_to_seq(self.scale as nat)
                + ") cannot exceed precision ("@ + nat_to_seq(self.precision as nat) + ")"@),
            r matches Err(e) ==> e@ == decimal_spec_error(self.precision, self.scale),
    {
        if self.precision == 0 {
            return Err("Decimal precision must be positive".to_string());
        }
        if self.precision > DECIMAL_MAX_PRECISION {
            return Err("Decimal precision must be <= 28".to_string());
        }
        if self.scale > self.precision {
            let s = usize_to_chars(self.scale as usize);
            let p = usize_to_chars(self.precision as usize);
            return Err(
                cat5(
                    "Decimal scale (",
                    s.as_slice(),
                    ") cannot exceed precision (",
                    p.as_slice(),
                    ")",
                ),
            );
        }
        Ok(())
    }

    /// `decimal(<precision>,<scale>)`.
    pub fn signature(&self) -> (r: String)
        ensures
            r@ == signature_seq(self.precision, self.scale),
    {
        let p = usize_to_chars(self.precision as usize);
        let s = usize_to_chars(self.scale as usize);
        cat5("decimal(", p.as_slice(), ",", s.as_slice(), ")")
    }

    /// `decimal(precision=<precision>,scale=<scale>)`.
    pub fn describe(&self) -> (r: String)
        ensures
            r@ == "decimal(precision="@ + nat_to_seq(self.precision as nat) + ",scale="@
                + nat_to_seq(self.scale as nat) + ")"@,
    {
        let p = usize_to_chars(self.precision as usize);
        let s = usize_to_chars(self.scale as usize);
        cat5("decimal(precision=", p.as_slice(), ",scale=", s.as_slice(), ")")
    }
}

/// The data type of a column.
#[derive(Debug, Clone, Copy, PartialEq, Eq, Structural)]
pub enum ColumnType {
    String,
    Integer,
    Float,
    Boolean,
    Date,
    DateTime,
    Time,
    Guid,
    Currency,
    Decimal(DecimalSpec),
}

/// The lowercase name of a type (`ColumnType::as_str`).
pub open spec fn type_label(t: ColumnType) -> Seq<char> {
    match t {
        ColumnType::String => "string"@,
        ColumnType::Integer => "integer"@,
        ColumnType::Float => "float"@,
        ColumnType::Boolean => "boolean"@,
        ColumnType::Date => "date"@,
        ColumnType::DateTime => "datetime"@,
        ColumnType::Time => "time"@,
        ColumnType::Guid => "guid"@,
        ColumnType::Currency => "currency"@,
        ColumnType::Decimal(_) => "decimal"@,
    }
}

/// How a type is shown in messages (`ColumnType::describe`).
pub open spec fn type_description(t: ColumnType) -> Seq<char> {
    match t {
        ColumnType::Decimal(spec) => "decimal(precision="@ + nat_to_seq(spec.precision as nat)
            + ",scale="@ + nat_to_seq(spec.scale as nat) + ")"@,
        _ => type_label(t),
    }
}

/// The derived `Debug` form of a type.
pub open spec fn type_debug(t: ColumnType) -> Seq<char> {
    match t {
        ColumnType::String => "String"@,
        ColumnType::Integer => "Integer"@,
        ColumnType::Float => "Float"@,
        ColumnType::Boolean => "Boolean"@,
        ColumnType::Date => "Date"@,
        ColumnType::DateTime => "DateTime"@,
        ColumnType::Time => "Time"@,
        ColumnType::Guid => "Guid"@,
        ColumnType::Currency => "Currency"@,
        ColumnType::Decimal(spec) => "Decimal(DecimalSpec { precision: "@ + nat_to_seq(
            spec.precision as nat,
        ) + ", scale: "@ + nat_to_seq(spec.scale as nat) + " })"@,
    }
}

/// The token a type is written as in a schema (`ColumnType::signature_token`).
pub open spec fn type_signature(t: ColumnType) -> Seq<char> {
    match t {
        ColumnType::Decimal(spec) => signature_seq(spec.precision, spec.scale),
        _ => type_label(t),
    }
}

/// Names accepted for the types without parameters (`FromStr`), after
/// trimming and lowercasing.
pub open spec fn simple_type_from_name(n: Seq<char>) -> Option<ColumnType> {
    if n == "string"@ {
        Some(ColumnType::String)
    } else if n == "integer"@ || n == "int"@ {
        Some(ColumnType::Integer)
    } else if n == "float"@ || n == "double"@ {
        Some(ColumnType::Float)
    } else if n == "boolean"@ || n == "bool"@ {
        Some(ColumnType::Boolean)
    } else if n == "date"@ {
        Some(ColumnType::Date)
    } else if n == "datetime"@ || n == "date-time"@ || n == "timestamp"@ {
        Some(ColumnType::DateTime)
    } else if n == "time"@ {
        Some(ColumnType::Time)
    } else if n == "guid"@ || n == "uuid"@ {
        Some(ColumnType::Guid)
    } else if n == "currency"@ {
        Some(ColumnType::Currency)
    } else {
        None
    }
}

/// Whether `s` starts with `p`.
pub open spec fn has_prefix(s: Seq<char>, p: Seq<char>) -> bool {
    p.len() <= s.len() && s.take(p.len() as int) == p
}

/// The textual type names, in the order they are listed to users.
pub open spec fn type_variant_names() -> Seq<Seq<char>> {
    seq![
        "string"@,
        "integer"@,
        "float"@,
        "boolean"@,
        "date"@,
        "datetime"@,
        "time"@,
        "guid"@,
        "currency"@,
        "decimal(precision,scale)"@,
    ]
}

/// Index of the first `=` or `:` in a decimal option token.
pub open spec fn is_first_kv_sep(t: Seq<char>, i: int) -> bool {
    0 <= i < t.len() && (t[i] == '=' || t[i] == ':') && forall|j: int|
        0 <= j < i ==> t[j] != '=' && t[j] != ':'
}

pub open spec fn kv_sep(t: Seq<char>) -> Option<int> {
    if exists|i: int| is_first_kv_sep(t, i) {
        Some(choose|i: int| is_first_kv_sep(t, i))
    } else {
        None
    }
}

/// State gathered from the comma separated arguments of `decimal(...)`:
/// named precision, named scale, and the positional tokens.
pub type DecimalArgs = (Option<u32>, Option<u32>, Seq<Seq<char>>);

pub open spec fn u32_max() -> nat {
    0xffff_ffff
}

/// Folds the arguments of a decimal type; `None` when an argument is rejected.
pub open spec fn decimal_args(parts: Seq<Seq<char>>) -> Option<DecimalArgs>
    decreases parts.len(),
{
    if parts.len() == 0 {
        Some((None, None, Seq::<Seq<char>>::empty()))
    } else {
        match decimal_args(parts.drop_last()) {
            None => None,
            Some((p, s, pos)) => {
                let token = trim(parts.last());
                if token.len() == 0 {
                    Some((p, s, pos))
                } else {
                    match kv_sep(token) {
                        Some(i) => {
                            let key = lower_seq(trim(token.take(i)));
                            let val = trim(token.skip(i + 1));
                            if !parses_unsigned(val, u32_max()) {
                                None
                            } else if key == "precision"@ {
                                Some((Some(unsigned_value(val) as u32), s, pos))
                            } else if key == "scale"@ {
                                Some((p, Some(unsigned_value(val) as u32), pos))
                            } else {
                                None
                            }
                        },
                        None => Some((p, s, pos.push(token))),
                    }
                }
            },
        }
    }
}

/// The decimal type that `value` (such as `decimal(18,4)` or
/// `decimal(precision=18, scale=4)`) denotes, if any.
pub open spec fn decimal_type_from_seq(value: Seq<char>) -> Option<DecimalSpec> {
    let t = trim(value);
    match find_seq(t, seq!['(']) {
        None => None,
        Some(open) => {
            if !(t.len() > 0 && t.last() == ')') {
                None
            } else {
                match decimal_args(split_on(t.subrange(open + 1, t.len() - 1), ',')) {
                    None => None,
                    Some((p, s, pos)) => {
                        let p_ok = !(pos.len() > 0 && p is None) || parses_unsigned(
                            pos[0],
                            u32_max(),
                        );
                        let s_ok = !(pos.len() > 1 && s is None) || parses_unsigned(
                            pos[1],
                            u32_max(),
                        );
                        let p2 = if pos.len() > 0 && p is None {
                            Some(unsigned_value(pos[0]) as u32)
                        } else {
                            p
                        };
                        let s2 = if pos.len() > 1 && s is None {
                            Some(unsigned_value(pos[1]) as u32)
                        } else {
                            s
                        };
                        if !p_ok || !s_ok || pos.len() > 2 {
                            None
                        } else {
                            match (p2, s2) {
                                (Some(pv), Some(sv)) => if decimal_spec_valid(pv, sv) {
                                    Some(DecimalSpec { precision: pv, scale: sv })
                                } else {
                                    None
                                },
                                _ => None,
                            }
                        }
                    },
                }
            }
        },
    }
}

/// The type `value` denotes (`ColumnType::from_str`).
pub open spec fn column_type_from_seq(value: Seq<char>) -> Option<ColumnType> {
    let n = lower_seq(trim(value));
    match simple_type_from_name(n) {
        Some(t) => Some(t),
        None => if has_prefix(n, "decimal"@) {
            match decimal_type_from_seq(value) {
                Some(spec) => Some(ColumnType::Decimal(spec)),
                None => None,
            }
        } else {
            None
        },
    }
}

pub proof fn lemma_decimal_args_none_extends(parts: Seq<Seq<char>>, k: int)
    requires
        0 <= k <= parts.len(),
        decimal_args(parts.take(k)) is None,
    ensures
        decimal_args(parts) is None,
    decreases parts.len() - k,
{
    if k < parts.len() {
        assert(parts.take(k + 1).drop_last() =~= parts.take(k));
        lemma_decimal_args_none_extends(parts, k + 1);
    } else {
        assert(parts.take(k) =~= parts);
    }
}

/// The first `=` or `:` of a token.
fn find_kv_sep(t: &[char]) -> (r: Option<usize>)
    ensures
        r == (match kv_sep(t@) {
            Some(i) => Some(i as usize),
            None => None::<usize>,
        }),
{
    for i in 0..t.len()
        invariant
            forall|j: int| 0 <= j < i ==> t@[j] != '=' && t@[j] != ':',
    {
        if t[i] == '=' || t[i] == ':' {
            proof {
                assert(is_first_kv_sep(t@, i as int));
                let k = choose|k: int| is_first_kv_sep(t@, k);
                if k < i {
                    assert(t@[k] != '=' && t@[k] != ':');
                }
                if i < k {
                    assert(t@[i as int] != '=' && t@[i as int] != ':');
                }
            }
            return Some(i);
        }
    }
    None
}

fn parse_u32_chars(s: &[char]) -> (r: Option<u32>)
    ensures
        r is Some <==> parses_unsigned(s@, u32_max()),
        r matches Some(v) ==> v == unsigned_value(s@),
{
    match parse_unsigned(s, 0xffff_ffff) {
        Some(v) => Some(v as u32),
        None => None,
    }
}

/// Parses `decimal(<precision>,<scale>)` in its positional or named forms.
pub fn parse_decimal_type(value: &str) -> (r: Result<ColumnType, String>)
    ensures
        match decimal_type_from_seq(value@) {
            Some(spec) => r == Ok::<ColumnType, String>(ColumnType::Decimal(spec)),
            None => r is Err,
        },
{
    let raw = chars_of(value);
    let t = trim_chars(raw.as_slice());
    let open = match find_char(t.as_slice(), '(') {
        Some(i) => i,
        None => {
            return Err(
                "Decimal type must specify precision and scale, e.g. decimal(18,4)".to_string(),
            );
        },
    };
    if !(t.len() > 0 && t[t.len() - 1] == ')') {
        return Err("Decimal type must close with ')', e.g. decimal(18,4)".to_string());
    }
    assert(t@[open as int] == '(');
    let inner = slice_chars(t.as_slice(), open + 1, t.len() - 1);
    let parts = split_chars(inner.as_slice(), ',');
    let ghost pv = split_on(inner@, ',');
    let mut precision: Option<u32> = None;
    let mut scale: Option<u32> = None;
    let mut positional: Vec<Vec<char>> = Vec::new();
    proof {
        let tv = trim(value@);
        assert(tv == t@);
        assert(inner@ == tv.subrange(open + 1, tv.len() - 1));
    }
    assert(decimal_args(pv) is None ==> decimal_type_from_seq(value@) is None);
    for k in 0..parts.len()
        invariant
            decimal_args(pv) is None ==> decimal_type_from_seq(value@) is None,
            pv == split_on(inner@, ','),
            parts@.len() == pv.len(),
            forall|i: int| 0 <= i < parts@.len() ==> #[trigger] parts@[i]@ == pv[i],
            decimal_args(pv.take(k as int)) == Some(
                (precision, scale, positional@.map_values(|p: Vec<char>| p@)),
            ),
    {
        assert(pv.take(k + 1).drop_last() =~= pv.take(k as int));
        let token = trim_chars(parts[k].as_slice());
        assert(pv.take(k + 1).last() == pv[k as int]);
        assert(token@ == trim(pv[k as int]));
        if token.len() > 0 {
        match find_kv_sep(token.as_slice()) {
            Some(i) => {
                let key_raw = slice_chars(token.as_slice(), 0, i);
                let key_t = trim_chars(key_raw.as_slice());
                let key = ascii_lower(key_t.as_slice());
                let val_raw = slice_chars(token.as_slice(), i + 1, token.len());
                let val = trim_chars(val_raw.as_slice());
                assert(key_raw@ =~= token@.take(i as int));
                assert(val_raw@ =~= token@.skip(i + 1));
                let parsed = match parse_u32_chars(val.as_slice()) {
                    Some(v) => v,
                    None => {
                        proof {
                            assert(!parses_unsigned(val@, u32_max()));
                            assert(decimal_args(pv.take(k + 1)) is None);
                            lemma_decimal_args_none_extends(pv, k + 1);
                        }
                        return Err(
                            cat5(
                                "Parsing decimal ",
                                key_raw.as_slice(),
                                "='",
                                val.as_slice(),
                                "'",
                            ),
                        );
                    },
                };
                if str_eq_chars("precision", key.as_slice()) {
                    precision = Some(parsed);
                } else if str_eq_chars("scale", key.as_slice()) {
                    scale = Some(parsed);
                } else {
                    proof {
                        assert(key@ == lower_seq(trim(token@.take(i as int))));
                        assert(key@ != "precision"@ && key@ != "scale"@);
                        assert(decimal_args(pv.take(k + 1)) is None);
                        lemma_decimal_args_none_extends(pv, k + 1);
                    }
                    return Err(
                        cat5(
                            "Unknown decimal option '",
                            key.as_slice(),
                            "' in '",
                            token.as_slice(),
                            "'",
                        ),
                    );
                }
            },
            None => {
                let ghost before = positional@.map_values(|p: Vec<char>| p@);
                positional.push(token);
                assert(positional@.map_values(|p: Vec<char>| p@) =~= before.push(token@));
            },
        }
        }
    }
    assert(pv.take(parts@.len() as int) =~= pv);
    let ghost pos = positional@.map_values(|p: Vec<char>| p@);
    let ghost tv = trim(value@);
    assert(tv == t@);
    assert(find_seq(tv, seq!['(']) == Some(open as int));
    assert(inner@ == tv.subrange(open + 1, tv.len() - 1));
    assert(decimal_args(split_on(tv.subrange(open + 1, tv.len() - 1), ',')) == Some((precision, scale, pos)));
    assert(pos.len() == positional@.len());
    assert(positional@.len() > 0 ==> pos[0] == positional@[0]@);
    assert(positional@.len() > 1 ==> pos[1] == positional@[1]@);
    if positional.len() > 0 && precision.is_none() {
        match parse_u32_chars(positional[0].as_slice()) {
            Some(v) => {
                precision = Some(v);
            },
            None => {
                return Err(
                    cat3(
                        "Parsing decimal precision from '",
                        positional[0].as_slice(),
                        "'",
                    ),
                );
            },
        }
    }
    if positional.len() > 1 && scale.is_none() {
        match parse_u32_chars(positional[1].as_slice()) {
            Some(v) => {
                scale = Some(v);
            },
            None => {
                return Err(
                    cat3("Parsing decimal scale from '", positional[1].as_slice(), "'"),
                );
            },
        }
    }
    if positional.len() > 2 {
        return Err("Decimal type accepts at most two positional arguments".to_string());
    }
    let p = match precision {
        Some(p) => p,
        None => {
            return Err(
                "Decimal type requires a precision value, e.g. decimal(18,4)".to_string(),
            );
        },
    };
    let s = match scale {
        Some(s) => s,
        None => {
            return Err("Decimal type requires a scale value, e.g. decimal(18,4)".to_string());
        },
    };
    match DecimalSpec::new(p, s) {
        Ok(spec) => Ok(ColumnType::Decimal(spec)),
        Err(e) => Err(e),
    }
}

impl ColumnType {
    pub fn as_str(&self) -> (r: &'static str)
        ensures
            r@ == type_label(*self),
    {
        match self {
            ColumnType::String => "string",
            ColumnType::Integer => "integer",
            ColumnType::Float => "float",
            ColumnType::Boolean => "boolean",
            ColumnType::Date => "date",
            ColumnType::DateTime => "datetime",
            ColumnType::Time => "time",
            ColumnType::Guid => "guid",
            ColumnType::Currency => "currency",
            ColumnType::Decimal(_) => "decimal",
        }
    }

    /// The type names shown to users, in order.
    pub fn variants() -> (r: Vec<&'static str>)
        ensures
            r@.map_values(|s: &'static str| s@) == type_variant_names(),
    {
        let r = vec![
            "string",
            "integer",
            "float",
            "boolean",
            "date",
            "datetime",
            "time",
            "guid",
            "currency",
            "decimal(precision,scale)",
        ];
        assert(r@.map_values(|s: &'static str| s@) =~= type_variant_names());
        r
    }

    pub fn describe(&self) -> (r: String)
        ensures
            r@ == type_description(*self),
    {
        match self {
            ColumnType::Decimal(spec) => spec.describe(),
            _ => self.as_str().to_string(),
        }
    }

    pub fn signature_token(&self) -> (r: String)
        ensures
            r@ == type_signature(*self),
    {
        match self {
            ColumnType::Decimal(spec) => spec.signature(),
            _ => self.as_str().to_string(),
        }
    }

    pub fn cli_token(&self) -> (r: String)
        ensures
            r@ == type_signature(*self),
    {
        match self {
            ColumnType::Decimal(spec) => {
                let p = usize_to_chars(spec.precision as usize);
                let s = usize_to_chars(spec.scale as usize);
                cat5("decimal(", p.as_slice(), ",", s.as_slice(), ")")
            },
            _ => self.as_str().to_string(),
        }
    }

    pub fn decimal_spec(&self) -> (r: Option<DecimalSpec>)
        ensures
            r == (match *self {
                ColumnType::Decimal(spec) => Some(spec),
                _ => None,
            }),
    {
        match self {
            ColumnType::Decimal(spec) => Some(*spec),
            _ => None,
        }
    }

    /// Parses a type name such as `int`, `timestamp` or `decimal(18,4)`.
    pub fn from_str(value: &str) -> (r: Result<ColumnType, String>)
        ensures
            match column_type_from_seq(value@) {
                Some(t) => r == Ok::<ColumnType, String>(t),
                None => r is Err,
            },
    {
        let raw = chars_of(value);
        let t = trim_chars(raw.as_slice());
        let n = ascii_lower(t.as_slice());
        let ns = n.as_slice();
        if str_eq_chars("string", ns) {
            Ok(ColumnType::String)
        } else if str_eq_chars("integer", ns) || str_eq_chars("int", ns) {
            Ok(ColumnType::Integer)
        } else if str_eq_chars("float", ns) || str_eq_chars("double", ns) {
            Ok(ColumnType::Float)
        } else if str_eq_chars("boolean", ns) || str_eq_chars("bool", ns) {
            Ok(ColumnType::Boolean)
        } else if str_eq_chars("date", ns) {
            Ok(ColumnType::Date)
        } else if str_eq_chars("datetime", ns) || str_eq_chars("date-time", ns) || str_eq_chars(
            "timestamp",
            ns,
        ) {
            Ok(ColumnType::DateTime)
        } else if str_eq_chars("time", ns) {
            Ok(ColumnType::Time)
        } else if str_eq_chars("guid", ns) || str_eq_chars("uuid", ns) {
            Ok(ColumnType::Guid)
        } else if str_eq_chars("currency", ns) {
            Ok(ColumnType::Currency)
        } else {
            let dec = chars_of("decimal");
            if starts_with(ns, dec.as_slice()) {
                parse_decimal_type(value)
            } else {
                let names = ColumnType::variants();
                let mut owned: Vec<String> = Vec::new();
                for i in 0..names.len() {
                    owned.push(names[i].to_string());
                }
                let listed = join_strings(owned.as_slice(), ", ");
                let lv = chars_of(listed.as_str());
                let head = cat3("Unknown column type '", raw.as_slice(), "'. Supported types: ");
                let hv = chars_of(head.as_str());
                Err(cat3("", hv.as_slice(), listed.as_str()))
            }
        }
    }
}

impl ColumnType {
    /// The derived `Debug` form of the type, as messages show it.
    pub fn debug_string(&self) -> (r: String)
        ensures
            r@ == type_debug(*self),
    {
        match self {
            ColumnType::String => "String".to_string(),
            ColumnType::Integer => "Integer".to_string(),
            ColumnType::Float => "Float".to_string(),
            ColumnType::Boolean => "Boolean".to_string(),
            ColumnType::Date => "Date".to_string(),
            ColumnType::DateTime => "DateTime".to_string(),
            ColumnType::Time => "Time".to_string(),
            ColumnType::Guid => "Guid".to_string(),
            ColumnType::Currency => "Currency".to_string(),
            ColumnType::Decimal(spec) => {
                let p = usize_to_chars(spec.precision as usize);
                let s = usize_to_chars(spec.scale as usize);
                cat5("Decimal(DecimalSpec { precision: ", p.as_slice(), ", scale: ", s.as_slice(), " })")
            },
        }
    }
}

// ---------------------------------------------------------------------------
// Datatype mappings
// ---------------------------------------------------------------------------

/// A value of a mapping option, as the schema file gives it.
#[derive(Debug, Clone, PartialEq, Eq)]
pub enum OptionValue {
    /// A non-negative integer.
    Unsigned(u64),
    /// A negative integer.
    Signed(i64),
    Text(String),
    /// Anything else (a float, a list, a map, ...).
    Other,
}

/// A conversion step applied to a column's values.
#[derive(Debug, Clone)]
pub struct DatatypeMapping {
    pub from: ColumnType,
    pub to: ColumnType,
    pub strategy: Option<String>,
    /// The options by name, in key order, each name once.
    pub options: Vec<(String, OptionValue)>,
}

/// The value of the first option named `key`.
pub open spec fn option_lookup(opts: Seq<(String, OptionValue)>, key: Seq<char>) -> Option<OptionValue>
    decreases opts.len(),
{
    if opts.len() == 0 {
        None
    } else if opts[0].0@ == key {
        Some(opts[0].1)
    } else {
        option_lookup(opts.drop_first(), key)
    }
}

pub fn find_option<'a>(opts: &'a [(String, OptionValue)], key: &str) -> (r: Option<&'a OptionValue>)
    ensures
        match option_lookup(opts@, key@) {
            Some(v) => r == Some(&v),
            None => r is None,
        },
{
    let ghost ov = opts@;
    assert(ov.skip(0) =~= ov);
    for i in 0..opts.len()
        invariant
            ov == opts@,
            option_lookup(ov, key@) == option_lookup(ov.skip(i as int), key@),
    {
        assert(ov.skip(i as int)[0] == ov[i as int]);
        assert(ov.skip(i as int).drop_first() =~= ov.skip(i + 1));
        if crate::text::str_eq(opts[i].0.as_str(), key) {
            return Some(&opts[i].1);
        }
    }
    None
}

/// The start of every message about a mapping.
pub open spec fn mapping_prefix(column: Seq<char>, m: DatatypeMapping) -> Seq<char> {
    "Column '"@ + column + "' mapping "@ + type_description(m.from) + " -> "@ + type_description(
        m.to,
    )
}

pub open spec fn is_known_strategy(n: Seq<char>) -> bool {
    n == "round"@ || n == "trim"@ || n == "lowercase"@ || n == "uppercase"@ || n == "truncate"@
}

pub open spec fn is_text_strategy(n: Seq<char>) -> bool {
    n == "trim"@ || n == "lowercase"@ || n == "uppercase"@
}

pub open spec fn round_target(t: ColumnType) -> bool {
    t == ColumnType::Float || t == ColumnType::Integer || t == ColumnType::String || t
        == ColumnType::Currency || t is Decimal
}

pub open spec fn truncate_target(t: ColumnType) -> bool {
    t == ColumnType::Integer || t == ColumnType::Currency || t is Decimal
}

/// The problem with a mapping's strategy, if any.
pub open spec fn strategy_error(column: Seq<char>, m: DatatypeMapping) -> Option<Seq<char>> {
    match m.strategy {
        None => None,
        Some(raw) => {
            let st = trim(raw@);
            let n = lower_seq(st);
            let pre = mapping_prefix(column, m);
            if st.len() == 0 {
                None
            } else if !is_known_strategy(n) {
                Some(pre + " uses unsupported strategy '"@ + n + "'"@)
            } else if is_text_strategy(n) && !(m.from == ColumnType::String && m.to
                == ColumnType::String) {
                Some(pre + " cannot apply '"@ + st + "' strategy"@)
            } else if n == "round"@ && !round_target(m.to) {
                Some(pre + " cannot apply 'round' strategy"@)
            } else if n == "truncate"@ && !truncate_target(m.to) {
                Some(pre + " cannot apply 'truncate' strategy"@)
            } else {
                None
            }
        },
    }
}

/// The problem with a mapping's `scale` option, if any.
pub open spec fn scale_error(column: Seq<char>, m: DatatypeMapping) -> Option<Seq<char>> {
    let pre = mapping_prefix(column, m);
    match option_lookup(m.options@, "scale"@) {
        None => None,
        Some(v) => {
            let numeric: Option<int> = match v {
                OptionValue::Unsigned(u) => Some(u as int),
                OptionValue::Signed(i) => if i >= 0 {
                    Some(i as int)
                } else {
                    None
                },
                _ => None,
            };
            match numeric {
                None => match v {
                    OptionValue::Signed(_) => Some(pre + " requires a non-negative scale"@),
                    _ => Some(pre + " requires 'scale' to be a number"@),
                },
                Some(n) => {
                    let low = n % 0x1_0000_0000;
                    if m.to == ColumnType::Currency && !(low == 2 || low == 4) {
                        Some(pre + " requires scale to be 2 or 4"@)
                    } else if m.to is Decimal {
                        Some(
                            pre
                                + " should define scale via the decimal datatype rather than a mapping option"@,
                        )
                    } else {
                        None
                    }
                },
            }
        },
    }
}

/// The first problem with a mapping's strategy and options, if any.
pub open spec fn mapping_options_error(column: Seq<char>, m: DatatypeMapping) -> Option<Seq<char>> {
    let pre = mapping_prefix(column, m);
    if strategy_error(column, m) is Some {
        strategy_error(column, m)
    } else if scale_error(column, m) is Some {
        scale_error(column, m)
    } else if option_lookup(m.options@, "format"@) matches Some(v) && !(v is Text) {
        Some(pre + " requires 'format' to be a string"@)
    } else if option_lookup(m.options@, "precision"@) is Some {
        Some(
            pre
                + " should define precision via the decimal datatype rather than a mapping option"@,
        )
    } else {
        None
    }
}

fn mapping_prefix_string(column: &str, m: &DatatypeMapping) -> (r: Vec<char>)
    ensures
        r@ == mapping_prefix(column@, *m),
{
    let mut v = chars_of("Column '");
    crate::text::extend_chars(&mut v, chars_of(column).as_slice());
    crate::text::extend_chars(&mut v, chars_of("' mapping ").as_slice());
    let f = m.from.describe();
    crate::text::extend_chars(&mut v, chars_of(f.as_str()).as_slice());
    crate::text::extend_chars(&mut v, chars_of(" -> ").as_slice());
    let t = m.to.describe();
    crate::text::extend_chars(&mut v, chars_of(t.as_str()).as_slice());
    v
}

fn strategy_check(column: &str, m: &DatatypeMapping) -> (r: Result<(), String>)
    ensures
        match strategy_error(column@, *m) {
            Some(e) => r matches Err(x) && x@ == e,
            None => r is Ok,
        },
{
    match &m.strategy {
        None => Ok(()),
        Some(raw) => {
            let st = trim_chars(chars_of(raw.as_str()).as_slice());
            if st.len() == 0 {
                return Ok(());
            }
            let n = ascii_lower(st.as_slice());
            let ns = n.as_slice();
            let pre = mapping_prefix_string(column, m);
            proof {
                reveal_strlit("");
            }
            if !(str_eq_chars("round", ns) || str_eq_chars("trim", ns) || str_eq_chars(
                "lowercase",
                ns,
            ) || str_eq_chars("uppercase", ns) || str_eq_chars("truncate", ns)) {
                let mut v = pre;
                crate::text::extend_chars(&mut v, chars_of(" uses unsupported strategy '").as_slice());
                crate::text::extend_chars(&mut v, ns);
                return Err(cat3("", v.as_slice(), "'"));
            }
            if (str_eq_chars("trim", ns) || str_eq_chars("lowercase", ns) || str_eq_chars(
                "uppercase",
                ns,
            )) && !(m.from == ColumnType::String && m.to == ColumnType::String) {
                let mut v = pre;
                crate::text::extend_chars(&mut v, chars_of(" cannot apply '").as_slice());
                crate::text::extend_chars(&mut v, st.as_slice());
                return Err(cat3("", v.as_slice(), "' strategy"));
            }
            if str_eq_chars("round", ns) && !(m.to == ColumnType::Float || m.to
                == ColumnType::Integer || m.to == ColumnType::String || m.to == ColumnType::Currency
                || m.to.decimal_spec().is_some()) {
                return Err(cat3("", pre.as_slice(), " cannot apply 'round' strategy"));
            }
            if str_eq_chars("truncate", ns) && !(m.to == ColumnType::Integer || m.to
                == ColumnType::Currency || m.to.decimal_spec().is_some()) {
                return Err(cat3("", pre.as_slice(), " cannot apply 'truncate' strategy"));
            }
            Ok(())
        },
    }
}

fn scale_check(column: &str, m: &DatatypeMapping) -> (r: Result<(), String>)
    ensures
        match scale_error(column@, *m) {
            Some(e) => r matches Err(x) && x@ == e,
            None => r is Ok,
        },
{
    let v = match find_option(m.options.as_slice(), "scale") {
        None => {
            return Ok(());
        },
        Some(v) => v,
    };
    proof {
        reveal_strlit("");
    }
    let pre = mapping_prefix_string(column, m);
    let numeric: u64 = match v {
        OptionValue::Unsigned(u) => *u,
        OptionValue::Signed(i) => {
            if *i >= 0 {
                *i as u64
            } else {
                return Err(cat3("", pre.as_slice(), " requires a non-negative scale"));
            }
        },
        _ => {
            return Err(cat3("", pre.as_slice(), " requires 'scale' to be a number"));
        },
    };
    let low: u64 = numeric % 0x1_0000_0000;
    if m.to == ColumnType::Currency && !(low == 2 || low == 4) {
        return Err(cat3("", pre.as_slice(), " requires scale to be 2 or 4"));
    }
    if m.to.decimal_spec().is_some() {
        return Err(
            cat3(
                "",
                pre.as_slice(),
                " should define scale via the decimal datatype rather than a mapping option",
            ),
        );
    }
    Ok(())
}

/// Checks a mapping's strategy and options for the column `column_name`.
pub fn validate_mapping_options(column_name: &str, mapping: &DatatypeMapping) -> (r: Result<
    (),
    String,
>)
    ensures
        match mapping_options_error(column_name@, *mapping) {
            Some(e) => r matches Err(x) && x@ == e,
            None => r is Ok,
        },
{
    proof {
        reveal_strlit("");
    }
    match strategy_check(column_name, mapping) {
        Err(e) => {
            return Err(e);
        },
        Ok(()) => {},
    }
    match scale_check(column_name, mapping) {
        Err(e) => {
            return Err(e);
        },
        Ok(()) => {},
    }
    let pre = mapping_prefix_string(column_name, mapping);
    match find_option(mapping.options.as_slice(), "format") {
        Some(OptionValue::Text(_)) => {},
        Some(_) => {
            return Err(cat3("", pre.as_slice(), " requires 'format' to be a string"));
        },
        None => {},
    }
    if find_option(mapping.options.as_slice(), "precision").is_some() {
        return Err(
            cat3(
                "",
                pre.as_slice(),
                " should define precision via the decimal datatype rather than a mapping option",
            ),
        );
    }
    Ok(())
}

// ---------------------------------------------------------------------------
// Columns and schemas
// ---------------------------------------------------------------------------

/// A value written in place of another when rows are read.
#[derive(Debug, Clone, PartialEq, Eq)]
pub struct ValueReplacement {
    pub from: String,
    pub to: String,
}

/// A column of a schema: its name, type, output name, value replacements
/// and the chain of type conversions applied to it.
#[derive(Debug, Clone)]
pub struct ColumnMeta {
    pub name: String,
    pub datatype: ColumnType,
    pub rename: Option<String>,
    pub value_replacements: Vec<ValueReplacement>,
    pub datatype_mappings: Vec<DatatypeMapping>,
}

/// The structure of a CSV file.
#[derive(Debug, Clone)]
pub struct Schema {
    pub columns: Vec<ColumnMeta>,
    pub schema_version: Option<String>,
    pub has_headers: bool,
}

/// The name a column is written under: its non-empty rename, else its name.
pub open spec fn output_name_of(c: ColumnMeta) -> Seq<char> {
    match c.rename {
        Some(r) => if r@.len() > 0 {
            r@
        } else {
            c.name@
        },
        None => c.name@,
    }
}

/// A header matches a column when it equals the name or the non-empty
/// rename.
pub open spec fn header_matches(c: ColumnMeta, h: Seq<char>) -> bool {
    h == c.name@ || (c.rename matches Some(r) && r@.len() > 0 && h == r@)
}

/// A column is found under its name or its rename.
pub open spec fn column_named(c: ColumnMeta, n: Seq<char>) -> bool {
    c.name@ == n || (c.rename matches Some(r) && r@ == n)
}

/// The value that the first replacement whose `from` equals `v` gives, or
/// `v` itself.
pub open spec fn replaced_value(reps: Seq<ValueReplacement>, v: Seq<char>) -> Seq<char>
    decreases reps.len(),
{
    if reps.len() == 0 {
        v
    } else if reps[0].from@ == v {
        reps[0].to@
    } else {
        replaced_value(reps.drop_first(), v)
    }
}

/// The names of the columns.
pub open spec fn column_names(cs: Seq<ColumnMeta>) -> Seq<Seq<char>> {
    cs.map_values(|c: ColumnMeta| c.name@)
}

/// The first column found under `n`.
pub open spec fn first_column_named(cs: Seq<ColumnMeta>, n: Seq<char>) -> Option<int> {
    if exists|i: int| 0 <= i < cs.len() && column_named(cs[i], n) {
        Some(
            choose|i: int|
                0 <= i < cs.len() && column_named(cs[i], n) && forall|j: int|
                    0 <= j < i ==> !column_named(cs[j], n),
        )
    } else {
        None
    }
}

/// A column of type string named `name`, without renames, replacements or
/// mappings.
pub open spec fn plain_column(c: ColumnMeta, name: Seq<char>) -> bool {
    &&& c.name@ == name
    &&& c.datatype == ColumnType::String
    &&& c.rename is None
    &&& c.value_replacements@.len() == 0
    &&& c.datatype_mappings@.len() == 0
}

impl ColumnMeta {
    pub fn has_mappings(&self) -> (r: bool)
        ensures
            r == (self.datatype_mappings@.len() > 0),
    {
        self.datatype_mappings.len() > 0
    }

    pub fn output_name(&self) -> (r: &str)
        ensures
            r@ == output_name_of(*self),
    {
        match &self.rename {
            Some(r) => {
                if !r.as_str().is_empty() {
                    r.as_str()
                } else {
                    self.name.as_str()
                }
            },
            None => self.name.as_str(),
        }
    }

    pub fn matches_header(&self, header: &str) -> (r: bool)
        ensures
            r == header_matches(*self, header@),
    {
        if crate::text::str_eq(header, self.name.as_str()) {
            return true;
        }
        match &self.rename {
            Some(r) => !r.as_str().is_empty() && crate::text::str_eq(header, r.as_str()),
            None => false,
        }
    }

    /// The value after the column's replacements.
    pub fn normalize_value(&self, value: &str) -> (r: String)
        ensures
            r@ == replaced_value(self.value_replacements@, value@),
    {
        let ghost reps = self.value_replacements@;
        assert(reps.skip(0) =~= reps);
        for i in 0..self.value_replacements.len()
            invariant
                reps == self.value_replacements@,
                replaced_value(reps, value@) == replaced_value(reps.skip(i as int), value@),
        {
            assert(reps.skip(i as int)[0] == reps[i as int]);
            assert(reps.skip(i as int).drop_first() =~= reps.skip(i + 1));
            if crate::text::str_eq(value, self.value_replacements[i].from.as_str()) {
                return self.value_replacements[i].to.clone();
            }
        }
        value.to_string()
    }
}

impl Schema {
    /// A schema of string columns named by `headers`.
    pub fn from_headers(headers: &[String]) -> (r: Schema)
        ensures
            r.columns@.len() == headers@.len(),
            forall|i: int| 0 <= i < headers@.len() ==> plain_column(#[trigger] r.columns@[i], headers@[i]@),
            r.schema_version is None,
            r.has_headers,
    {
        let mut columns: Vec<ColumnMeta> = Vec::new();
        for i in 0..headers.len()
            invariant
                columns@.len() == i,
                forall|j: int| 0 <= j < i ==> plain_column(#[trigger] columns@[j], headers@[j]@),
        {
            columns.push(
                ColumnMeta {
                    name: headers[i].clone(),
                    datatype: ColumnType::String,
                    rename: None,
                    value_replacements: Vec::new(),
                    datatype_mappings: Vec::new(),
                },
            );
        }
        Schema { columns, schema_version: None, has_headers: true }
    }

    pub fn default_has_headers() -> (r: bool)
        ensures
            r,
    {
        true
    }

    pub fn expects_headers(&self) -> (r: bool)
        ensures
            r == self.has_headers,
    {
        self.has_headers
    }

    /// The first column found under `name` (its name or its rename).
    pub fn column_index(&self, name: &str) -> (r: Option<usize>)
        ensures
            r matches Some(i) ==> first_column_named(self.columns@, name@) == Some(i as int) && i
                < self.columns@.len(),
            r is None ==> first_column_named(self.columns@, name@) is None,
    {
        let ghost cs = self.columns@;
        for i in 0..self.columns.len()
            invariant
                cs == self.columns@,
                forall|j: int| 0 <= j < i ==> !column_named(cs[j], name@),
        {
            let c = &self.columns[i];
            let hit = crate::text::str_eq(c.name.as_str(), name) || match &c.rename {
                Some(r) => crate::text::str_eq(r.as_str(), name),
                None => false,
            };
            if hit {
                proof {
                    let k = choose|k: int|
                        0 <= k < cs.len() && column_named(cs[k], name@) && forall|j: int|
                            0 <= j < k ==> !column_named(cs[j], name@);
                    if k < i {
                    } else if k > i {
                        assert(!column_named(cs[i as int], name@));
                    }
                    assert(k == i);
                }
                return Some(i);
            }
        }
        None
    }

    pub fn headers(&self) -> (r: Vec<String>)
        ensures
            crate::header::strs_view(r@) == column_names(self.columns@),
    {
        let mut r: Vec<String> = Vec::new();
        for i in 0..self.columns.len()
            invariant
                crate::header::strs_view(r@) == column_names(self.columns@.take(i as int)),
        {
            r.push(self.columns[i].name.clone());
            assert(column_names(self.columns@.take(i + 1)) =~= column_names(
                self.columns@.take(i as int),
            ).push(self.columns@[i as int].name@));
            assert(crate::header::strs_view(r@) =~= crate::header::strs_view(r@.drop_last()).push(
                r@.last()@,
            ));
        }
        assert(self.columns@.take(self.columns@.len() as int) =~= self.columns@);
        r
    }

    pub fn output_headers(&self) -> (r: Vec<String>)
        ensures
            crate::header::strs_view(r@) == self.columns@.map_values(
                |c: ColumnMeta| output_name_of(c),
            ),
    {
        let mut r: Vec<String> = Vec::new();
        for i in 0..self.columns.len()
            invariant
                crate::header::strs_view(r@) == self.columns@.take(i as int).map_values(
                    |c: ColumnMeta| output_name_of(c),
                ),
        {
            r.push(self.columns[i].output_name().to_string());
            assert(self.columns@.take(i + 1).map_values(|c: ColumnMeta| output_name_of(c))
                =~= self.columns@.take(i as int).map_values(|c: ColumnMeta| output_name_of(c)).push(
                output_name_of(self.columns@[i as int]),
            ));
            assert(crate::header::strs_view(r@) =~= crate::header::strs_view(r@.drop_last()).push(
                r@.last()@,
            ));
        }
        assert(self.columns@.take(self.columns@.len() as int) =~= self.columns@);
        r
    }

    /// The alias lists of the columns' names.
    pub fn header_alias_sets(&self) -> (r: Vec<Vec<String>>)
        ensures
            r@.len() == self.columns@.len(),
            forall|i: int|
                0 <= i < r@.len() ==> crate::header::strs_view(#[trigger] r@[i]@)
                    == crate::header::header_alias_list(self.columns@[i].name@),
    {
        let mut r: Vec<Vec<String>> = Vec::new();
        for i in 0..self.columns.len()
            invariant
                r@.len() == i,
                forall|j: int|
                    0 <= j < i ==> crate::header::strs_view(#[trigger] r@[j]@)
                        == crate::header::header_alias_list(self.columns@[j].name@),
        {
            r.push(crate::header::build_header_aliases(self.columns[i].name.as_str()));
        }
        r
    }

    pub fn has_transformations(&self) -> (r: bool)
        ensures
            r == exists|i: int|
                0 <= i < self.columns@.len() && #[trigger] self.columns@[i].datatype_mappings@.len()
                    > 0,
    {
        for i in 0..self.columns.len()
            invariant
                forall|j: int| 0 <= j < i ==> #[trigger] self.columns@[j].datatype_mappings@.len() == 0,
        {
            if self.columns[i].has_mappings() {
                return true;
            }
        }
        false
    }

    /// Replaces each value of `row` that has a replacement in its column.
    pub fn apply_replacements_to_row(&self, row: &mut Vec<String>)
        ensures
            final(row)@.len() == old(row)@.len(),
            forall|i: int|
                0 <= i < old(row)@.len() ==> #[trigger] final(row)@[i]@ == if i < self.columns@.len() {
                    replaced_value(self.columns@[i].value_replacements@, old(row)@[i]@)
                } else {
                    old(row)@[i]@
                },
    {
        let ghost orig = row@;
        let n: usize = if row.len() <= self.columns.len() {
            row.len()
        } else {
            self.columns.len()
        };
        for i in 0..n
            invariant
                n <= orig.len(),
                n <= self.columns@.len(),
                row@.len() == orig.len(),
                forall|j: int|
                    0 <= j < orig.len() ==> #[trigger] row@[j]@ == if j < i {
                        replaced_value(self.columns@[j].value_replacements@, orig[j]@)
                    } else {
                        orig[j]@
                    },
        {
            let v = self.columns[i].normalize_value(row[i].as_str());
            row.set(i, v);
        }
    }

    /// Validates the decimal specifications and the mapping chains: each
    /// step starts from the type the previous one produced, its options are
    /// valid, and the chain ends at the column's type.
    pub fn validate_datatype_mappings(&self) -> (r: Result<(), String>)
        ensures
            match schema_mapping_error(*self) {
                Some(e) => r matches Err(x) && x@ == e,
                None => r is Ok,
            },
    {
        match self.validate_decimal_specs() {
            Err(e) => {
                return Err(e);
            },
            Ok(()) => {},
        }
        let ghost cs = self.columns@;
        assert(cs.skip(0) =~= cs);
        for i in 0..self.columns.len()
            invariant
                cs == self.columns@,
                columns_decimal_error(cs) is None,
                columns_chain_error(cs) == columns_chain_error(cs.skip(i as int)),
        {
            assert(cs.skip(i as int)[0] == cs[i as int]);
            assert(cs.skip(i as int).drop_first() =~= cs.skip(i + 1));
            let c = &self.columns[i];
            match check_chain(c.name.as_str(), c.datatype_mappings.as_slice(), c.datatype) {
                Err(e) => {
                    return Err(e);
                },
                Ok(()) => {},
            }
        }
        Ok(())
    }

    pub fn validate_decimal_specs(&self) -> (r: Result<(), String>)
        ensures
            match columns_decimal_error(self.columns@) {
                Some(e) => r matches Err(x) && x@ == e,
                None => r is Ok,
            },
    {
        let ghost cs = self.columns@;
        assert(cs.skip(0) =~= cs);
        for i in 0..self.columns.len()
            invariant
                cs == self.columns@,
                columns_decimal_error(cs) == columns_decimal_error(cs.skip(i as int)),
        {
            assert(cs.skip(i as int)[0] == cs[i as int]);
            assert(cs.skip(i as int).drop_first() =~= cs.skip(i + 1));
            match check_column_decimals(&self.columns[i]) {
                Err(e) => {
                    return Err(e);
                },
                Ok(()) => {},
            }
        }
        Ok(())
    }
}

/// The problem with a type's decimal specification, if any.
pub open spec fn type_decimal_error(t: ColumnType) -> Option<Seq<char>> {
    match t {
        ColumnType::Decimal(s) => if decimal_spec_valid(s.precision, s.scale) {
            None
        } else {
            Some(decimal_spec_error(s.precision, s.scale))
        },
        _ => None,
    }
}

pub open spec fn mappings_decimal_error(ms: Seq<DatatypeMapping>) -> Option<Seq<char>>
    decreases ms.len(),
{
    if ms.len() == 0 {
        None
    } else if type_decimal_error(ms[0].from) is Some {
        type_decimal_error(ms[0].from)
    } else if type_decimal_error(ms[0].to) is Some {
        type_decimal_error(ms[0].to)
    } else {
        mappings_decimal_error(ms.drop_first())
    }
}

/// The first invalid decimal specification, column by column: the
/// column's type, then each mapping's source and target.
pub open spec fn columns_decimal_error(cs: Seq<ColumnMeta>) -> Option<Seq<char>>
    decreases cs.len(),
{
    if cs.len() == 0 {
        None
    } else if column_decimal_error(cs[0]) is Some {
        column_decimal_error(cs[0])
    } else {
        columns_decimal_error(cs.drop_first())
    }
}

/// The first invalid decimal specification of a column: its type's, then
/// each mapping's source and target.
pub open spec fn column_decimal_error(c: ColumnMeta) -> Option<Seq<char>> {
    if type_decimal_error(c.datatype) is Some {
        type_decimal_error(c.datatype)
    } else {
        mappings_decimal_error(c.datatype_mappings@)
    }
}

fn check_column_decimals(c: &ColumnMeta) -> (r: Result<(), String>)
    ensures
        match column_decimal_error(*c) {
            Some(e) => r matches Err(x) && x@ == e,
            None => r is Ok,
        },
{
    match check_decimal(c.datatype) {
        Err(e) => {
            return Err(e);
        },
        Ok(()) => {},
    }
    let ghost ms = c.datatype_mappings@;
    assert(ms.skip(0) =~= ms);
    for k in 0..c.datatype_mappings.len()
        invariant
            ms == c.datatype_mappings@,
            type_decimal_error(c.datatype) is None,
            mappings_decimal_error(ms) == mappings_decimal_error(ms.skip(k as int)),
    {
        assert(ms.skip(k as int)[0] == ms[k as int]);
        assert(ms.skip(k as int).drop_first() =~= ms.skip(k + 1));
        match check_decimal(c.datatype_mappings[k].from) {
            Err(e) => {
                return Err(e);
            },
            Ok(()) => {},
        }
        match check_decimal(c.datatype_mappings[k].to) {
            Err(e) => {
                return Err(e);
            },
            Ok(()) => {},
        }
    }
    Ok(())
}

/// The first problem in a column's mapping chain from step `k` on, given
/// the type the previous step produced.
pub open spec fn chain_error(
    name: Seq<char>,
    ms: Seq<DatatypeMapping>,
    k: int,
    prev: Option<ColumnType>,
    datatype: ColumnType,
) -> Option<Seq<char>>
    decreases ms.len() - k,
{
    if k < 0 || k >= ms.len() {
        match prev {
            Some(t) => if t != datatype {
                Some(
                    "Column '"@ + name + "' mappings terminate at '"@ + type_debug(t)
                        + "' but column datatype is '"@ + type_debug(datatype) + "'"@,
                )
            } else {
                None
            },
            None => None,
        }
    } else {
        let m = ms[k];
        if prev matches Some(p) && m.from != p {
            Some(
                "Column '"@ + name + "' mapping step "@ + nat_to_seq((k + 1) as nat)
                    + " expects input '"@ + type_debug(m.from) + "' but prior step outputs '"@
                    + type_debug(prev.unwrap()) + "'"@,
            )
        } else if mapping_options_error(name, m) is Some {
            mapping_options_error(name, m)
        } else {
            chain_error(name, ms, k + 1, Some(m.to), datatype)
        }
    }
}

pub open spec fn columns_chain_error(cs: Seq<ColumnMeta>) -> Option<Seq<char>>
    decreases cs.len(),
{
    if cs.len() == 0 {
        None
    } else {
        let e = chain_error(cs[0].name@, cs[0].datatype_mappings@, 0, None, cs[0].datatype);
        if e is Some {
            e
        } else {
            columns_chain_error(cs.drop_first())
        }
    }
}

/// The first problem `validate_datatype_mappings` reports.
pub open spec fn schema_mapping_error(s: Schema) -> Option<Seq<char>> {
    if columns_decimal_error(s.columns@) is Some {
        columns_decimal_error(s.columns@)
    } else {
        columns_chain_error(s.columns@)
    }
}

fn check_decimal(t: ColumnType) -> (r: Result<(), String>)
    ensures
        match type_decimal_error(t) {
            Some(e) => r matches Err(x) && x@ == e,
            None => r is Ok,
        },
{
    match t {
        ColumnType::Decimal(spec) => spec.ensure_valid(),
        _ => Ok(()),
    }
}

fn check_chain(name: &str, ms: &[DatatypeMapping], datatype: ColumnType) -> (r: Result<(), String>)
    ensures
        match chain_error(name@, ms@, 0, None, datatype) {
            Some(e) => r matches Err(x) && x@ == e,
            None => r is Ok,
        },
{
    proof {
        reveal_strlit("");
    }
    let mut prev: Option<ColumnType> = None;
    for k in 0..ms.len()
        invariant
            chain_error(name@, ms@, 0, None, datatype) == chain_error(name@, ms@, k as int, prev, datatype),
    {
        let m = &ms[k];
        match prev {
            Some(p) => {
                if m.from != p {
                    let mut v = chars_of("Column '");
                    crate::text::extend_chars(&mut v, chars_of(name).as_slice());
                    crate::text::extend_chars(&mut v, chars_of("' mapping step ").as_slice());
                    crate::text::extend_chars(&mut v, usize_to_chars(k + 1).as_slice());
                    crate::text::extend_chars(&mut v, chars_of(" expects input '").as_slice());
                    crate::text::extend_chars(&mut v, chars_of(m.from.debug_string().as_str()).as_slice());
                    crate::text::extend_chars(&mut v, chars_of("' but prior step outputs '").as_slice());
                    crate::text::extend_chars(&mut v, chars_of(p.debug_string().as_str()).as_slice());
                    assert(v@ =~= "Column '"@ + name@ + "' mapping step "@ + nat_to_seq((k + 1) as nat)
                        + " expects input '"@ + type_debug(m.from) + "' but prior step outputs '"@
                        + type_debug(p));
                    proof {
                        reveal_strlit("");
                    }
                    return Err(cat3("", v.as_slice(), "'"));
                }
            },
            None => {},
        }
        match validate_mapping_options(name, m) {
            Err(e) => {
                return Err(e);
            },
            Ok(()) => {},
        }
        prev = Some(m.to);
    }
    match prev {
        Some(t) => {
            if t != datatype {
                let mut v = chars_of("Column '");
                crate::text::extend_chars(&mut v, chars_of(name).as_slice());
                crate::text::extend_chars(&mut v, chars_of("' mappings terminate at '").as_slice());
                crate::text::extend_chars(&mut v, chars_of(t.debug_string().as_str()).as_slice());
                crate::text::extend_chars(&mut v, chars_of("' but column datatype is '").as_slice());
                crate::text::extend_chars(&mut v, chars_of(datatype.debug_string().as_str()).as_slice());
                assert(v@ =~= "Column '"@ + name@ + "' mappings terminate at '"@ + type_debug(t)
                    + "' but column datatype is '"@ + type_debug(datatype));
                return Err(cat3("", v.as_slice(), "'"));
            }
            Ok(())
        },
        None => Ok(()),
    }
}

// ---------------------------------------------------------------------------
// Type tokens read back
// ---------------------------------------------------------------------------

/// The token a type is stored under in a schema file.
pub open spec fn type_yaml_token(t: ColumnType) -> Seq<char> {
    match t {
        ColumnType::String => "String"@,
        ColumnType::Integer => "Integer"@,
        ColumnType::Float => "Float"@,
        ColumnType::Boolean => "Boolean"@,
        ColumnType::Date => "Date"@,
        ColumnType::DateTime => "DateTime"@,
        ColumnType::Time => "Time"@,
        ColumnType::Guid => "Guid"@,
        ColumnType::Currency => "Currency"@,
        ColumnType::Decimal(spec) => signature_seq(spec.precision, spec.scale),
    }
}

impl ColumnType {
    /// The token the type is stored under in a schema file.
    pub fn yaml_token(&self) -> (r: String)
        ensures
            r@ == type_yaml_token(*self),
    {
        match self {
            ColumnType::String => "String".to_string(),
            ColumnType::Integer => "Integer".to_string(),
            ColumnType::Float => "Float".to_string(),
            ColumnType::Boolean => "Boolean".to_string(),
            ColumnType::Date => "Date".to_string(),
            ColumnType::DateTime => "DateTime".to_string(),
            ColumnType::Time => "Time".to_string(),
            ColumnType::Guid => "Guid".to_string(),
            ColumnType::Currency => "Currency".to_string(),
            ColumnType::Decimal(spec) => spec.signature(),
        }
    }
}

/// The types whose decimal specification (if any) is valid.
pub open spec fn type_valid(t: ColumnType) -> bool {
    t matches ColumnType::Decimal(spec) ==> decimal_spec_valid(spec.precision, spec.scale)
}

proof fn lemma_digits_plain(d: Seq<char>)
    requires
        d.len() > 0,
        crate::text::all_digits(d),
    ensures
        crate::text::trim(d) == d,
        lower_seq(d) == d,
        forall|i: int| 0 <= i < d.len() ==> d[i] != ',' && d[i] != '=' && d[i] != ':' && d[i] != '(',
        kv_sep(d) is None,
{
    assert(crate::text::is_digit(d[0]));
    assert(crate::text::is_digit(d.last()));
    crate::text::lemma_trim_plain(d);
    assert(lower_seq(d) =~= d) by {
        assert forall|i: int| 0 <= i < d.len() implies lower_seq(d)[i] == d[i] by {
            assert(crate::text::is_digit(d[i]));
        }
    }
    assert forall|i: int| 0 <= i < d.len() implies d[i] != ',' && d[i] != '=' && d[i] != ':' && d[i]
        != '(' by {
        assert(crate::text::is_digit(d[i]));
    }
    if exists|i: int| is_first_kv_sep(d, i) {
        let i = choose|i: int| is_first_kv_sep(d, i);
        assert(crate::text::is_digit(d[i]));
    }
}

proof fn lemma_decimal_token_reads_back(p: u32, s: u32)
    requires
        decimal_spec_valid(p, s),
    ensures
        column_type_from_seq(signature_seq(p, s)) == Some(
            ColumnType::Decimal(DecimalSpec { precision: p, scale: s }),
        ),
{
    reveal_strlit("decimal(");
    reveal_strlit(",");
    reveal_strlit(")");
    reveal_strlit("decimal");
    let ps = nat_to_seq(p as nat);
    let ss = nat_to_seq(s as nat);
    crate::text::lemma_nat_to_seq_digits(p as nat);
    crate::text::lemma_nat_to_seq_digits(s as nat);
    lemma_digits_plain(ps);
    lemma_digits_plain(ss);
    let v = signature_seq(p, s);
    assert(v =~= "decimal("@ + ps + ","@ + ss + ")"@);
    assert(v[0] == 'd');
    assert(v.last() == ')');
    crate::text::lemma_trim_plain(v);
    let low = lower_seq(v);
    assert(low =~= v) by {
        assert forall|i: int| 0 <= i < v.len() implies low[i] == v[i] by {
            if 8 <= i < 8 + ps.len() {
                assert(v[i] == ps[i - 8]);
                assert(crate::text::is_digit(ps[i - 8]));
            } else if 9 + ps.len() <= i < 9 + ps.len() + ss.len() {
                assert(v[i] == ss[i - 9 - ps.len()]);
                assert(crate::text::is_digit(ss[i - 9 - ps.len()]));
            }
        }
    }
    assert(v.len() >= 12);
    reveal_strlit("string");
    reveal_strlit("integer");
    reveal_strlit("int");
    reveal_strlit("float");
    reveal_strlit("double");
    reveal_strlit("boolean");
    reveal_strlit("bool");
    reveal_strlit("date");
    reveal_strlit("datetime");
    reveal_strlit("date-time");
    reveal_strlit("timestamp");
    reveal_strlit("time");
    reveal_strlit("guid");
    reveal_strlit("uuid");
    reveal_strlit("currency");
    assert(simple_type_from_name(low) is None);
    assert(v.take(7) =~= "decimal"@);
    assert(has_prefix(low, "decimal"@));
    // the opening parenthesis
    assert(crate::text::is_first_occurrence(v, seq!['('], 7)) by {
        assert(v.subrange(7, 8) =~= seq!['(']);
        assert forall|j: int| 0 <= j < 7 implies !crate::text::occurs_at(v, seq!['('], j) by {
            assert(v.subrange(j, j + 1)[0] == v[j]);
        }
    }
    crate::text::lemma_find_seq_is(v, seq!['('], 7);
    let inner = v.subrange(8, v.len() - 1);
    assert(inner =~= ps + seq![','] + ss);
    crate::text::lemma_split_two(ps, ss, ',');
    let parts = seq![ps, ss];
    assert(parts.drop_last() =~= seq![ps]);
    assert(seq![ps].drop_last() =~= Seq::<Seq<char>>::empty());
    assert(seq![ps].last() == ps);
    assert(decimal_args(Seq::<Seq<char>>::empty()) == Some(
        (None::<u32>, None::<u32>, Seq::<Seq<char>>::empty()),
    ));
    assert(Seq::<Seq<char>>::empty().push(ps) =~= seq![ps]);
    assert(decimal_args(seq![ps]) == Some((None::<u32>, None::<u32>, seq![ps])));
    assert(parts.last() == ss);
    assert(seq![ps].push(ss) =~= parts);
    assert(decimal_args(parts) == Some((None::<u32>, None::<u32>, seq![ps, ss])));
    assert(crate::text::unsigned_body(ps) == ps);
    assert(crate::text::unsigned_body(ss) == ss);
}

/// A `key=digits` token splits at its `=` into the key and the number.
proof fn lemma_named_token(key: Seq<char>, d: Seq<char>)
    requires
        key.len() > 0,
        forall|i: int| 0 <= i < key.len() ==> crate::text::is_lower(#[trigger] key[i]),
        d.len() > 0,
        crate::text::all_digits(d),
    ensures
        trim(key + seq!['='] + d) == key + seq!['='] + d,
        kv_sep(key + seq!['='] + d) == Some(key.len() as int),
        lower_seq(trim((key + seq!['='] + d).take(key.len() as int))) == key,
        trim((key + seq!['='] + d).skip(key.len() as int + 1)) == d,
        forall|i: int|
            0 <= i < (key + seq!['='] + d).len() ==> (key + seq!['='] + d)[i] != ',',
{
    let t = key + seq!['='] + d;
    lemma_digits_plain(d);
    assert(crate::text::is_lower(t[0]));
    assert(t.last() == d.last());
    assert(crate::text::is_digit(d.last()));
    crate::text::lemma_trim_plain(t);
    let k = key.len() as int;
    assert(is_first_kv_sep(t, k)) by {
        assert forall|j: int| 0 <= j < k implies t[j] != '=' && t[j] != ':' by {
            assert(t[j] == key[j]);
            assert(crate::text::is_lower(key[j]));
        }
    }
    assert forall|i: int| is_first_kv_sep(t, i) implies i == k by {
        if i < k {
            assert(t[i] == key[i]);
            assert(crate::text::is_lower(key[i]));
        }
        if i > k {
            assert(t[k] == '=');
        }
    }
    assert(t.take(k) =~= key);
    crate::text::lemma_trim_plain(key);
    assert(lower_seq(key) =~= key) by {
        assert forall|i: int| 0 <= i < key.len() implies lower_seq(key)[i] == key[i] by {
            assert(crate::text::is_lower(key[i]));
        }
    }
    assert(t.skip(k + 1) =~= d);
    assert forall|i: int| 0 <= i < t.len() implies t[i] != ',' by {
        if i < k {
            assert(t[i] == key[i]);
            assert(crate::text::is_lower(key[i]));
        } else if i > k {
            assert(t[i] == d[i - k - 1]);
        }
    }
}

/// The description of a valid decimal type is `decimal(` and its two named
/// arguments, all in lower case and with nothing to trim.
proof fn lemma_decimal_description_shape(p: u32, q: u32)
    ensures
        ({
            let t1 = "precision"@ + seq!['='] + nat_to_seq(p as nat);
            let t2 = "scale"@ + seq!['='] + nat_to_seq(q as nat);
            let v = type_description(ColumnType::Decimal(DecimalSpec { precision: p, scale: q }));
            &&& v == "decimal("@ + (t1 + seq![','] + t2) + ")"@
            &&& lower_seq(v) == v
            &&& trim(v) == v
        }),
{
    reveal_strlit("decimal(precision=");
    reveal_strlit(",scale=");
    reveal_strlit(")");
    reveal_strlit("decimal(");
    reveal_strlit("precision");
    reveal_strlit("scale");
    let ps = nat_to_seq(p as nat);
    let ss = nat_to_seq(q as nat);
    crate::text::lemma_nat_to_seq_digits(p as nat);
    crate::text::lemma_nat_to_seq_digits(q as nat);
    let pk = "precision"@;
    let sk = "scale"@;
    let t1 = pk + seq!['='] + ps;
    let t2 = sk + seq!['='] + ss;
    let v = type_description(ColumnType::Decimal(DecimalSpec { precision: p, scale: q }));
    assert("decimal(precision="@ =~= "decimal("@ + pk + seq!['=']);
    assert(",scale="@ =~= seq![','] + sk + seq!['=']);
    assert(v =~= "decimal("@ + (t1 + seq![','] + t2) + ")"@);
    assert(v[0] == 'd');
    assert(v.last() == ')');
    crate::text::lemma_trim_plain(v);
    let low = lower_seq(v);
    assert(low =~= v) by {
        assert forall|i: int| 0 <= i < v.len() implies low[i] == v[i] by {
            if 8 <= i < 8 + t1.len() {
                assert(v[i] == t1[i - 8]);
                if i - 8 < 9 {
                    assert(crate::text::is_lower(pk[i - 8]));
                } else if i - 8 > 9 {
                    assert(crate::text::is_digit(ps[i - 18]));
                }
            } else if 9 + t1.len() <= i < 9 + t1.len() + t2.len() {
                let j = i - 9 - t1.len();
                assert(v[i] == t2[j]);
                if j < 5 {
                    assert(crate::text::is_lower(sk[j]));
                } else if j > 5 {
                    assert(crate::text::is_digit(ss[j - 6]));
                }
            }
        }
    }
}

/// A valid decimal type's description reads back as the type.
#[verifier::rlimit(30)]
proof fn lemma_decimal_description_reads_back(p: u32, q: u32)
    requires
        decimal_spec_valid(p, q),
    ensures
        column_type_from_seq(type_description(ColumnType::Decimal(DecimalSpec { precision: p, scale: q })))
            == Some(ColumnType::Decimal(DecimalSpec { precision: p, scale: q })),
{
    lemma_decimal_description_shape(p, q);
    let ps = nat_to_seq(p as nat);
    let ss = nat_to_seq(q as nat);
    crate::text::lemma_nat_to_seq_digits(p as nat);
    crate::text::lemma_nat_to_seq_digits(q as nat);
    reveal_strlit("precision");
    reveal_strlit("scale");
    let pk = "precision"@;
    let sk = "scale"@;
    assert(forall|i: int| 0 <= i < pk.len() ==> crate::text::is_lower(#[trigger] pk[i]));
    assert(forall|i: int| 0 <= i < sk.len() ==> crate::text::is_lower(#[trigger] sk[i]));
    lemma_named_token(pk, ps);
    lemma_named_token(sk, ss);
    let t1 = pk + seq!['='] + ps;
    let t2 = sk + seq!['='] + ss;
    let v = type_description(ColumnType::Decimal(DecimalSpec { precision: p, scale: q }));
    let low = lower_seq(v);
    reveal_strlit("decimal(");
    reveal_strlit(")");
    reveal_strlit("decimal");
    reveal_strlit("string");
    reveal_strlit("integer");
    reveal_strlit("int");
    reveal_strlit("float");
    reveal_strlit("double");
    reveal_strlit("boolean");
    reveal_strlit("bool");
    reveal_strlit("date");
    reveal_strlit("datetime");
    reveal_strlit("date-time");
    reveal_strlit("timestamp");
    reveal_strlit("time");
    reveal_strlit("guid");
    reveal_strlit("uuid");
    reveal_strlit("currency");
    assert(v.len() >= 12);
    assert(simple_type_from_name(low) is None);
    assert(v.take(7) =~= "decimal"@);
    assert(has_prefix(low, "decimal"@));
    assert(crate::text::is_first_occurrence(v, seq!['('], 7)) by {
        assert(v.subrange(7, 8) =~= seq!['(']);
        assert forall|j: int| 0 <= j < 7 implies !crate::text::occurs_at(v, seq!['('], j) by {
            assert(v.subrange(j, j + 1)[0] == v[j]);
        }
    }
    crate::text::lemma_find_seq_is(v, seq!['('], 7);
    let inner = v.subrange(8, v.len() - 1);
    assert(inner =~= t1 + seq![','] + t2);
    crate::text::lemma_split_two(t1, t2, ',');
    let parts = seq![t1, t2];
    assert(parts.drop_last() =~= seq![t1]);
    assert(seq![t1].drop_last() =~= Seq::<Seq<char>>::empty());
    assert(seq![t1].last() == t1);
    assert(decimal_args(Seq::<Seq<char>>::empty()) == Some(
        (None::<u32>, None::<u32>, Seq::<Seq<char>>::empty()),
    ));
    assert(crate::text::unsigned_body(ps) == ps);
    assert(crate::text::unsigned_body(ss) == ss);
    assert(decimal_args(seq![t1]) == Some((Some(p), None::<u32>, Seq::<Seq<char>>::empty())));
    assert(parts.last() == t2);
    assert(decimal_args(parts) == Some((Some(p), Some(q), Seq::<Seq<char>>::empty())));
}

/// Lowercasing an uppercased ASCII letter gives the letter back.
proof fn lemma_lower_of_upper(x: Seq<char>)
    requires
        forall|i: int| 0 <= i < x.len() ==> crate::text::is_lower(#[trigger] x[i]),
    ensures
        lower_seq(crate::text::upper_seq(x)) == x,
        forall|i: int| 0 <= i < x.len() ==> crate::text::is_upper(#[trigger] crate::text::upper_seq(x)[i]),
{
    let u = crate::text::upper_seq(x);
    assert forall|i: int| 0 <= i < x.len() implies crate::text::is_upper(#[trigger] u[i])
        && crate::text::lower_char(u[i]) == x[i] by {
        let c = x[i];
        assert(u[i] == crate::text::upper_char(c));
        assert((c as u32) >= 97 && (c as u32) <= 122);
        assert((((c as u32) - 32) as char) as u32 == (c as u32) - 32);
    }
    assert(lower_seq(u) =~= x);
}

/// A valid decimal type's description reads back as the type.
pub proof fn law_decimal_description_reads_back(spec: DecimalSpec)
    requires
        decimal_spec_valid(spec.precision, spec.scale),
    ensures
        column_type_from_seq(type_description(ColumnType::Decimal(spec))) == Some(ColumnType::Decimal(spec)),
{
    lemma_decimal_description_reads_back(spec.precision, spec.scale);
    assert(DecimalSpec { precision: spec.precision, scale: spec.scale } == spec);
}

/// The name of a plain type reads back as that type, also when written in
/// another case and with whitespace around it; so does its description.
pub proof fn law_type_names_read_back(t: ColumnType)
    requires
        !(t is Decimal),
    ensures
        column_type_from_seq(type_description(t)) == Some(t),
        column_type_from_seq(seq![' '] + crate::text::upper_seq(type_label(t)) + seq!['\t']) == Some(t),
{
    law_type_token_round_trip(t);
    let x = type_label(t);
    reveal_strlit("string");
    reveal_strlit("integer");
    reveal_strlit("float");
    reveal_strlit("boolean");
    reveal_strlit("date");
    reveal_strlit("datetime");
    reveal_strlit("time");
    reveal_strlit("guid");
    reveal_strlit("currency");
    assert(x.len() > 0);
    assert(forall|i: int| 0 <= i < x.len() ==> crate::text::is_lower(#[trigger] x[i]));
    lemma_lower_of_upper(x);
    let u = crate::text::upper_seq(x);
    let p = seq![' '] + u + seq!['\t'];
    let s1 = p.subrange(1, p.len() as int);
    assert(s1 =~= u + seq!['\t']);
    assert(crate::text::is_upper(u[0]));
    assert(crate::text::trim_start(s1) == s1);
    assert(crate::text::trim_start(p) == s1);
    assert(s1.drop_last() =~= u);
    assert(crate::text::is_upper(u.last()));
    assert(crate::text::trim_end(u) == u);
    assert(crate::text::trim_end(s1) == u);
    assert(trim(p) == u);
    crate::text::lemma_trim_plain(x);
    assert(lower_seq(x) =~= x) by {
        assert forall|i: int| 0 <= i < x.len() implies lower_seq(x)[i] == x[i] by {
            assert(crate::text::is_lower(x[i]));
        }
    }
    assert(lower_seq(trim(p)) == lower_seq(trim(x)));
}

/// Writing a type into a schema and reading it back gives the type again,
/// for its stored token and for its signature token alike (the signature
/// token is also the token written on the command line).
pub proof fn law_type_token_round_trip(t: ColumnType)
    requires
        type_valid(t),
    ensures
        column_type_from_seq(type_yaml_token(t)) == Some(t),
        column_type_from_seq(type_signature(t)) == Some(t),
{
    match t {
        ColumnType::Decimal(spec) => {
            assert(decimal_spec_valid(spec.precision, spec.scale));
            lemma_decimal_token_reads_back(spec.precision, spec.scale);
            assert(DecimalSpec { precision: spec.precision, scale: spec.scale } == spec);
            assert(type_yaml_token(t) == signature_seq(spec.precision, spec.scale));
            assert(type_signature(t) == signature_seq(spec.precision, spec.scale));
            assert(column_type_from_seq(signature_seq(spec.precision, spec.scale)) == Some(
                ColumnType::Decimal(spec),
            ));
            assert(ColumnType::Decimal(spec) == t);
        },
        _ => {
            reveal_strlit("String");
            reveal_strlit("Integer");
            reveal_strlit("Float");
            reveal_strlit("Boolean");
            reveal_strlit("Date");
            reveal_strlit("DateTime");
            reveal_strlit("Time");
            reveal_strlit("Guid");
            reveal_strlit("Currency");
            reveal_strlit("string");
            reveal_strlit("integer");
            reveal_strlit("float");
            reveal_strlit("boolean");
            reveal_strlit("date");
            reveal_strlit("datetime");
            reveal_strlit("time");
            reveal_strlit("guid");
            reveal_strlit("currency");
            reveal_strlit("int");
            reveal_strlit("double");
            reveal_strlit("bool");
            reveal_strlit("date-time");
            reveal_strlit("timestamp");
            reveal_strlit("uuid");
            let y = type_yaml_token(t);
            let g = type_signature(t);
            crate::text::lemma_trim_plain(y);
            crate::text::lemma_trim_plain(g);
            assert(lower_seq(y) =~= type_label(t));
            assert(lower_seq(g) =~= type_label(t));
        },
    }
}

// ---------------------------------------------------------------------------
// Header validation
// ---------------------------------------------------------------------------

/// The message for a header that does not match column `i`.
pub open spec fn header_mismatch(c: ColumnMeta, i: int, found: Seq<char>) -> Seq<char> {
    let pos = nat_to_seq((i + 1) as nat);
    match c.rename {
        Some(r) => if r@.len() > 0 && r@ != c.name@ {
            "Header mismatch at position "@ + pos + ": expected '"@ + c.name@ + "' (or mapped '"@
                + r@ + "') but found '"@ + found + "'"@
        } else {
            "Header mismatch at position "@ + pos + ": expected '"@ + c.name@ + "' but found '"@
                + found + "'"@
        },
        None => "Header mismatch at position "@ + pos + ": expected '"@ + c.name@
            + "' but found '"@ + found + "'"@,
    }
}

/// The first header from position `k` on that does not match its column.
pub open spec fn first_header_mismatch(cols: Seq<ColumnMeta>, hs: Seq<Seq<char>>, k: int) -> Option<
    Seq<char>,
>
    decreases cols.len() - k,
{
    if k < 0 || k >= cols.len() {
        None
    } else if !header_matches(cols[k], hs[k]) {
        Some(header_mismatch(cols[k], k, hs[k]))
    } else {
        first_header_mismatch(cols, hs, k + 1)
    }
}

/// What `validate_headers` reports: nothing for a schema without headers;
/// a length mismatch; else the first header that matches neither the
/// column's name nor its output name.
pub open spec fn headers_check(s: Schema, hs: Seq<Seq<char>>) -> Option<Seq<char>> {
    let cols = s.columns@;
    if !s.has_headers {
        None
    } else if hs.len() != cols.len() {
        Some(
            "Header length mismatch: schema expects "@ + nat_to_seq(cols.len()) + " column(s) but file contains "@
                + nat_to_seq(hs.len()),
        )
    } else {
        first_header_mismatch(cols, hs, 0)
    }
}

fn mismatch_message(c: &ColumnMeta, i: usize, found: &str) -> (r: String)
    requires
        i < usize::MAX,
    ensures
        r@ == header_mismatch(*c, i as int, found@),
{
    let mut m = chars_of("Header mismatch at position ");
    crate::text::extend_chars(&mut m, usize_to_chars(i + 1).as_slice());
    crate::text::extend_chars(&mut m, chars_of(": expected '").as_slice());
    crate::text::extend_chars(&mut m, chars_of(c.name.as_str()).as_slice());
    let mapped = match &c.rename {
        Some(r) => !r.as_str().is_empty() && !crate::text::str_eq(r.as_str(), c.name.as_str()),
        None => false,
    };
    if mapped {
        match &c.rename {
            Some(r) => {
                crate::text::extend_chars(&mut m, chars_of("' (or mapped '").as_slice());
                crate::text::extend_chars(&mut m, chars_of(r.as_str()).as_slice());
                crate::text::extend_chars(&mut m, chars_of("') but found '").as_slice());
            },
            None => {},
        }
    } else {
        crate::text::extend_chars(&mut m, chars_of("' but found '").as_slice());
    }
    crate::text::extend_chars(&mut m, chars_of(found).as_slice());
    proof {
        reveal_strlit("");
    }
    let ghost pos = nat_to_seq((i + 1) as nat);
    assert(m@ =~= (if mapped {
        "Header mismatch at position "@ + pos + ": expected '"@ + c.name@ + "' (or mapped '"@
            + c.rename.unwrap()@ + "') but found '"@ + found@
    } else {
        "Header mismatch at position "@ + pos + ": expected '"@ + c.name@ + "' but found '"@ + found@
    }));
    cat3("", m.as_slice(), "'")
}

impl Schema {
    /// Checks a file's headers against the columns.
    pub fn validate_headers(&self, headers: &[String]) -> (r: Result<(), String>)
        ensures
            match headers_check(*self, crate::header::strs_view(headers@)) {
                Some(e) => r matches Err(x) && x@ == e,
                None => r is Ok,
            },
    {
        proof {
            reveal_strlit("");
        }
        if !self.has_headers {
            return Ok(());
        }
        if headers.len() != self.columns.len() {
            let mut m = chars_of("Header length mismatch: schema expects ");
            crate::text::extend_chars(&mut m, usize_to_chars(self.columns.len()).as_slice());
            crate::text::extend_chars(&mut m, chars_of(" column(s) but file contains ").as_slice());
            crate::text::extend_chars(&mut m, usize_to_chars(headers.len()).as_slice());
            return Err(cat3("", m.as_slice(), ""));
        }
        let ghost hs = crate::header::strs_view(headers@);
        for i in 0..self.columns.len()
            invariant
                hs == crate::header::strs_view(headers@),
                headers@.len() == self.columns@.len(),
                self.has_headers,
                first_header_mismatch(self.columns@, hs, 0) == first_header_mismatch(
                    self.columns@,
                    hs,
                    i as int,
                ),
        {
            assert(hs[i as int] == headers@[i as int]@);
            if !self.columns[i].matches_header(headers[i].as_str()) {
                return Err(mismatch_message(&self.columns[i], i, headers[i].as_str()));
            }
        }
        Ok(())
    }
}

/// A schema accepts its own column names as headers.
pub proof fn law_schema_accepts_own_headers(s: Schema)
    ensures
        headers_check(s, column_names(s.columns@)) is None,
{
    let cols = s.columns@;
    let hs = column_names(cols);
    if s.has_headers {
        assert forall|k: int| 0 <= k <= cols.len() implies #[trigger] first_header_mismatch(cols, hs, k)
            is None by {
            lemma_no_mismatch_from(cols, hs, k);
        }
    }
}

proof fn lemma_no_mismatch_from(cols: Seq<ColumnMeta>, hs: Seq<Seq<char>>, k: int)
    requires
        hs == column_names(cols),
        0 <= k <= cols.len(),
    ensures
        first_header_mismatch(cols, hs, k) is None,
    decreases cols.len() - k,
{
    if k < cols.len() {
        assert(hs[k] == cols[k].name@);
        lemma_no_mismatch_from(cols, hs, k + 1);
    }
}

} // verus!
