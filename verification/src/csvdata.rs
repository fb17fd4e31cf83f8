//! CSV ingestion: turning header-less CSV records into layout-conformant
//! row literals.
//!
//! Record splitting is done by the csv crate behind a trusted wrapper;
//! integer and boolean fields are parsed by verified code with exact
//! contracts; temporal fields go through chrono under named results; and
//! floating-point fields are read as JSON numbers so that no float
//! arithmetic enters the library.

use vstd::prelude::*;

use crate::demands::CsvColumnMapping;
use crate::json::{
    constant_from_json_scalar, slot_of_scalar, view_scalar, IngestError, JsonScalar, JsonScalarV,
};
use crate::layout::{ColumnType, RowLayout};
use crate::literal::{literal_wf, NullableConstant, RowLiteral};
use crate::order::{cmp_str, Cmp};

verus! {

/// The record split of header-less CSV text: every record's fields as
/// character sequences, in order, or nothing when a record is malformed.
/// A function of the bytes alone.
pub uninterp spec fn csv_records_of(bytes: Seq<u8>) -> Option<Seq<Seq<Seq<char>>>>;

/// The mathematical value of a list of records of string fields.
pub open spec fn records_view(rs: Seq<Vec<String>>) -> Seq<Seq<Seq<char>>> {
    rs.map_values(|rec: Vec<String>| rec@.map_values(|f: String| f@))
}

/// Relies on csv::ReaderBuilder with headers off: splits CSV text into
/// records of string fields, in order; `None` exactly when a record is
/// malformed.
#[verifier::external_body]
pub fn csv_parse_records(text: &[u8]) -> (r: Option<Vec<Vec<String>>>)
    ensures
        (r is Some) == (csv_records_of(text@) is Some),
        r matches Some(rs) ==> csv_records_of(text@) == Some(records_view(rs@)),
{
    let mut rdr = csv::ReaderBuilder::new().has_headers(false).from_reader(text);
    let mut out: Vec<Vec<String>> = Vec::new();
    for rec in rdr.records() {
        match rec {
            Ok(record) => out.push(record.iter().map(|f| f.to_string()).collect()),
            Err(_) => {
                return None;
            },
        }
    }
    Some(out)
}

/// The IEEE 754 bit pattern a textual field denotes when read as a JSON
/// number, if it is one; a function of the characters alone.
pub uninterp spec fn f64_bits_of_text(s: Seq<char>) -> Option<u64>;

/// Relies on serde_json's number parser: reads one field as a JSON number
/// and hands back its bit pattern; the result depends on the text alone.
#[verifier::external_body]
pub fn parse_f64_bits(s: &str) -> (r: Option<u64>)
    ensures
        r == f64_bits_of_text(s@),
{
    serde_json::from_slice::<serde_json::Value>(s.as_bytes()).ok().and_then(|v| v.as_f64()).map(
        |x| x.to_bits(),
    )
}

/// The day number a date string denotes under a chrono format string,
/// counted from the Unix epoch; a function of the two strings alone.
pub uninterp spec fn date_days_of(s: Seq<char>, fmt: Seq<char>) -> Option<i32>;

/// Relies on chrono::NaiveDate::parse_from_str: parses a civil date per
/// the format string; the result depends on the two strings alone.  The
/// day count is taken relative to the Unix epoch.
#[verifier::external_body]
pub fn parse_date(s: &str, fmt: &str) -> (r: Option<i32>)
    ensures
        r == date_days_of(s@, fmt@),
{
    let epoch = chrono::NaiveDate::from_ymd_opt(1970, 1, 1).unwrap();
    chrono::NaiveDate::parse_from_str(s, fmt).ok().map(
        |d| d.signed_duration_since(epoch).num_days() as i32,
    )
}

/// The millisecond timestamp a datetime string denotes under a chrono
/// format string, UTC; a function of the two strings alone.
pub uninterp spec fn timestamp_millis_of(s: Seq<char>, fmt: Seq<char>) -> Option<i64>;

/// Relies on chrono::NaiveDateTime::parse_from_str: parses a civil
/// datetime per the format string, read as UTC; the result depends on the
/// two strings alone.
#[verifier::external_body]
pub fn parse_timestamp(s: &str, fmt: &str) -> (r: Option<i64>)
    ensures
        r == timestamp_millis_of(s@, fmt@),
{
    chrono::NaiveDateTime::parse_from_str(s, fmt).ok().map(|t| t.and_utc().timestamp_millis())
}

/// Is this character a decimal digit?
pub open spec fn spec_is_digit(c: char) -> bool {
    48 <= c as u32 <= 57
}

/// Every character is a decimal digit (and there is at least one).
pub open spec fn all_digits(s: Seq<char>) -> bool {
    s.len() > 0 && forall|k: int| 0 <= k < s.len() ==> spec_is_digit(#[trigger] s[k])
}

/// The number a digit string denotes.
pub open spec fn digits_val(s: Seq<char>) -> int
    decreases s.len(),
{
    if s.len() == 0 {
        0
    } else {
        digits_val(s.drop_last()) * 10 + (s.last() as u32 - 48)
    }
}

/// The integer a decimal string denotes: an optional leading minus, then
/// digits; `None` for anything else.
pub open spec fn parse_int_spec(s: Seq<char>) -> Option<int> {
    if s.len() > 0 && s[0] == '-' {
        if all_digits(s.skip(1)) {
            Some(-digits_val(s.skip(1)))
        } else {
            None
        }
    } else if all_digits(s) {
        Some(digits_val(s))
    } else {
        None
    }
}

proof fn lemma_digits_val_nonneg(s: Seq<char>)
    requires
        forall|k: int| 0 <= k < s.len() ==> spec_is_digit(#[trigger] s[k]),
    ensures
        digits_val(s) >= 0,
    decreases s.len(),
{
    if s.len() > 0 {
        lemma_digits_val_nonneg(s.drop_last());
    }
}

/// Digit prefixes never exceed the whole string's value.
proof fn lemma_digits_prefix(s: Seq<char>, k: int)
    requires
        forall|p: int| 0 <= p < s.len() ==> spec_is_digit(#[trigger] s[p]),
        0 <= k <= s.len(),
    ensures
        digits_val(s.subrange(0, k)) <= digits_val(s),
    decreases s.len() - k,
{
    if k == s.len() {
        assert(s.subrange(0, k) =~= s);
    } else {
        lemma_digits_prefix(s, k + 1);
        let p1 = s.subrange(0, k + 1);
        let p0 = s.subrange(0, k);
        assert(p1.drop_last() =~= p0);
        assert(digits_val(p1) == digits_val(p0) * 10 + (s[k] as u32 - 48));
        lemma_digits_val_nonneg(p0);
    }
}

/// Parses a decimal integer string exactly: `Some` on an optional minus
/// followed by digits whose value fits an `i64`, `None` otherwise.
#[verifier::loop_isolation(false)]
pub fn parse_i64(s: &String) -> (r: Option<i64>)
    ensures
        r matches Some(v) ==> parse_int_spec(s@) == Some(v as int),
        r is None ==> (parse_int_spec(s@) is None || (parse_int_spec(s@) matches Some(v) && !(
        i64::MIN <= v <= i64::MAX))),
{
    let n = s.as_str().unicode_len();
    if n == 0 {
        return None;
    }
    let neg = s.as_str().get_char(0) as u32 == 45;
    proof {
        crate::order::lemma_char_cast_injective(s@[0], '-');
        assert(('-' as u32) == 45);
        assert(neg == (s@[0] == '-'));
    }
    let start: usize = if neg {
        1
    } else {
        0
    };
    if n == start {
        return None;
    }
    let ghost digits = if neg {
        s@.skip(1)
    } else {
        s@
    };
    let mut acc: u128 = 0;
    let mut i: usize = start;
    while i < n
        invariant
            start <= i <= n,
            n == s@.len(),
            start == if neg {
                1int
            } else {
                0int
            },
            start < n,
            digits == if neg {
                s@.skip(1)
            } else {
                s@
            },
            digits.len() == n - start,
            forall|k: int| 0 <= k < i - start ==> spec_is_digit(#[trigger] digits[k]),
            acc == digits_val(digits.subrange(0, i - start)),
            acc <= 0x8000_0000_0000_0000u128,
        decreases n - i,
    {
        let c = s.as_str().get_char(i);
        let u = c as u32;
        proof {
            assert(digits[i - start] == s@[i as int]);
        }
        if u < 48 || u > 57 {
            proof {
                assert(!spec_is_digit(digits[i - start]));
                assert(!all_digits(digits));
            }
            return None;
        }
        let d = (u - 48) as u128;
        proof {
            assert(digits.subrange(0, i - start + 1).drop_last() =~= digits.subrange(
                0,
                i - start,
            ));
            assert(digits.subrange(0, i - start + 1).last() == digits[i - start]);
        }
        acc = acc * 10 + d;
        if acc > 0x8000_0000_0000_0000u128 {
            proof {
                assert(all_digits(digits) ==> digits_val(digits) >= acc as int) by {
                    if all_digits(digits) {
                        lemma_digits_prefix(digits, i - start + 1);
                    }
                }
                if parse_int_spec(s@) is Some {
                    assert(all_digits(digits));
                    assert(parse_int_spec(s@) == Some(
                        if neg {
                            -digits_val(digits)
                        } else {
                            digits_val(digits)
                        },
                    ));
                }
            }
            return None;
        }
        i = i + 1;
    }
    proof {
        assert(digits.subrange(0, digits.len() as int) =~= digits);
        assert(all_digits(digits));
        assert(acc as int == digits_val(digits));
    }
    if neg {
        if acc == 0x8000_0000_0000_0000u128 {
            Some(i64::MIN)
        } else {
            Some(-(acc as i64))
        }
    } else {
        if acc > i64::MAX as u128 {
            return None;
        }
        Some(acc as i64)
    }
}

/// Parses a boolean field: exactly `true` or `false`.
pub fn parse_bool(s: &String) -> (r: Option<bool>)
    ensures
        s@ == "true"@ ==> r == Some(true),
        s@ == "false"@ ==> r == Some(false),
        (s@ != "true"@ && s@ != "false"@) ==> r is None,
{
    proof {
        reveal_strlit("true");
        reveal_strlit("false");
    }
    let t = String::from_str("true");
    let f = String::from_str("false");
    match cmp_str(s, &t) {
        Cmp::Eq => Some(true),
        _ => match cmp_str(s, &f) {
            Cmp::Eq => Some(false),
            _ => None,
        },
    }
}

/// The view of an optional format string.
pub open spec fn view_fmt(f: Option<String>) -> Option<Seq<char>> {
    match f {
        Some(x) => Some(x@),
        None => None,
    }
}

/// The scalar one CSV field denotes for a column type: the exact meaning
/// of [`csv_field_scalar`].  Integers parse decimally; booleans are
/// exactly `true` or `false`; floats read as JSON numbers; temporal fields
/// follow the chrono format string or the conventional defaults.
pub open spec fn csv_scalar_spec(field: Seq<char>, ty: ColumnType, fmt: Option<Seq<char>>) -> Option<
    JsonScalarV,
> {
    match ty {
        ColumnType::U8 | ColumnType::I8 | ColumnType::U16 | ColumnType::I16 | ColumnType::U32
            | ColumnType::I32 | ColumnType::I64 | ColumnType::Isize => match parse_int_spec(
            field,
        ) {
            Some(v) => if i64::MIN <= v <= i64::MAX {
                Some(JsonScalarV::JI64(v as i64))
            } else {
                None
            },
            None => None,
        },
        ColumnType::U64 | ColumnType::Usize => match parse_int_spec(field) {
            Some(v) => if 0 <= v <= i64::MAX {
                Some(JsonScalarV::JU64(v as u64))
            } else {
                None
            },
            None => None,
        },
        ColumnType::Bool => if field == "true"@ {
            Some(JsonScalarV::JBool(true))
        } else if field == "false"@ {
            Some(JsonScalarV::JBool(false))
        } else {
            None
        },
        ColumnType::String => Some(JsonScalarV::JStr(field)),
        ColumnType::F64 => match f64_bits_of_text(field) {
            Some(b) => Some(JsonScalarV::JF64Bits(b)),
            None => None,
        },
        ColumnType::Date => match date_days_of(
            field,
            match fmt {
                Some(f) => f,
                None => "%F"@,
            },
        ) {
            Some(d) => Some(JsonScalarV::JI64(d as i64)),
            None => None,
        },
        ColumnType::Timestamp => match timestamp_millis_of(
            field,
            match fmt {
                Some(f) => f,
                None => "%F %T"@,
            },
        ) {
            Some(ms) => Some(JsonScalarV::JI64(ms)),
            None => None,
        },
        _ => None,
    }
}

/// The first mapping entry targeting column `i`: its source field position
/// and format string.
pub open spec fn find_csv_entry(ms: Seq<(usize, usize, Option<String>)>, i: int) -> Option<
    (usize, Option<Seq<char>>),
>
    decreases ms.len(),
{
    if ms.len() == 0 {
        None
    } else if ms[0].1 == i {
        Some((ms[0].0, view_fmt(ms[0].2)))
    } else {
        find_csv_entry(ms.skip(1), i)
    }
}

/// The mathematical value of a record's fields.
pub open spec fn fields_view(fs: Seq<String>) -> Seq<Seq<char>> {
    fs.map_values(|f: String| f@)
}

/// The column slot one CSV record yields for column `i`: the exact
/// meaning of one iteration of [`literal_from_csv`].  Unmapped columns and
/// empty fields of nullable columns come out null.
pub open spec fn csv_slot_spec(
    fields: Seq<Seq<char>>,
    ms: Seq<(usize, usize, Option<String>)>,
    ty: ColumnType,
    nullable: bool,
    i: int,
) -> Result<crate::literal::NullableConstantV, IngestError> {
    match find_csv_entry(ms, i) {
        None => slot_of_scalar(None, ty, nullable),
        Some((col, fmt)) => if col >= fields.len() {
            Err(IngestError::MissingField)
        } else if nullable && fields[col as int].len() == 0 {
            slot_of_scalar(None, ty, nullable)
        } else {
            slot_of_scalar(csv_scalar_spec(fields[col as int], ty, fmt), ty, nullable)
        },
    }
}

/// The literal one CSV record yields over the first `n` columns, or the
/// first column's error.
pub open spec fn csv_literal_spec(
    fields: Seq<Seq<char>>,
    ms: Seq<(usize, usize, Option<String>)>,
    cols: Seq<(crate::layout::ColumnType, bool)>,
    n: int,
) -> Result<Seq<crate::literal::NullableConstantV>, IngestError>
    decreases n,
{
    if n <= 0 {
        Ok(Seq::empty())
    } else {
        match csv_literal_spec(fields, ms, cols, n - 1) {
            Err(e) => Err(e),
            Ok(pre) => match csv_slot_spec(fields, ms, cols[n - 1].0, cols[n - 1].1, n - 1) {
                Err(e) => Err(e),
                Ok(slot) => Ok(pre.push(slot)),
            },
        }
    }
}

/// A failing prefix decides the whole record.
proof fn lemma_csv_literal_err(
    fields: Seq<Seq<char>>,
    ms: Seq<(usize, usize, Option<String>)>,
    cols: Seq<(crate::layout::ColumnType, bool)>,
    m: int,
    n: int,
)
    requires
        0 <= m <= n,
        csv_literal_spec(fields, ms, cols, m) is Err,
    ensures
        csv_literal_spec(fields, ms, cols, n) == csv_literal_spec(fields, ms, cols, m),
    decreases n - m,
{
    if m < n {
        lemma_csv_literal_err(fields, ms, cols, m, n - 1);
    }
}

/// Extracts the scalar for one CSV field suited to column type `ty`.
/// Floating-point fields are read as JSON numbers; temporal fields use the
/// mapping's chrono format string or the conventional defaults.
fn csv_field_scalar(field: &String, ty: ColumnType, fmt: &Option<String>) -> (r: Option<
    JsonScalar,
>)
    ensures
        view_scalar(r) == csv_scalar_spec(field@, ty, view_fmt(*fmt)),
{
    match ty {
        ColumnType::U8 | ColumnType::I8 | ColumnType::U16 | ColumnType::I16 | ColumnType::U32
            | ColumnType::I32 | ColumnType::I64 | ColumnType::Isize => match parse_i64(field) {
            Some(x) => Some(JsonScalar::JI64(x)),
            None => None,
        },
        ColumnType::U64 | ColumnType::Usize => match parse_i64(field) {
            Some(x) => if x >= 0 {
                Some(JsonScalar::JU64(x as u64))
            } else {
                None
            },
            None => None,
        },
        ColumnType::Bool => match parse_bool(field) {
            Some(b) => Some(JsonScalar::JBool(b)),
            None => None,
        },
        ColumnType::String => Some(JsonScalar::JStr(field.clone())),
        ColumnType::F64 => match parse_f64_bits(field.as_str()) {
            Some(bits) => Some(JsonScalar::JF64Bits(bits)),
            None => None,
        },
        ColumnType::Date => {
            let fmt_str: &str = match fmt {
                Some(fs) => fs.as_str(),
                None => "%F",
            };
            match parse_date(field.as_str(), fmt_str) {
                Some(days) => Some(JsonScalar::JI64(days as i64)),
                None => None,
            }
        },
        ColumnType::Timestamp => {
            let fmt_str: &str = match fmt {
                Some(fs) => fs.as_str(),
                None => "%F %T",
            };
            match parse_timestamp(field.as_str(), fmt_str) {
                Some(ms) => Some(JsonScalar::JI64(ms)),
                None => None,
            }
        },
        _ => None,
    }
}

/// Builds a row literal from one CSV record per the demand's column
/// mapping.  Columns without a mapping, and empty fields of nullable
/// columns, come out null.  The result is always well-formed for the
/// layout.
#[verifier::loop_isolation(false)]
pub fn literal_from_csv(
    fields: &Vec<String>,
    mapping: &CsvColumnMapping,
    layout: &RowLayout,
) -> (r: Result<RowLiteral, IngestError>)
    ensures
        (match csv_literal_spec(
            fields_view(fields@),
            mapping@,
            layout.cols@,
            layout.cols@.len() as int,
        ) {
            Ok(l) => r matches Ok(lit) && lit@ == l,
            Err(e) => r == Err::<RowLiteral, IngestError>(e),
        }),
        r matches Ok(lit) ==> literal_wf(lit@, layout.cols@),
        r matches Err(e) ==> (e == IngestError::MissingField || e == IngestError::BadValue),
{
    let ghost fv = fields_view(fields@);
    let ghost mv = mapping@;
    let ghost cols = layout.cols@;
    let n = layout.cols.len();
    let mut columns: Vec<NullableConstant> = Vec::new();
    let mut i: usize = 0;
    proof {
        assert(slots_view(columns@) =~= Seq::<crate::literal::NullableConstantV>::empty());
    }
    while i < n
        invariant
            i <= n,
            columns@.len() == i,
            csv_literal_spec(fv, mv, cols, i as int) == Ok::<
                Seq<crate::literal::NullableConstantV>,
                IngestError,
            >(slots_view(columns@)),
            forall|k: int|
                0 <= k < i ==> match (#[trigger] columns@[k])@ {
                    crate::literal::NullableConstantV::NonNull(c) => !layout.cols@[k].1
                        && crate::literal::constant_matches(c, layout.cols@[k].0),
                    crate::literal::NullableConstantV::Nullable(o) => layout.cols@[k].1 && (
                    o matches Some(c) ==> crate::literal::constant_matches(c, layout.cols@[k].0)),
                },
        decreases n - i,
    {
        let ty = layout.cols[i].0;
        let nullable = layout.cols[i].1;
        // The source field mapped to this column, if any.
        let mut src: Option<(usize, &Option<String>)> = None;
        let m = mapping.len();
        let mut j: usize = 0;
        proof {
            assert(mv.skip(0) =~= mv);
        }
        while j < m
            invariant
                j <= m,
                (match src {
                    Some(e) => find_csv_entry(mv, i as int) == Some(((e.0, view_fmt(*e.1)))),
                    None => find_csv_entry(mv, i as int) == find_csv_entry(
                        mv.skip(j as int),
                        i as int,
                    ),
                }),
            decreases m - j,
        {
            proof {
                assert(mv.skip(j as int)[0] == mv[j as int]);
                assert(mv.skip(j as int).skip(1) =~= mv.skip(j as int + 1));
            }
            if src.is_none() && mapping[j].1 == i {
                src = Some((mapping[j].0, &mapping[j].2));
            }
            j = j + 1;
        }
        proof {
            if src is None {
                assert(mv.skip(m as int) =~= Seq::<(usize, usize, Option<String>)>::empty());
            }
        }
        let ghost spec_slot = csv_slot_spec(fv, mv, ty, nullable, i as int);
        let scalar = match src {
            Some((col, fmt)) => {
                if col >= fields.len() {
                    proof {
                        lemma_csv_literal_err(fv, mv, cols, i as int + 1, n as int);
                    }
                    return Err(IngestError::MissingField);
                }
                let field = &fields[col];
                proof {
                    assert(fv[col as int] == fields@[col as int]@);
                }
                if nullable && field.as_str().unicode_len() == 0 {
                    None
                } else {
                    csv_field_scalar(field, ty, fmt)
                }
            },
            None => None,
        };
        let slot = match constant_from_json_scalar(scalar, ty, nullable) {
            Ok(s) => s,
            Err(e) => {
                proof {
                    assert(spec_slot == Err::<crate::literal::NullableConstantV, IngestError>(e));
                    lemma_csv_literal_err(fv, mv, cols, i as int + 1, n as int);
                }
                return Err(e);
            },
        };
        proof {
            assert(spec_slot == Ok::<crate::literal::NullableConstantV, IngestError>(slot@));
        }
        let ghost pre_cols = columns@;
        columns.push(slot);
        proof {
            assert(slots_view(columns@) =~= slots_view(pre_cols).push(slot@));
            assert(csv_literal_spec(fv, mv, cols, i as int + 1) == Ok::<
                Seq<crate::literal::NullableConstantV>,
                IngestError,
            >(slots_view(pre_cols).push(slot@)));
        }
        i = i + 1;
    }
    let r = RowLiteral { columns };
    proof {
        assert forall|k: int| 0 <= k < r@.len() implies r@[k] == r.columns@[k]@ by {}
        assert(literal_wf(r@, layout.cols@));
        assert(r@ =~= slots_view(r.columns@));
    }
    Ok(r)
}

/// The mathematical value of a list of column slots.
pub open spec fn slots_view(cs: Seq<NullableConstant>) -> Seq<crate::literal::NullableConstantV> {
    cs.map_values(|c: NullableConstant| c@)
}

} // verus!
