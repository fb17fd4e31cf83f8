//! JSON ingestion: turning the bytes of JSON values into layout-conformant
//! row literals.
//!
//! serde_json sits behind three trusted wrappers that hand back plain
//! values under named results: whether bytes hold one value, how a
//! concatenated stream splits into value slices, and what member a value
//! holds under an object key.  Everything above them is verified exactly:
//! [`json_literal_spec`] pins the literal each value yields under a
//! demand's column-to-key mapping, column by column.

use vstd::prelude::*;

use crate::demands::JsonDeserConfig;
use crate::layout::{ColumnType, RowLayout};
use crate::literal::{
    constant_matches, literal_wf, Constant, NullableConstant, RowLiteral,
};

verus! {

/// A scalar extracted from a JSON value: the plain-value face of
/// serde_json inside the library.
pub enum JsonScalar {
    JNull,
    JBool(bool),
    JI64(i64),
    JU64(u64),
    JF64Bits(u64),
    JStr(String),
}

/// The mathematical value of a [`JsonScalar`].
pub enum JsonScalarV {
    JNull,
    JBool(bool),
    JI64(i64),
    JU64(u64),
    JF64Bits(u64),
    JStr(Seq<char>),
}

impl View for JsonScalar {
    type V = JsonScalarV;

    open spec fn view(&self) -> JsonScalarV {
        match self {
            JsonScalar::JNull => JsonScalarV::JNull,
            JsonScalar::JBool(b) => JsonScalarV::JBool(*b),
            JsonScalar::JI64(x) => JsonScalarV::JI64(*x),
            JsonScalar::JU64(x) => JsonScalarV::JU64(*x),
            JsonScalar::JF64Bits(x) => JsonScalarV::JF64Bits(*x),
            JsonScalar::JStr(t) => JsonScalarV::JStr(t@),
        }
    }
}

/// The column slot one extracted scalar denotes: the exact meaning of
/// [`constant_from_json_scalar`].  Null or absent scalars fill nullable
/// columns with null and fail non-nullable ones; integers are
/// range-checked into narrow columns; anything else is a bad value.
pub open spec fn slot_of_scalar(s: Option<JsonScalarV>, ty: ColumnType, nullable: bool) -> Result<
    crate::literal::NullableConstantV,
    IngestError,
> {
    let scalar = match s {
        Some(x) => x,
        None => JsonScalarV::JNull,
    };
    if scalar is JNull {
        if nullable {
            Ok(crate::literal::NullableConstantV::Nullable(None))
        } else {
            Err(IngestError::MissingField)
        }
    } else {
        match scalar_constant(scalar, ty) {
            Ok(c) => if nullable {
                Ok(crate::literal::NullableConstantV::Nullable(Some(c)))
            } else {
                Ok(crate::literal::NullableConstantV::NonNull(c))
            },
            Err(e) => Err(e),
        }
    }
}

/// The constant a present scalar denotes for a column type.
pub open spec fn scalar_constant(scalar: JsonScalarV, ty: ColumnType) -> Result<
    crate::literal::ConstantV,
    IngestError,
> {
    match (scalar, ty) {
        (JsonScalarV::JBool(b), ColumnType::Bool) => Ok(crate::literal::ConstantV::Bool(b)),
        (JsonScalarV::JI64(x), ColumnType::I64) => Ok(crate::literal::ConstantV::I64(x)),
        (JsonScalarV::JI64(x), ColumnType::I32) => if i32::MIN <= x <= i32::MAX {
            Ok(crate::literal::ConstantV::I32(x as i32))
        } else {
            Err(IngestError::BadValue)
        },
        (JsonScalarV::JI64(x), ColumnType::I16) => if i16::MIN <= x <= i16::MAX {
            Ok(crate::literal::ConstantV::I16(x as i16))
        } else {
            Err(IngestError::BadValue)
        },
        (JsonScalarV::JI64(x), ColumnType::I8) => if i8::MIN <= x <= i8::MAX {
            Ok(crate::literal::ConstantV::I8(x as i8))
        } else {
            Err(IngestError::BadValue)
        },
        (JsonScalarV::JI64(x), ColumnType::U8) => if 0 <= x <= u8::MAX {
            Ok(crate::literal::ConstantV::U8(x as u8))
        } else {
            Err(IngestError::BadValue)
        },
        (JsonScalarV::JI64(x), ColumnType::U16) => if 0 <= x <= u16::MAX {
            Ok(crate::literal::ConstantV::U16(x as u16))
        } else {
            Err(IngestError::BadValue)
        },
        (JsonScalarV::JI64(x), ColumnType::U32) => if 0 <= x <= u32::MAX {
            Ok(crate::literal::ConstantV::U32(x as u32))
        } else {
            Err(IngestError::BadValue)
        },
        (JsonScalarV::JI64(x), ColumnType::Date) => if i32::MIN <= x <= i32::MAX {
            Ok(crate::literal::ConstantV::Date(x as i32))
        } else {
            Err(IngestError::BadValue)
        },
        (JsonScalarV::JI64(x), ColumnType::Timestamp) => Ok(
            crate::literal::ConstantV::Timestamp(x),
        ),
        (JsonScalarV::JI64(x), ColumnType::Isize) => if isize::MIN <= x <= isize::MAX {
            Ok(crate::literal::ConstantV::Isize(x as isize))
        } else {
            Err(IngestError::BadValue)
        },
        (JsonScalarV::JU64(x), ColumnType::U64) => Ok(crate::literal::ConstantV::U64(x)),
        (JsonScalarV::JU64(x), ColumnType::Usize) => if x <= usize::MAX {
            Ok(crate::literal::ConstantV::Usize(x as usize))
        } else {
            Err(IngestError::BadValue)
        },
        (JsonScalarV::JF64Bits(x), ColumnType::F64) => Ok(crate::literal::ConstantV::F64Bits(x)),
        (JsonScalarV::JF64Bits(x), ColumnType::F32) => if x <= u32::MAX {
            Ok(crate::literal::ConstantV::F32Bits(x as u32))
        } else {
            Err(IngestError::BadValue)
        },
        (JsonScalarV::JStr(t), ColumnType::String) => Ok(crate::literal::ConstantV::String(t)),
        _ => Err(IngestError::BadValue),
    }
}

/// Why an ingestion call failed.
#[derive(Clone, Copy, Debug, PartialEq, Eq, Structural)]
pub enum IngestError {
    /// The input text is not a well-formed value of its format.
    Parse,
    /// A non-nullable column had no usable value in the record.
    MissingField,
    /// A field's value does not fit its column's type.
    BadValue,
    /// Map-typed sources are not yet supported by this format.
    NotImplemented,
}

/// Does the byte string hold exactly one well-formed JSON value?  A
/// function of the bytes alone.
pub uninterp spec fn json_parses(bytes: Seq<u8>) -> bool;

/// Relies on serde_json::from_slice: recognizes exactly one JSON value in
/// the bytes, surrounding whitespace aside.
#[verifier::external_body]
pub fn json_parse_check(bytes: &[u8]) -> (r: bool)
    ensures
        r == json_parses(bytes@),
{
    serde_json::from_slice::<serde_json::Value>(bytes).is_ok()
}

/// The split of a concatenated JSON stream: the byte slice of each leading
/// well-formed value, and whether the whole stream is well-formed.  A
/// function of the bytes alone.
pub uninterp spec fn json_stream_split(bytes: Seq<u8>) -> (Seq<Seq<u8>>, bool);

/// Relies on serde_json's StreamDeserializer: splits a byte stream of
/// concatenated JSON values at value boundaries, stopping at the first
/// malformed value; every returned slice is itself one well-formed value,
/// and the flag reports whether the whole stream parsed.
#[verifier::external_body]
pub fn json_parse_stream(bytes: &[u8]) -> (r: (Vec<Vec<u8>>, bool))
    ensures
        slices_view(r.0@) == json_stream_split(bytes@).0,
        r.1 == json_stream_split(bytes@).1,
        forall|j: int| 0 <= j < r.0@.len() ==> json_parses(#[trigger] r.0@[j]@),
{
    let mut stream = serde_json::Deserializer::from_slice(bytes).into_iter::<serde_json::Value>();
    let (mut out, mut complete, mut start): (Vec<Vec<u8>>, bool, usize) = (Vec::new(), true, 0);
    while let Some(item) = stream.next() {
        if item.is_err() {
            complete = false;
            break ;
        }
        out.push(bytes[start..stream.byte_offset()].to_vec());
        start = stream.byte_offset();
    }
    (out, complete)
}

/// The mathematical value of a list of byte slices.
pub open spec fn slices_view(vs: Seq<Vec<u8>>) -> Seq<Seq<u8>> {
    vs.map_values(|v: Vec<u8>| v@)
}

/// Every reading of one member of a JSON value: its nullness and its
/// integer, unsigned, float-bit, boolean and textual forms, where the
/// member has them.
pub struct JsonLeaf {
    pub null: bool,
    pub int: Option<i64>,
    pub nat: Option<u64>,
    pub bits: Option<u64>,
    pub flag: Option<bool>,
    pub text: Option<String>,
}

/// The mathematical value of a [`JsonLeaf`].
pub struct JsonLeafV {
    pub null: bool,
    pub int: Option<i64>,
    pub nat: Option<u64>,
    pub bits: Option<u64>,
    pub flag: Option<bool>,
    pub text: Option<Seq<char>>,
}

impl View for JsonLeaf {
    type V = JsonLeafV;

    open spec fn view(&self) -> JsonLeafV {
        JsonLeafV {
            null: self.null,
            int: self.int,
            nat: self.nat,
            bits: self.bits,
            flag: self.flag,
            text: match self.text {
                Some(t) => Some(t@),
                None => None,
            },
        }
    }
}

/// The view of an optional leaf.
pub open spec fn view_leaf(r: Option<JsonLeaf>) -> Option<JsonLeafV> {
    match r {
        Some(l) => Some(l@),
        None => None,
    }
}

/// The member a single JSON value holds under an object key, read every
/// way the engine can use it; nothing when the bytes are malformed or the
/// key is absent.  A function of the bytes and the key alone.
pub uninterp spec fn json_leaf_of(bytes: Seq<u8>, key: Seq<char>) -> Option<JsonLeafV>;

/// Relies on serde_json::from_slice and the Value readers (get, is_null,
/// as_i64, as_u64, as_f64, as_bool, as_str): parses the single value in
/// the bytes and copies out the member under the key.
#[verifier::external_body]
pub fn json_leaf(bytes: &[u8], key: &str) -> (r: Option<JsonLeaf>)
    ensures
        view_leaf(r) == json_leaf_of(bytes@, key@),
{
    let value: serde_json::Value = serde_json::from_slice(bytes).ok()?;
    let member = value.get(key)?;
    Some(
        JsonLeaf {
            null: member.is_null(),
            int: member.as_i64(),
            nat: member.as_u64(),
            bits: member.as_f64().map(|x| x.to_bits()),
            flag: member.as_bool(),
            text: member.as_str().map(|t| t.to_string()),
        },
    )
}

/// The view of an optional scalar.
pub open spec fn view_scalar(s: Option<JsonScalar>) -> Option<JsonScalarV> {
    match s {
        Some(x) => Some(x@),
        None => None,
    }
}

/// The scalar one member yields for a column type: the exact meaning of
/// [`json_field`].
pub open spec fn json_scalar_spec(bytes: Seq<u8>, key: Seq<char>, ty: ColumnType) -> Option<
    JsonScalarV,
> {
    match json_leaf_of(bytes, key) {
        None => None,
        Some(leaf) => if leaf.null {
            Some(JsonScalarV::JNull)
        } else {
            match ty {
                ColumnType::U8 | ColumnType::I8 | ColumnType::U16 | ColumnType::I16
                    | ColumnType::U32 | ColumnType::I32 | ColumnType::I64 | ColumnType::Isize
                    | ColumnType::Date | ColumnType::Timestamp => match leaf.int {
                    Some(x) => Some(JsonScalarV::JI64(x)),
                    None => None,
                },
                ColumnType::U64 | ColumnType::Usize => match leaf.nat {
                    Some(x) => Some(JsonScalarV::JU64(x)),
                    None => None,
                },
                ColumnType::Bool => match leaf.flag {
                    Some(b) => Some(JsonScalarV::JBool(b)),
                    None => None,
                },
                ColumnType::String => match leaf.text {
                    Some(t) => Some(JsonScalarV::JStr(t)),
                    None => None,
                },
                ColumnType::F64 => match leaf.bits {
                    Some(b) => Some(JsonScalarV::JF64Bits(b)),
                    None => None,
                },
                _ => None,
            }
        },
    }
}

/// Extracts the scalar under `key` suited to column type `ty`, if any.
fn json_field(bytes: &[u8], key: &str, ty: ColumnType) -> (r: Option<JsonScalar>)
    ensures
        view_scalar(r) == json_scalar_spec(bytes@, key@, ty),
{
    let member = match json_leaf(bytes, key) {
        Some(m) => m,
        None => {
            return None;
        },
    };
    if member.null {
        return Some(JsonScalar::JNull);
    }
    match ty {
        ColumnType::U8 | ColumnType::I8 | ColumnType::U16 | ColumnType::I16 | ColumnType::U32
            | ColumnType::I32 | ColumnType::I64 | ColumnType::Isize | ColumnType::Date
            | ColumnType::Timestamp => match member.int {
            Some(x) => Some(JsonScalar::JI64(x)),
            None => None,
        },
        ColumnType::U64 | ColumnType::Usize => match member.nat {
            Some(x) => Some(JsonScalar::JU64(x)),
            None => None,
        },
        ColumnType::Bool => match member.flag {
            Some(x) => Some(JsonScalar::JBool(x)),
            None => None,
        },
        ColumnType::String => match member.text {
            Some(x) => Some(JsonScalar::JStr(x)),
            None => None,
        },
        ColumnType::F64 => match member.bits {
            Some(x) => Some(JsonScalar::JF64Bits(x)),
            None => None,
        },
        _ => None,
    }
}

/// Converts one extracted scalar into one column slot; the exact,
/// verified tail of JSON ingestion.  Null or absent scalars fill nullable
/// columns with null and fail non-nullable ones; integer scalars are
/// range-checked into narrow columns.
pub fn constant_from_json_scalar(s: Option<JsonScalar>, ty: ColumnType, nullable: bool) -> (r:
    Result<NullableConstant, IngestError>)
    ensures
        (match r {
            Ok(slot) => slot_of_scalar(view_scalar(s), ty, nullable) == Ok::<
                crate::literal::NullableConstantV,
                IngestError,
            >(slot@),
            Err(e) => slot_of_scalar(view_scalar(s), ty, nullable) == Err::<
                crate::literal::NullableConstantV,
                IngestError,
            >(e),
        }),
        r matches Ok(slot) ==> (match slot@ {
            crate::literal::NullableConstantV::NonNull(c) => !nullable && constant_matches(c, ty),
            crate::literal::NullableConstantV::Nullable(o) => nullable && (o matches Some(c)
                ==> constant_matches(c, ty)),
        }),
        r matches Err(e) ==> (e == IngestError::MissingField || e == IngestError::BadValue),
{
    let scalar = match s {
        Some(x) => x,
        None => {
            if nullable {
                return Ok(NullableConstant::Nullable(None));
            } else {
                return Err(IngestError::MissingField);
            }
        },
    };
    let c: Constant = match (scalar, ty) {
        (JsonScalar::JNull, _) => {
            if nullable {
                return Ok(NullableConstant::Nullable(None));
            } else {
                return Err(IngestError::MissingField);
            }
        },
        (JsonScalar::JBool(b), ColumnType::Bool) => Constant::Bool(b),
        (JsonScalar::JI64(x), ColumnType::I64) => Constant::I64(x),
        (JsonScalar::JI64(x), ColumnType::I32) => {
            if x < i32::MIN as i64 || x > i32::MAX as i64 {
                return Err(IngestError::BadValue);
            }
            Constant::I32(x as i32)
        },
        (JsonScalar::JI64(x), ColumnType::I16) => {
            if x < i16::MIN as i64 || x > i16::MAX as i64 {
                return Err(IngestError::BadValue);
            }
            Constant::I16(x as i16)
        },
        (JsonScalar::JI64(x), ColumnType::I8) => {
            if x < i8::MIN as i64 || x > i8::MAX as i64 {
                return Err(IngestError::BadValue);
            }
            Constant::I8(x as i8)
        },
        (JsonScalar::JI64(x), ColumnType::U8) => {
            if x < 0 || x > u8::MAX as i64 {
                return Err(IngestError::BadValue);
            }
            Constant::U8(x as u8)
        },
        (JsonScalar::JI64(x), ColumnType::U16) => {
            if x < 0 || x > u16::MAX as i64 {
                return Err(IngestError::BadValue);
            }
            Constant::U16(x as u16)
        },
        (JsonScalar::JI64(x), ColumnType::U32) => {
            if x < 0 || x > u32::MAX as i64 {
                return Err(IngestError::BadValue);
            }
            Constant::U32(x as u32)
        },
        (JsonScalar::JI64(x), ColumnType::Date) => {
            if x < i32::MIN as i64 || x > i32::MAX as i64 {
                return Err(IngestError::BadValue);
            }
            Constant::Date(x as i32)
        },
        (JsonScalar::JI64(x), ColumnType::Timestamp) => Constant::Timestamp(x),
        (JsonScalar::JI64(x), ColumnType::Isize) => {
            if x < isize::MIN as i64 || x > isize::MAX as i64 {
                return Err(IngestError::BadValue);
            }
            Constant::Isize(x as isize)
        },
        (JsonScalar::JU64(x), ColumnType::U64) => Constant::U64(x),
        (JsonScalar::JU64(x), ColumnType::Usize) => {
            if x > usize::MAX as u64 {
                return Err(IngestError::BadValue);
            }
            Constant::Usize(x as usize)
        },
        (JsonScalar::JF64Bits(x), ColumnType::F64) => Constant::F64Bits(x),
        (JsonScalar::JF64Bits(x), ColumnType::F32) => {
            if x > u32::MAX as u64 {
                return Err(IngestError::BadValue);
            }
            Constant::F32Bits(x as u32)
        },
        (JsonScalar::JStr(s2), ColumnType::String) => Constant::String(s2),
        _ => {
            return Err(IngestError::BadValue);
        },
    };
    if nullable {
        Ok(NullableConstant::Nullable(Some(c)))
    } else {
        Ok(NullableConstant::NonNull(c))
    }
}

/// Does some mapping entry target column `i`?
/// The mathematical value of a JSON column mapping: per entry, the target
/// column and the object key's characters.
pub open spec fn jmap_view(ms: Seq<(usize, String)>) -> Seq<(usize, Seq<char>)> {
    ms.map_values(|e: (usize, String)| (e.0, e.1@))
}

/// The first mapping entry targeting column `i`: the object key holding
/// its value.
pub open spec fn find_json_entry(ms: Seq<(usize, Seq<char>)>, i: int) -> Option<Seq<char>>
    decreases ms.len(),
{
    if ms.len() == 0 {
        None
    } else if ms[0].0 == i {
        Some(ms[0].1)
    } else {
        find_json_entry(ms.skip(1), i)
    }
}

/// The column slot one JSON value yields for column `i`: the exact
/// meaning of one iteration of [`literal_from_json`].  Unmapped columns
/// and absent or null members come out null where the column allows it.
pub open spec fn json_slot_spec(
    bytes: Seq<u8>,
    ms: Seq<(usize, Seq<char>)>,
    ty: ColumnType,
    nullable: bool,
    i: int,
) -> Result<crate::literal::NullableConstantV, IngestError> {
    match find_json_entry(ms, i) {
        None => slot_of_scalar(None, ty, nullable),
        Some(key) => slot_of_scalar(json_scalar_spec(bytes, key, ty), ty, nullable),
    }
}

/// The literal one JSON value yields over the first `n` columns, or the
/// first column's error.
pub open spec fn json_literal_spec(
    bytes: Seq<u8>,
    ms: Seq<(usize, Seq<char>)>,
    cols: Seq<(ColumnType, bool)>,
    n: int,
) -> Result<Seq<crate::literal::NullableConstantV>, IngestError>
    decreases n,
{
    if n <= 0 {
        Ok(Seq::empty())
    } else {
        match json_literal_spec(bytes, ms, cols, n - 1) {
            Err(e) => Err(e),
            Ok(pre) => match json_slot_spec(bytes, ms, cols[n - 1].0, cols[n - 1].1, n - 1) {
                Err(e) => Err(e),
                Ok(slot) => Ok(pre.push(slot)),
            },
        }
    }
}

/// A failing prefix decides the whole value.
pub proof fn lemma_json_literal_err(
    bytes: Seq<u8>,
    ms: Seq<(usize, Seq<char>)>,
    cols: Seq<(ColumnType, bool)>,
    m: int,
    n: int,
)
    requires
        0 <= m <= n,
        json_literal_spec(bytes, ms, cols, m) is Err,
    ensures
        json_literal_spec(bytes, ms, cols, n) == json_literal_spec(bytes, ms, cols, m),
    decreases n - m,
{
    if m < n {
        lemma_json_literal_err(bytes, ms, cols, m, n - 1);
    }
}

/// The mathematical value of a list of column slots.
pub open spec fn jslots_view(cs: Seq<NullableConstant>) -> Seq<crate::literal::NullableConstantV> {
    cs.map_values(|c: NullableConstant| c@)
}

/// Builds a row literal from the bytes of one JSON value per the demand's
/// column-to-key mapping: exactly [`json_literal_spec`] of the bytes.
/// Columns without a mapping entry, and null or absent members of nullable
/// columns, come out null.  The result is always well-formed for the
/// layout.
#[verifier::loop_isolation(false)]
pub fn literal_from_json(
    bytes: &[u8],
    mapping: &JsonDeserConfig,
    layout: &RowLayout,
) -> (r: Result<RowLiteral, IngestError>)
    ensures
        (match json_literal_spec(
            bytes@,
            jmap_view(mapping.mappings@),
            layout.cols@,
            layout.cols@.len() as int,
        ) {
            Ok(l) => r matches Ok(lit) && lit@ == l,
            Err(e) => r == Err::<RowLiteral, IngestError>(e),
        }),
        r matches Ok(lit) ==> literal_wf(lit@, layout.cols@),
        r matches Err(e) ==> (e == IngestError::MissingField || e == IngestError::BadValue),
{
    let ghost mv = jmap_view(mapping.mappings@);
    let ghost cols = layout.cols@;
    let n = layout.cols.len();
    let mut columns: Vec<NullableConstant> = Vec::new();
    let mut i: usize = 0;
    proof {
        assert(jslots_view(columns@) =~= Seq::<crate::literal::NullableConstantV>::empty());
    }
    while i < n
        invariant
            i <= n,
            columns@.len() == i,
            json_literal_spec(bytes@, mv, cols, i as int) == Ok::<
                Seq<crate::literal::NullableConstantV>,
                IngestError,
            >(jslots_view(columns@)),
            forall|k: int|
                0 <= k < i ==> match (#[trigger] columns@[k])@ {
                    crate::literal::NullableConstantV::NonNull(c) => !layout.cols@[k].1
                        && constant_matches(c, layout.cols@[k].0),
                    crate::literal::NullableConstantV::Nullable(o) => layout.cols@[k].1 && (
                    o matches Some(c) ==> constant_matches(c, layout.cols@[k].0)),
                },
        decreases n - i,
    {
        let ty = layout.cols[i].0;
        let nullable = layout.cols[i].1;
        // The key mapped to this column, if any.
        let mut key: Option<&String> = None;
        let m = mapping.mappings.len();
        let mut j: usize = 0;
        proof {
            assert(mv.skip(0) =~= mv);
        }
        while j < m
            invariant
                j <= m,
                (match key {
                    Some(ks) => find_json_entry(mv, i as int) == Some(ks@),
                    None => find_json_entry(mv, i as int) == find_json_entry(
                        mv.skip(j as int),
                        i as int,
                    ),
                }),
            decreases m - j,
        {
            proof {
                assert(mv.skip(j as int)[0] == mv[j as int]);
                assert(mv.skip(j as int).skip(1) =~= mv.skip(j as int + 1));
            }
            if key.is_none() && mapping.mappings[j].0 == i {
                key = Some(&mapping.mappings[j].1);
            }
            j = j + 1;
        }
        proof {
            if key is None {
                assert(mv.skip(m as int) =~= Seq::<(usize, Seq<char>)>::empty());
            }
        }
        let ghost spec_slot = json_slot_spec(bytes@, mv, ty, nullable, i as int);
        let scalar = match key {
            Some(kstr) => json_field(bytes, kstr.as_str(), ty),
            None => None,
        };
        let slot = match constant_from_json_scalar(scalar, ty, nullable) {
            Ok(s) => s,
            Err(e) => {
                proof {
                    assert(spec_slot == Err::<crate::literal::NullableConstantV, IngestError>(e));
                    lemma_json_literal_err(bytes@, mv, cols, i as int + 1, n as int);
                }
                return Err(e);
            },
        };
        proof {
            assert(spec_slot == Ok::<crate::literal::NullableConstantV, IngestError>(slot@));
        }
        let ghost pre_cols = columns@;
        columns.push(slot);
        proof {
            assert(jslots_view(columns@) =~= jslots_view(pre_cols).push(slot@));
            assert(json_literal_spec(bytes@, mv, cols, i as int + 1) == Ok::<
                Seq<crate::literal::NullableConstantV>,
                IngestError,
            >(jslots_view(pre_cols).push(slot@)));
        }
        i = i + 1;
    }
    let r = RowLiteral { columns };
    proof {
        assert forall|k: int| 0 <= k < r@.len() implies r@[k] == r.columns@[k]@ by {}
        assert(literal_wf(r@, layout.cols@));
        assert(r@ =~= jslots_view(r.columns@));
    }
    Ok(r)
}

} // verus!
