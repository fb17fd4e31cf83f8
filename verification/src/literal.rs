//! Portable literal values: the language-neutral description of rows that
//! crosses the library boundary.
//!
//! A [`Constant`] is one column value; a [`RowLiteral`] is one value per
//! column of a schema; a [`StreamCollection`] is a weighted batch of row
//! literals, the form in which data enters a source and leaves a sink.
//! Ghost views map every literal onto a mathematical value (`String`
//! becomes `Seq<char>`), and all contracts in the crate speak of those
//! views.

use vstd::prelude::*;

use crate::layout::{ColumnType, RowLayout};

verus! {

/// A fixed-point decimal: `mantissa * 10^(-scale)`.
///
/// The mantissa magnitude is bounded by `2^96` and the scale by 28, the
/// bounds of the 128-bit serialized column form.
#[derive(Clone, Copy, Debug, PartialEq, Eq, Structural)]
pub struct DecimalValue {
    pub mantissa: i128,
    pub scale: u32,
}

/// Magnitude bound of a decimal mantissa: `2^96`.
pub open spec fn decimal_mantissa_bound() -> int {
    0x1000000000000000000000000
}

impl DecimalValue {
    /// The bounds under which a decimal fits its 128-bit serialized form.
    pub open spec fn wf(&self) -> bool {
        &&& -decimal_mantissa_bound() < self.mantissa < decimal_mantissa_bound()
        &&& self.scale <= 28
    }
}

/// One column value.  `Date` holds days since the Unix epoch; `Timestamp`
/// holds milliseconds since the Unix epoch, UTC.  `F32Bits` and `F64Bits`
/// hold IEEE 754 bit patterns, so float payloads stay bit-exact without
/// floating-point arithmetic entering the library.
#[derive(Clone, Debug)]
pub enum Constant {
    Unit,
    U8(u8),
    I8(i8),
    U16(u16),
    I16(i16),
    U32(u32),
    I32(i32),
    U64(u64),
    I64(i64),
    Usize(usize),
    Isize(isize),
    F32Bits(u32),
    F64Bits(u64),
    Bool(bool),
    Date(i32),
    Timestamp(i64),
    String(String),
    Decimal(DecimalValue),
}

/// The mathematical value of a [`Constant`]: strings become character
/// sequences, all else is carried as is.
pub enum ConstantV {
    Unit,
    U8(u8),
    I8(i8),
    U16(u16),
    I16(i16),
    U32(u32),
    I32(i32),
    U64(u64),
    I64(i64),
    Usize(usize),
    Isize(isize),
    F32Bits(u32),
    F64Bits(u64),
    Bool(bool),
    Date(i32),
    Timestamp(i64),
    String(Seq<char>),
    Decimal(DecimalValue),
}

impl View for Constant {
    type V = ConstantV;

    open spec fn view(&self) -> ConstantV {
        match self {
            Constant::Unit => ConstantV::Unit,
            Constant::U8(x) => ConstantV::U8(*x),
            Constant::I8(x) => ConstantV::I8(*x),
            Constant::U16(x) => ConstantV::U16(*x),
            Constant::I16(x) => ConstantV::I16(*x),
            Constant::U32(x) => ConstantV::U32(*x),
            Constant::I32(x) => ConstantV::I32(*x),
            Constant::U64(x) => ConstantV::U64(*x),
            Constant::I64(x) => ConstantV::I64(*x),
            Constant::Usize(x) => ConstantV::Usize(*x),
            Constant::Isize(x) => ConstantV::Isize(*x),
            Constant::F32Bits(x) => ConstantV::F32Bits(*x),
            Constant::F64Bits(x) => ConstantV::F64Bits(*x),
            Constant::Bool(x) => ConstantV::Bool(*x),
            Constant::Date(x) => ConstantV::Date(*x),
            Constant::Timestamp(x) => ConstantV::Timestamp(*x),
            Constant::String(s) => ConstantV::String(s@),
            Constant::Decimal(d) => ConstantV::Decimal(*d),
        }
    }
}

/// One column slot of a row literal.  `NonNull` is for non-nullable
/// columns; `Nullable` is for nullable columns and distinguishes "set to
/// null" from "has value v".
#[derive(Clone, Debug)]
pub enum NullableConstant {
    NonNull(Constant),
    Nullable(Option<Constant>),
}

/// The mathematical value of a [`NullableConstant`].
pub enum NullableConstantV {
    NonNull(ConstantV),
    Nullable(Option<ConstantV>),
}

impl View for NullableConstant {
    type V = NullableConstantV;

    open spec fn view(&self) -> NullableConstantV {
        match self {
            NullableConstant::NonNull(c) => NullableConstantV::NonNull(c@),
            NullableConstant::Nullable(o) => NullableConstantV::Nullable(
                match o {
                    Some(c) => Some(c@),
                    None => None,
                },
            ),
        }
    }
}

/// A portable description of one row: one value per column.
#[derive(Clone, Debug)]
pub struct RowLiteral {
    pub columns: Vec<NullableConstant>,
}

impl View for RowLiteral {
    type V = Seq<NullableConstantV>;

    open spec fn view(&self) -> Seq<NullableConstantV> {
        Seq::new(self.columns@.len(), |i: int| self.columns@[i]@)
    }
}

impl RowLiteral {
    pub fn new(columns: Vec<NullableConstant>) -> (r: RowLiteral)
        ensures
            r.columns@ == columns@,
    {
        RowLiteral { columns }
    }

    pub fn len(&self) -> (r: usize)
        ensures
            r == self@.len(),
    {
        self.columns.len()
    }
}

/// Signed multiplicity of a row in a multiset.
pub type Weight = i64;

/// Whether a source or sink carries a multiset of keys or of key-value
/// pairs.
#[derive(Clone, Copy, Debug, PartialEq, Eq, Structural)]
pub enum StreamLayout {
    SetOf(crate::layout::LayoutId),
    MapOf(crate::layout::LayoutId, crate::layout::LayoutId),
}

/// A weighted batch of literals: the portable form of a stream delta.
#[derive(Clone, Debug)]
pub enum StreamCollection {
    SetRows(Vec<(RowLiteral, Weight)>),
    MapRows(Vec<(RowLiteral, RowLiteral, Weight)>),
}

/// The mathematical value of a set batch.
pub open spec fn set_view(rows: Seq<(RowLiteral, Weight)>) -> Seq<(Seq<NullableConstantV>, int)> {
    rows.map_values(|e: (RowLiteral, Weight)| (e.0@, e.1 as int))
}

/// The mathematical value of a map batch.
pub open spec fn map_view(rows: Seq<(RowLiteral, RowLiteral, Weight)>) -> Seq<
    (Seq<NullableConstantV>, Seq<NullableConstantV>, int),
> {
    rows.map_values(|e: (RowLiteral, RowLiteral, Weight)| (e.0@, e.1@, e.2 as int))
}

impl StreamCollection {
    /// The empty batch of the given stream shape.
    pub fn empty(layout: StreamLayout) -> (r: StreamCollection)
        ensures
            layout matches StreamLayout::SetOf(_) ==> r matches StreamCollection::SetRows(s)
                && s@.len() == 0,
            layout matches StreamLayout::MapOf(..) ==> r matches StreamCollection::MapRows(m)
                && m@.len() == 0,
    {
        match layout {
            StreamLayout::SetOf(_) => StreamCollection::SetRows(Vec::new()),
            StreamLayout::MapOf(..) => StreamCollection::MapRows(Vec::new()),
        }
    }
}

/// A copy of a constant with the same mathematical value.
pub fn clone_constant(c: &Constant) -> (r: Constant)
    ensures
        r@ == c@,
{
    match c {
        Constant::Unit => Constant::Unit,
        Constant::U8(x) => Constant::U8(*x),
        Constant::I8(x) => Constant::I8(*x),
        Constant::U16(x) => Constant::U16(*x),
        Constant::I16(x) => Constant::I16(*x),
        Constant::U32(x) => Constant::U32(*x),
        Constant::I32(x) => Constant::I32(*x),
        Constant::U64(x) => Constant::U64(*x),
        Constant::I64(x) => Constant::I64(*x),
        Constant::Usize(x) => Constant::Usize(*x),
        Constant::Isize(x) => Constant::Isize(*x),
        Constant::F32Bits(x) => Constant::F32Bits(*x),
        Constant::F64Bits(x) => Constant::F64Bits(*x),
        Constant::Bool(x) => Constant::Bool(*x),
        Constant::Date(x) => Constant::Date(*x),
        Constant::Timestamp(x) => Constant::Timestamp(*x),
        Constant::String(s) => Constant::String(s.clone()),
        Constant::Decimal(d) => Constant::Decimal(*d),
    }
}

/// A copy of a column slot with the same mathematical value.
pub fn clone_nconstant(c: &NullableConstant) -> (r: NullableConstant)
    ensures
        r@ == c@,
{
    match c {
        NullableConstant::NonNull(x) => NullableConstant::NonNull(clone_constant(x)),
        NullableConstant::Nullable(o) => NullableConstant::Nullable(
            match o {
                Some(x) => Some(clone_constant(x)),
                None => None,
            },
        ),
    }
}

/// A copy of a row literal with the same mathematical value.
pub fn clone_literal(lit: &RowLiteral) -> (r: RowLiteral)
    ensures
        r@ == lit@,
{
    let n = lit.columns.len();
    let mut columns: Vec<NullableConstant> = Vec::new();
    let mut i: usize = 0;
    while i < n
        invariant
            i <= n,
            n == lit.columns@.len(),
            columns@.len() == i,
            forall|k: int| 0 <= k < i ==> #[trigger] columns@[k]@ == lit.columns@[k]@,
        decreases n - i,
    {
        columns.push(clone_nconstant(&lit.columns[i]));
        i = i + 1;
    }
    let r = RowLiteral { columns };
    proof {
        assert(r@ =~= lit@);
    }
    r
}

/// Does a constant value fit a column type?  Variant and type must agree,
/// and a decimal must fit its serialized bounds.  `Ptr` columns have no
/// literal form.
pub open spec fn constant_matches(c: ConstantV, t: ColumnType) -> bool {
    match c {
        ConstantV::Unit => t == ColumnType::Unit,
        ConstantV::U8(_) => t == ColumnType::U8,
        ConstantV::I8(_) => t == ColumnType::I8,
        ConstantV::U16(_) => t == ColumnType::U16,
        ConstantV::I16(_) => t == ColumnType::I16,
        ConstantV::U32(_) => t == ColumnType::U32,
        ConstantV::I32(_) => t == ColumnType::I32,
        ConstantV::U64(_) => t == ColumnType::U64,
        ConstantV::I64(_) => t == ColumnType::I64,
        ConstantV::Usize(_) => t == ColumnType::Usize,
        ConstantV::Isize(_) => t == ColumnType::Isize,
        ConstantV::F32Bits(_) => t == ColumnType::F32,
        ConstantV::F64Bits(_) => t == ColumnType::F64,
        ConstantV::Bool(_) => t == ColumnType::Bool,
        ConstantV::Date(_) => t == ColumnType::Date,
        ConstantV::Timestamp(_) => t == ColumnType::Timestamp,
        ConstantV::String(_) => t == ColumnType::String,
        ConstantV::Decimal(d) => t == ColumnType::Decimal && d.wf(),
    }
}

/// A literal is well-formed for a schema when the lengths agree and every
/// slot matches its column: `NonNull` exactly on non-nullable columns,
/// `Nullable` exactly on nullable ones, values matching the column type.
pub open spec fn literal_wf(lit: Seq<NullableConstantV>, cols: Seq<(ColumnType, bool)>) -> bool {
    &&& lit.len() == cols.len()
    &&& forall|i: int|
        0 <= i < lit.len() ==> match #[trigger] lit[i] {
            NullableConstantV::NonNull(c) => !cols[i].1 && constant_matches(c, cols[i].0),
            NullableConstantV::Nullable(o) => cols[i].1 && match o {
                Some(c) => constant_matches(c, cols[i].0),
                None => true,
            },
        }
}

/// Runtime check of [`constant_matches`].
pub fn check_constant(c: &Constant, t: ColumnType) -> (r: bool)
    ensures
        r == constant_matches(c@, t),
{
    match c {
        Constant::Unit => t == ColumnType::Unit,
        Constant::U8(_) => t == ColumnType::U8,
        Constant::I8(_) => t == ColumnType::I8,
        Constant::U16(_) => t == ColumnType::U16,
        Constant::I16(_) => t == ColumnType::I16,
        Constant::U32(_) => t == ColumnType::U32,
        Constant::I32(_) => t == ColumnType::I32,
        Constant::U64(_) => t == ColumnType::U64,
        Constant::I64(_) => t == ColumnType::I64,
        Constant::Usize(_) => t == ColumnType::Usize,
        Constant::Isize(_) => t == ColumnType::Isize,
        Constant::F32Bits(_) => t == ColumnType::F32,
        Constant::F64Bits(_) => t == ColumnType::F64,
        Constant::Bool(_) => t == ColumnType::Bool,
        Constant::Date(_) => t == ColumnType::Date,
        Constant::Timestamp(_) => t == ColumnType::Timestamp,
        Constant::String(_) => t == ColumnType::String,
        Constant::Decimal(d) => t == ColumnType::Decimal && -0x1000000000000000000000000i128
            < d.mantissa && d.mantissa < 0x1000000000000000000000000i128 && d.scale <= 28,
    }
}

/// Runtime check of [`literal_wf`].
pub fn check_literal(lit: &RowLiteral, layout: &RowLayout) -> (r: bool)
    ensures
        r == literal_wf(lit@, layout.cols@),
{
    if lit.columns.len() != layout.cols.len() {
        return false;
    }
    let n = lit.columns.len();
    let mut i: usize = 0;
    while i < n
        invariant
            i <= n,
            n == lit.columns@.len(),
            n == layout.cols@.len(),
            forall|k: int|
                0 <= k < i ==> match #[trigger] lit@[k] {
                    NullableConstantV::NonNull(c) => !layout.cols@[k].1 && constant_matches(
                        c,
                        layout.cols@[k].0,
                    ),
                    NullableConstantV::Nullable(o) => layout.cols@[k].1 && match o {
                        Some(c) => constant_matches(c, layout.cols@[k].0),
                        None => true,
                    },
                },
        decreases n - i,
    {
        let ty = layout.cols[i].0;
        let nullable = layout.cols[i].1;
        let ok = match &lit.columns[i] {
            NullableConstant::NonNull(c) => !nullable && check_constant(c, ty),
            NullableConstant::Nullable(o) => nullable && match o {
                Some(c) => check_constant(c, ty),
                None => true,
            },
        };
        if !ok {
            assert(lit@[i as int] == lit.columns@[i as int]@);
            return false;
        }
        assert(lit@[i as int] == lit.columns@[i as int]@);
        i = i + 1;
    }
    true
}

} // verus!

verus! {

/// The left row followed by the right row: the output shape of a join.
pub fn concat_literals(x: &RowLiteral, y: &RowLiteral) -> (r: RowLiteral)
    ensures
        r@ == x@ + y@,
{
    let mut columns: Vec<NullableConstant> = Vec::new();
    let n = x.columns.len();
    let mut i: usize = 0;
    while i < n
        invariant
            i <= n,
            n == x.columns@.len(),
            columns@.len() == i,
            forall|k: int| 0 <= k < i ==> #[trigger] columns@[k]@ == x@[k],
        decreases n - i,
    {
        columns.push(clone_nconstant(&x.columns[i]));
        i = i + 1;
    }
    let m = y.columns.len();
    let mut j: usize = 0;
    while j < m
        invariant
            j <= m,
            n == x.columns@.len(),
            m == y.columns@.len(),
            columns@.len() == n + j,
            forall|k: int| 0 <= k < n ==> #[trigger] columns@[k]@ == x@[k],
            forall|k: int| n <= k < n + j ==> #[trigger] columns@[k]@ == y@[k - n],
        decreases m - j,
    {
        columns.push(clone_nconstant(&y.columns[j]));
        j = j + 1;
    }
    let r = RowLiteral { columns };
    proof {
        assert(r@ =~= x@ + y@);
    }
    r
}

} // verus!
