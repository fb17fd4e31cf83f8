use dataflow::layout::{compute_native_layout, ColumnType, RowLayout};
use dataflow::literal::{
    check_literal, Constant, DecimalValue, NullableConstant, RowLiteral,
};
use dataflow::order::{cmp_constant, cmp_row, Cmp};
use dataflow::row::{row_from_literal, row_literal_from_row, RowError};

fn lit(columns: Vec<NullableConstant>) -> RowLiteral {
    RowLiteral::new(columns)
}

fn row_eq(a: &RowLiteral, b: &RowLiteral) -> bool {
    matches!(cmp_row(a, b), Cmp::Eq)
}

fn wide_layout() -> RowLayout {
    RowLayout::new()
        .with_column(ColumnType::Unit, false)
        .with_column(ColumnType::U8, false)
        .with_column(ColumnType::I8, false)
        .with_column(ColumnType::U16, false)
        .with_column(ColumnType::I16, false)
        .with_column(ColumnType::U32, false)
        .with_column(ColumnType::I32, false)
        .with_column(ColumnType::U64, false)
        .with_column(ColumnType::I64, false)
        .with_column(ColumnType::Usize, false)
        .with_column(ColumnType::Isize, false)
        .with_column(ColumnType::F32, false)
        .with_column(ColumnType::F64, false)
        .with_column(ColumnType::Bool, false)
        .with_column(ColumnType::Date, false)
        .with_column(ColumnType::Timestamp, false)
        .with_column(ColumnType::String, false)
        .with_column(ColumnType::Decimal, false)
        .with_column(ColumnType::I32, true)
        .with_column(ColumnType::String, true)
}

fn wide_literal() -> RowLiteral {
    lit(vec![
        NullableConstant::NonNull(Constant::Unit),
        NullableConstant::NonNull(Constant::U8(200)),
        NullableConstant::NonNull(Constant::I8(-100)),
        NullableConstant::NonNull(Constant::U16(60000)),
        NullableConstant::NonNull(Constant::I16(-30000)),
        NullableConstant::NonNull(Constant::U32(4000000000)),
        NullableConstant::NonNull(Constant::I32(-2000000000)),
        NullableConstant::NonNull(Constant::U64(u64::MAX)),
        NullableConstant::NonNull(Constant::I64(i64::MIN)),
        NullableConstant::NonNull(Constant::Usize(123456)),
        NullableConstant::NonNull(Constant::Isize(-123456)),
        NullableConstant::NonNull(Constant::F32Bits(1.25f32.to_bits())),
        NullableConstant::NonNull(Constant::F64Bits((-0.5f64).to_bits())),
        NullableConstant::NonNull(Constant::Bool(true)),
        NullableConstant::NonNull(Constant::Date(19000)),
        NullableConstant::NonNull(Constant::Timestamp(-1234567890123)),
        NullableConstant::NonNull(Constant::String("déjà vu".to_string())),
        NullableConstant::NonNull(Constant::Decimal(DecimalValue {
            mantissa: -123450,
            scale: 3,
        })),
        NullableConstant::Nullable(None),
        NullableConstant::Nullable(Some(Constant::String("tail".to_string()))),
    ])
}

#[test]
fn literal_round_trips_bit_for_bit() {
    // Every supported column type survives literal -> row -> literal,
    // including string content, decimal scale, null flags, and float bits.
    let layout = wide_layout();
    let native = compute_native_layout(&layout).unwrap();
    let original = wide_literal();
    assert!(check_literal(&original, &layout));
    let row = row_from_literal(&original, &layout, &native).ok().unwrap();
    let back = row_literal_from_row(&row, &native, &layout);
    assert!(row_eq(&original, &back));
}

#[test]
fn null_discipline() {
    // A nullable column set to null reads back as null; a present value
    // round-trips exactly.
    let layout = RowLayout::new()
        .with_column(ColumnType::I32, true)
        .with_column(ColumnType::I32, true);
    let native = compute_native_layout(&layout).unwrap();
    let original = lit(vec![
        NullableConstant::Nullable(None),
        NullableConstant::Nullable(Some(Constant::I32(-77))),
    ]);
    let row = row_from_literal(&original, &layout, &native).ok().unwrap();
    assert!(row.column_is_null(0, &layout, &native));
    assert!(!row.column_is_null(1, &layout, &native));
    let back = row_literal_from_row(&row, &native, &layout);
    assert!(row_eq(&original, &back));
}

#[test]
fn ptr_columns_are_refused() {
    let layout = RowLayout::new().with_column(ColumnType::Ptr, true);
    let native = compute_native_layout(&layout).unwrap();
    let original = lit(vec![NullableConstant::Nullable(None)]);
    assert_eq!(
        row_from_literal(&original, &layout, &native).err(),
        Some(RowError::PtrColumn)
    );
}

#[test]
fn layout_offsets_are_aligned_and_disjoint() {
    let layout = RowLayout::new()
        .with_column(ColumnType::U8, false)
        .with_column(ColumnType::U64, false)
        .with_column(ColumnType::U16, true)
        .with_column(ColumnType::Decimal, false);
    let native = compute_native_layout(&layout).unwrap();
    assert_eq!(native.offset_of(0), 0);
    assert_eq!(native.offset_of(1), 8);
    assert_eq!(native.offset_of(2), 16);
    assert_eq!(native.offset_of(3), 24);
    // One null-flag byte, after the payload region.
    assert_eq!(native.is_null_bit(2), (40, 1));
    assert_eq!(native.size_of(), 48);
    assert_eq!(native.align_of(), 8);
}

#[test]
fn canonical_constant_order() {
    let lt = |a: &Constant, b: &Constant| matches!(cmp_constant(a, b), Cmp::Lt);
    assert!(lt(&Constant::I64(-2), &Constant::I64(3)));
    assert!(lt(&Constant::Bool(false), &Constant::Bool(true)));
    assert!(lt(
        &Constant::String("apple".to_string()),
        &Constant::String("apricot".to_string())
    ));
    assert!(lt(
        &Constant::String("app".to_string()),
        &Constant::String("apple".to_string())
    ));
    assert!(lt(
        &Constant::Decimal(DecimalValue { mantissa: 5, scale: 1 }),
        &Constant::Decimal(DecimalValue { mantissa: 6, scale: 0 })
    ));
    // Different variants order by variant.
    assert!(lt(&Constant::U8(255), &Constant::I64(0)));
    assert!(matches!(
        cmp_constant(&Constant::U32(9), &Constant::U32(9)),
        Cmp::Eq
    ));
    assert!(matches!(
        cmp_constant(&Constant::U32(10), &Constant::U32(9)),
        Cmp::Gt
    ));
}
