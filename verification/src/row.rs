//! Rows: owned byte buffers laid out by a [`NativeLayout`].
//!
//! A row stores every fixed-width column payload little-endian at its
//! layout offset, one null-flag byte per nullable column (a non-zero flag
//! means null), string columns as an index into the row's string table
//! (the thin-string reference of the native format), and decimal columns
//! as a 96-bit magnitude, sign and scale in sixteen bytes.  An
//! [`UninitRow`] tracks which columns have been written; only a fully
//! initialized row becomes a [`Row`], so readers never see indeterminate
//! payloads of non-null columns.

use vstd::prelude::*;

use crate::layout::{
    spec_col_size, ColumnType, LayoutId, NativeLayout, RowLayout,
};
use crate::literal::{
    constant_matches, literal_wf, Constant, ConstantV, DecimalValue, NullableConstant,
    NullableConstantV, RowLiteral,
};

verus! {

/// `256^k`: the place value of byte `k` of a little-endian field.
pub open spec fn pow256(k: nat) -> int
    decreases k,
{
    if k == 0 {
        1
    } else {
        256 * pow256((k - 1) as nat)
    }
}

/// The unsigned value of the `width` bytes at `off`, read little-endian.
pub open spec fn le_decode(bytes: Seq<u8>, off: int, width: nat) -> int
    decreases width,
{
    if width == 0 {
        0
    } else {
        le_decode(bytes, off, (width - 1) as nat) + pow256((width - 1) as nat) * bytes[off + width
            - 1]
    }
}

proof fn lemma_pow256_pos(k: nat)
    ensures
        pow256(k) >= 1,
    decreases k,
{
    if k > 0 {
        lemma_pow256_pos((k - 1) as nat);
    }
}

/// A little-endian field is bounded by its width's place value.
pub proof fn lemma_le_decode_bound(bytes: Seq<u8>, off: int, width: nat)
    requires
        forall|k: int| off <= k < off + width ==> 0 <= #[trigger] bytes[k] < 256,
    ensures
        0 <= le_decode(bytes, off, width) < pow256(width),
    decreases width,
{
    if width == 0 {
        lemma_pow256_pos(0);
    } else {
        let w1 = (width - 1) as nat;
        lemma_le_decode_bound(bytes, off, w1);
        lemma_pow256_pos(w1);
        let b = bytes[off + width - 1] as int;
        assert(pow256(w1) * b <= pow256(w1) * 255) by {
            vstd::arithmetic::mul::lemma_mul_inequality(b, 255, pow256(w1));
            vstd::arithmetic::mul::lemma_mul_is_commutative(pow256(w1), b);
            vstd::arithmetic::mul::lemma_mul_is_commutative(pow256(w1), 255);
        }
        assert(pow256(width) == 256 * pow256(w1));
        assert(pow256(w1) + pow256(w1) * 255 == pow256(w1) * 256) by {
            vstd::arithmetic::mul::lemma_mul_is_distributive_add(pow256(w1), 1, 255);
        }
        assert(pow256(w1) * 256 == 256 * pow256(w1)) by {
            vstd::arithmetic::mul::lemma_mul_is_commutative(pow256(w1), 256);
        }
    }
}

/// A field decodes the same from any buffer that agrees on its bytes.
pub proof fn lemma_le_decode_frame(b1: Seq<u8>, b2: Seq<u8>, off: int, width: nat)
    requires
        forall|k: int| off <= k < off + width ==> #[trigger] b1[k] == b2[k],
    ensures
        le_decode(b1, off, width) == le_decode(b2, off, width),
    decreases width,
{
    if width > 0 {
        lemma_le_decode_frame(b1, b2, off, (width - 1) as nat);
    }
}

/// A wide field splits at any byte boundary.
pub proof fn lemma_le_decode_split(bytes: Seq<u8>, off: int, w1: nat, w2: nat)
    ensures
        le_decode(bytes, off, w1 + w2) == le_decode(bytes, off, w1) + pow256(w1) * le_decode(
            bytes,
            off + w1,
            w2,
        ),
    decreases w2,
{
    if w2 == 0 {
        assert(pow256(w1) * 0 == 0) by {
            vstd::arithmetic::mul::lemma_mul_basics(pow256(w1));
        }
    } else {
        let w2m = (w2 - 1) as nat;
        lemma_le_decode_split(bytes, off, w1, w2m);
        assert((w1 + w2 - 1) as nat == w1 + w2m);
        let b = bytes[off + w1 + w2 - 1] as int;
        assert(pow256(w1 + w2m) == pow256(w1) * pow256(w2m)) by {
            lemma_pow256_mul(w1, w2m);
        }
        assert(le_decode(bytes, off, (w1 + w2) as nat) == le_decode(bytes, off, w1) + pow256(w1)
            * le_decode(bytes, off + w1, w2m) + pow256(w1) * pow256(w2m) * b);
        assert(le_decode(bytes, off + w1, w2) == le_decode(bytes, off + w1, w2m) + pow256(w2m) * b);
        assert(pow256(w1) * (le_decode(bytes, off + w1, w2m) + pow256(w2m) * b) == pow256(w1)
            * le_decode(bytes, off + w1, w2m) + pow256(w1) * (pow256(w2m) * b)) by {
            vstd::arithmetic::mul::lemma_mul_is_distributive_add(
                pow256(w1),
                le_decode(bytes, off + w1, w2m),
                pow256(w2m) * b,
            );
        }
        assert(pow256(w1) * (pow256(w2m) * b) == (pow256(w1) * pow256(w2m)) * b) by {
            vstd::arithmetic::mul::lemma_mul_is_associative(pow256(w1), pow256(w2m), b);
        }
    }
}

proof fn lemma_pow256_mul(a: nat, b: nat)
    ensures
        pow256(a + b) == pow256(a) * pow256(b),
    decreases b,
{
    if b == 0 {
        assert(pow256(a) * 1 == pow256(a)) by {
            vstd::arithmetic::mul::lemma_mul_basics(pow256(a));
        }
    } else {
        lemma_pow256_mul(a, (b - 1) as nat);
        assert(pow256(a + b) == 256 * pow256((a + b - 1) as nat));
        assert((a + b - 1) as nat == a + (b - 1));
        assert(pow256(a) * (256 * pow256((b - 1) as nat)) == 256 * (pow256(a) * pow256(
            (b - 1) as nat,
        ))) by {
            vstd::arithmetic::mul::lemma_mul_is_associative(pow256(a), 256, pow256((b - 1) as nat));
            vstd::arithmetic::mul::lemma_mul_is_commutative(pow256(a), 256);
            vstd::arithmetic::mul::lemma_mul_is_associative(256, pow256(a), pow256((b - 1) as nat));
        }
    }
}

/// Writes `v` as `width` little-endian bytes at `off`, touching nothing
/// else.
fn store_le(bytes: &mut Vec<u8>, off: usize, width: usize, v: u64)
    requires
        off + width <= old(bytes)@.len(),
        width <= 8,
        v < pow256(width as nat),
    ensures
        final(bytes)@.len() == old(bytes)@.len(),
        le_decode(final(bytes)@, off as int, width as nat) == v,
        forall|k: int|
            0 <= k < old(bytes)@.len() && !(off <= k < off + width) ==> final(bytes)@[k] == old(
                bytes,
            )@[k],
{
    let n = bytes.len();
    let mut cur: u64 = v;
    let mut k: usize = 0;
    proof {
        lemma_pow256_pos(0);
    }
    while k < width
        invariant
            k <= width,
            width <= 8,
            n == bytes@.len(),
            off + width <= n,
            bytes@.len() == old(bytes)@.len(),
            v < pow256(width as nat),
            cur == v as int / pow256(k as nat),
            le_decode(bytes@, off as int, k as nat) == v as int % pow256(k as nat),
            forall|k2: int|
                0 <= k2 < old(bytes)@.len() && !(off <= k2 < off + k) ==> bytes@[k2] == old(
                    bytes,
                )@[k2],
        decreases width - k,
    {
        let b: u8 = (cur % 256) as u8;
        let ghost pre = bytes@;
        bytes.set(off + k, b);
        proof {
            lemma_pow256_pos(k as nat);
            lemma_le_decode_frame(pre, bytes@, off as int, k as nat);
            assert(le_decode(bytes@, off as int, (k + 1) as nat) == le_decode(
                bytes@,
                off as int,
                k as nat,
            ) + pow256(k as nat) * b);
            assert(b as int == (v as int / pow256(k as nat)) % 256);
            vstd::arithmetic::div_mod::lemma_mod_breakdown(v as int, pow256(k as nat), 256);
            assert(pow256((k + 1) as nat) == pow256(k as nat) * 256) by {
                lemma_pow256_mul(k as nat, 1);
                assert(pow256(0nat) == 1);
                assert(pow256(1nat) == 256);
            }
            vstd::arithmetic::div_mod::lemma_div_denominator(v as int, pow256(k as nat), 256);
        }
        cur = cur / 256;
        k = k + 1;
    }
    proof {
        vstd::arithmetic::div_mod::lemma_small_mod(v as nat, pow256(width as nat) as nat);
    }
}

/// Reads the `width` little-endian bytes at `off`.
fn load_le(bytes: &Vec<u8>, off: usize, width: usize) -> (r: u64)
    requires
        off + width <= bytes@.len(),
        width <= 8,
    ensures
        r == le_decode(bytes@, off as int, width as nat),
{
    let n = bytes.len();
    let mut acc: u64 = 0;
    let mut mult: u64 = 1;
    let mut k: usize = 0;
    proof {
        lemma_le_decode_bound(bytes@, off as int, width as nat);
        lemma_pow256_pos(0);
    }
    while k < width
        invariant
            k <= width,
            width <= 8,
            n == bytes@.len(),
            off + width <= n,
            k < width ==> mult == pow256(k as nat),
            acc == le_decode(bytes@, off as int, k as nat),
            acc < pow256(k as nat),
        decreases width - k,
    {
        proof {
            lemma_le_decode_bound(bytes@, off as int, (k + 1) as nat);
            lemma_pow256_le_max(width as nat);
            lemma_pow256_monotone((k + 1) as nat, width as nat);
            assert(pow256((k + 1) as nat) == pow256(k as nat) * 256) by {
                lemma_pow256_mul(k as nat, 1);
                assert(pow256(0nat) == 1);
                assert(pow256(1nat) == 256);
            }
            lemma_pow256_pos(k as nat);
            assert(pow256(k as nat) * (bytes@[off + k] as int) <= pow256(k as nat) * 255) by {
                vstd::arithmetic::mul::lemma_mul_inequality(
                    bytes@[off + k] as int,
                    255,
                    pow256(k as nat),
                );
                vstd::arithmetic::mul::lemma_mul_is_commutative(
                    pow256(k as nat),
                    bytes@[off + k] as int,
                );
                vstd::arithmetic::mul::lemma_mul_is_commutative(pow256(k as nat), 255);
            }
            assert(pow256(k as nat) + pow256(k as nat) * 255 == pow256(k as nat) * 256) by {
                vstd::arithmetic::mul::lemma_mul_is_distributive_add(pow256(k as nat), 1, 255);
            }
        }
        let b = bytes[off + k];
        acc = acc + mult * (b as u64);
        if k + 1 < width {
            proof {
                lemma_pow256_monotone((k + 2) as nat, width as nat);
                assert(pow256((k + 2) as nat) == pow256((k + 1) as nat) * 256) by {
                    lemma_pow256_mul((k + 1) as nat, 1);
                    assert(pow256(0nat) == 1);
                assert(pow256(1nat) == 256);
                }
                lemma_pow256_pos((k + 1) as nat);
                vstd::arithmetic::mul::lemma_mul_inequality(1, 256, pow256((k + 1) as nat));
            }
            mult = mult * 256;
        } else {
            mult = 1;
        }
        k = k + 1;
    }
    acc
}

proof fn lemma_pow256_monotone(a: nat, b: nat)
    requires
        a <= b,
    ensures
        pow256(a) <= pow256(b),
    decreases b,
{
    if a < b {
        lemma_pow256_monotone(a, (b - 1) as nat);
        lemma_pow256_pos((b - 1) as nat);
    }
}

proof fn lemma_pow256_le_max(w: nat)
    requires
        w <= 8,
    ensures
        pow256(w) <= 0x1_0000_0000_0000_0000,
{
    lemma_pow256_monotone(w, 8);
    assert(pow256(0nat) == 1);
    assert(pow256(0nat) == 1);
                assert(pow256(1nat) == 256);
    assert(pow256(2nat) == 0x1_0000);
    assert(pow256(3nat) == 0x100_0000);
    assert(pow256(4nat) == 0x1_0000_0000);
    assert(pow256(5nat) == 0x100_0000_0000);
    assert(pow256(6nat) == 0x1_0000_0000_0000);
    assert(pow256(7nat) == 0x100_0000_0000_0000);
    assert(pow256(8nat) == 0x1_0000_0000_0000_0000);
}

} // verus!

verus! {

/// The signed reading of an unsigned `width`-byte value, two's complement.
pub open spec fn sign_decode(u: int, width: nat) -> int {
    if u >= pow256(width) / 2 {
        u - pow256(width)
    } else {
        u
    }
}

/// The small powers of 256, spelled out once.
proof fn lemma_pow256_vals()
    ensures
        pow256(0) == 1,
        pow256(1) == 0x100,
        pow256(2) == 0x1_0000,
        pow256(4) == 0x1_0000_0000,
        pow256(8) == 0x1_0000_0000_0000_0000,
        pow256(12) == 0x1_0000_0000_0000_0000_0000_0000,
{
    assert(pow256(0nat) == 1);
    assert(pow256(1nat) == 0x100);
    assert(pow256(2nat) == 0x1_0000);
    assert(pow256(3nat) == 0x100_0000);
    assert(pow256(4nat) == 0x1_0000_0000);
    assert(pow256(5nat) == 0x100_0000_0000);
    assert(pow256(6nat) == 0x1_0000_0000_0000);
    assert(pow256(7nat) == 0x100_0000_0000_0000);
    assert(pow256(8nat) == 0x1_0000_0000_0000_0000);
    assert(pow256(9nat) == 0x100_0000_0000_0000_0000);
    assert(pow256(10nat) == 0x1_0000_0000_0000_0000_0000);
    assert(pow256(11nat) == 0x100_0000_0000_0000_0000_0000);
    assert(pow256(12nat) == 0x1_0000_0000_0000_0000_0000_0000);
}

fn encode_i8(x: i8) -> (u: u64)
    ensures
        u < pow256(1),
        sign_decode(u as int, 1) == x as int,
{
    proof {
        lemma_pow256_vals();
    }
    if x >= 0 {
        x as u64
    } else {
        (x as i64 + 0x100) as u64
    }
}

fn decode_i8(u: u64) -> (x: i8)
    requires
        u < pow256(1),
    ensures
        x as int == sign_decode(u as int, 1),
{
    proof {
        lemma_pow256_vals();
    }
    if u >= 0x80 {
        (u as i64 - 0x100) as i8
    } else {
        u as i8
    }
}

fn encode_i16(x: i16) -> (u: u64)
    ensures
        u < pow256(2),
        sign_decode(u as int, 2) == x as int,
{
    proof {
        lemma_pow256_vals();
    }
    if x >= 0 {
        x as u64
    } else {
        (x as i64 + 0x1_0000) as u64
    }
}

fn decode_i16(u: u64) -> (x: i16)
    requires
        u < pow256(2),
    ensures
        x as int == sign_decode(u as int, 2),
{
    proof {
        lemma_pow256_vals();
    }
    if u >= 0x8000 {
        (u as i64 - 0x1_0000) as i16
    } else {
        u as i16
    }
}

fn encode_i32(x: i32) -> (u: u64)
    ensures
        u < pow256(4),
        sign_decode(u as int, 4) == x as int,
{
    proof {
        lemma_pow256_vals();
    }
    if x >= 0 {
        x as u64
    } else {
        (x as i64 + 0x1_0000_0000) as u64
    }
}

fn decode_i32(u: u64) -> (x: i32)
    requires
        u < pow256(4),
    ensures
        x as int == sign_decode(u as int, 4),
{
    proof {
        lemma_pow256_vals();
    }
    if u >= 0x8000_0000 {
        (u as i64 - 0x1_0000_0000) as i32
    } else {
        u as i32
    }
}

fn encode_i64(x: i64) -> (u: u64)
    ensures
        u < pow256(8),
        sign_decode(u as int, 8) == x as int,
{
    proof {
        lemma_pow256_vals();
    }
    if x >= 0 {
        x as u64
    } else {
        (x as i128 + 0x1_0000_0000_0000_0000) as u64
    }
}

fn decode_i64(u: u64) -> (x: i64)
    requires
        u < pow256(8),
    ensures
        x as int == sign_decode(u as int, 8),
{
    proof {
        lemma_pow256_vals();
    }
    if u >= 0x8000_0000_0000_0000 {
        (u as i128 - 0x1_0000_0000_0000_0000) as i64
    } else {
        u as i64
    }
}

/// The string-table view of a row: each stored `String` as its character
/// sequence.
pub open spec fn strings_view(s: Seq<String>) -> Seq<Seq<char>> {
    s.map_values(|x: String| x@)
}

/// The constant stored at `off` for a column of type `t`.  `Ptr` columns
/// have no constant form and decode to `Unit`; the bridge never reads them.
pub open spec fn decode_constant(
    bytes: Seq<u8>,
    strings: Seq<Seq<char>>,
    t: ColumnType,
    off: int,
) -> ConstantV {
    match t {
        ColumnType::Unit => ConstantV::Unit,
        ColumnType::U8 => ConstantV::U8(le_decode(bytes, off, 1) as u8),
        ColumnType::I8 => ConstantV::I8(sign_decode(le_decode(bytes, off, 1), 1) as i8),
        ColumnType::U16 => ConstantV::U16(le_decode(bytes, off, 2) as u16),
        ColumnType::I16 => ConstantV::I16(sign_decode(le_decode(bytes, off, 2), 2) as i16),
        ColumnType::U32 => ConstantV::U32(le_decode(bytes, off, 4) as u32),
        ColumnType::I32 => ConstantV::I32(sign_decode(le_decode(bytes, off, 4), 4) as i32),
        ColumnType::U64 => ConstantV::U64(le_decode(bytes, off, 8) as u64),
        ColumnType::I64 => ConstantV::I64(sign_decode(le_decode(bytes, off, 8), 8) as i64),
        ColumnType::Usize => ConstantV::Usize(le_decode(bytes, off, 8) as usize),
        ColumnType::Isize => ConstantV::Isize(sign_decode(le_decode(bytes, off, 8), 8) as isize),
        ColumnType::F32 => ConstantV::F32Bits(le_decode(bytes, off, 4) as u32),
        ColumnType::F64 => ConstantV::F64Bits(le_decode(bytes, off, 8) as u64),
        ColumnType::Bool => ConstantV::Bool(le_decode(bytes, off, 1) != 0),
        ColumnType::Date => ConstantV::Date(sign_decode(le_decode(bytes, off, 4), 4) as i32),
        ColumnType::Timestamp => ConstantV::Timestamp(
            sign_decode(le_decode(bytes, off, 8), 8) as i64,
        ),
        ColumnType::String => ConstantV::String(strings[le_decode(bytes, off, 8)]),
        ColumnType::Decimal => ConstantV::Decimal(
            DecimalValue {
                mantissa: (if bytes[off + 12] != 0 {
                    -le_decode(bytes, off, 12)
                } else {
                    le_decode(bytes, off, 12)
                }) as i128,
                scale: bytes[off + 13] as u32,
            },
        ),
        ColumnType::Ptr => ConstantV::Unit,
    }
}

/// Side conditions that make `decode_constant` faithful: string indices
/// point into the table, machine-word values fit the machine word, decimal
/// scale and padding are canonical.
pub open spec fn stored_ok(bytes: Seq<u8>, strings: Seq<Seq<char>>, t: ColumnType, off: int) -> bool {
    match t {
        ColumnType::String => 0 <= le_decode(bytes, off, 8) < strings.len(),
        ColumnType::Usize => 0 <= le_decode(bytes, off, 8) <= usize::MAX,
        ColumnType::Isize => isize::MIN <= sign_decode(le_decode(bytes, off, 8), 8) <= isize::MAX,
        ColumnType::Decimal => bytes[off + 13] <= 28 && (le_decode(bytes, off, 12) == 0 ==> bytes[
            off + 12
        ] == 0),
        _ => true,
    }
}

/// Writes one constant at `off`; strings go to the end of the string
/// table.  Nothing outside the payload bytes changes, and prior table
/// entries keep their indices.
fn write_constant(
    bytes: &mut Vec<u8>,
    strings: &mut Vec<String>,
    off: usize,
    c: &Constant,
    t: ColumnType,
)
    requires
        off + spec_col_size(t) <= old(bytes)@.len(),
        constant_matches(c@, t),
        old(strings)@.len() < usize::MAX,
    ensures
        final(bytes)@.len() == old(bytes)@.len(),
        forall|k: int|
            0 <= k < old(bytes)@.len() && !(off <= k < off + spec_col_size(t))
                ==> final(bytes)@[k] == old(bytes)@[k],
        old(strings)@.len() <= final(strings)@.len() <= old(strings)@.len() + 1,
        forall|k: int| 0 <= k < old(strings)@.len() ==> final(strings)@[k] == old(strings)@[k],
        decode_constant(
            final(bytes)@,
            strings_view(final(strings)@),
            t,
            off as int,
        ) == c@,
        stored_ok(final(bytes)@, strings_view(final(strings)@), t, off as int),
{
    let n = bytes.len();
    proof {
        lemma_pow256_vals();
    }
    match c {
        Constant::Unit => {},
        Constant::U8(x) => store_le(bytes, off, 1, *x as u64),
        Constant::I8(x) => {
            let u = encode_i8(*x);
            store_le(bytes, off, 1, u);
        },
        Constant::U16(x) => store_le(bytes, off, 2, *x as u64),
        Constant::I16(x) => {
            let u = encode_i16(*x);
            store_le(bytes, off, 2, u);
        },
        Constant::U32(x) => store_le(bytes, off, 4, *x as u64),
        Constant::I32(x) => {
            let u = encode_i32(*x);
            store_le(bytes, off, 4, u);
        },
        Constant::U64(x) => store_le(bytes, off, 8, *x),
        Constant::I64(x) => {
            let u = encode_i64(*x);
            store_le(bytes, off, 8, u);
        },
        Constant::Usize(x) => store_le(bytes, off, 8, *x as u64),
        Constant::Isize(x) => {
            let u = encode_i64(*x as i64);
            store_le(bytes, off, 8, u);
        },
        Constant::F32Bits(x) => store_le(bytes, off, 4, *x as u64),
        Constant::F64Bits(x) => store_le(bytes, off, 8, *x),
        Constant::Bool(x) => store_le(
            bytes,
            off,
            1,
            if *x {
                1
            } else {
                0
            },
        ),
        Constant::Date(x) => {
            let u = encode_i32(*x);
            store_le(bytes, off, 4, u);
        },
        Constant::Timestamp(x) => {
            let u = encode_i64(*x);
            store_le(bytes, off, 8, u);
        },
        Constant::String(s) => {
            let idx = strings.len();
            strings.push(s.clone());
            store_le(bytes, off, 8, idx as u64);
            proof {
                assert(strings_view(strings@)[idx as int] == s@);
            }
        },
        Constant::Decimal(d) => {
            let neg: bool = d.mantissa < 0;
            let mag: u128 = if d.mantissa < 0 {
                (-(d.mantissa)) as u128
            } else {
                d.mantissa as u128
            };
            let lo: u64 = (mag % 0x1_0000_0000_0000_0000) as u64;
            let hi: u64 = (mag / 0x1_0000_0000_0000_0000) as u64;
            store_le(bytes, off, 8, lo);
            let ghost mid = bytes@;
            store_le(bytes, off + 8, 4, hi);
            proof {
                lemma_le_decode_frame(mid, bytes@, off as int, 8);
            }
            let ghost mid2 = bytes@;
            store_le(
                bytes,
                off + 12,
                1,
                if neg {
                    1
                } else {
                    0
                },
            );
            let ghost mid3 = bytes@;
            store_le(bytes, off + 13, 1, d.scale as u64);
            let ghost mid4 = bytes@;
            store_le(bytes, off + 14, 2, 0);
            proof {
                lemma_le_decode_frame(mid2, mid3, off as int, 8);
                lemma_le_decode_frame(mid3, mid4, off as int, 8);
                lemma_le_decode_frame(mid4, bytes@, off as int, 8);
                lemma_le_decode_frame(mid2, mid3, off as int + 8, 4);
                lemma_le_decode_frame(mid3, mid4, off as int + 8, 4);
                lemma_le_decode_frame(mid4, bytes@, off as int + 8, 4);
                lemma_le_decode_split(bytes@, off as int, 8, 4);
                vstd::arithmetic::div_mod::lemma_fundamental_div_mod(
                    mag as int,
                    0x1_0000_0000_0000_0000,
                );
                assert(le_decode(bytes@, off as int, 12) == mag as int);
                assert(bytes@[off + 12] == (if neg { 1u8 } else { 0u8 })) by {
                    assert(le_decode(mid3, off as int + 12, 1) == (if neg { 1int } else { 0int }));
                    lemma_le_decode_frame(mid3, mid4, off as int + 12, 1);
                    lemma_le_decode_frame(mid4, bytes@, off as int + 12, 1);
                    assert(le_decode(bytes@, off as int + 12, 0) == 0);
                    assert(pow256(0nat) == 1);
                    assert(le_decode(bytes@, off as int + 12, 1) == bytes@[off + 12]);
                }
                assert(bytes@[off + 13] == d.scale) by {
                    assert(le_decode(mid4, off as int + 13, 1) == d.scale);
                    lemma_le_decode_frame(mid4, bytes@, off as int + 13, 1);
                    assert(le_decode(bytes@, off as int + 13, 0) == 0);
                    assert(pow256(0nat) == 1);
                    assert(le_decode(bytes@, off as int + 13, 1) == bytes@[off + 13]);
                }
            }
        },
    }
}

} // verus!


verus! {

/// Reads one constant at `off` for a column of type `t`.
fn read_constant(bytes: &Vec<u8>, strings: &Vec<String>, off: usize, t: ColumnType) -> (c: Constant)
    requires
        off + spec_col_size(t) <= bytes@.len(),
        t != ColumnType::Ptr,
        stored_ok(bytes@, strings_view(strings@), t, off as int),
    ensures
        c@ == decode_constant(bytes@, strings_view(strings@), t, off as int),
{
    let n = bytes.len();
    proof {
        lemma_pow256_vals();
        lemma_le_decode_bound(bytes@, off as int, spec_col_size(t));
    }
    match t {
        ColumnType::Unit => Constant::Unit,
        ColumnType::U8 => Constant::U8(load_le(bytes, off, 1) as u8),
        ColumnType::I8 => {
            proof {
                lemma_le_decode_bound(bytes@, off as int, 1);
            }
            Constant::I8(decode_i8(load_le(bytes, off, 1)))
        },
        ColumnType::U16 => Constant::U16(load_le(bytes, off, 2) as u16),
        ColumnType::I16 => {
            proof {
                lemma_le_decode_bound(bytes@, off as int, 2);
            }
            Constant::I16(decode_i16(load_le(bytes, off, 2)))
        },
        ColumnType::U32 => Constant::U32(load_le(bytes, off, 4) as u32),
        ColumnType::I32 => {
            proof {
                lemma_le_decode_bound(bytes@, off as int, 4);
            }
            Constant::I32(decode_i32(load_le(bytes, off, 4)))
        },
        ColumnType::U64 => Constant::U64(load_le(bytes, off, 8)),
        ColumnType::I64 => {
            proof {
                lemma_le_decode_bound(bytes@, off as int, 8);
            }
            Constant::I64(decode_i64(load_le(bytes, off, 8)))
        },
        ColumnType::Usize => Constant::Usize(load_le(bytes, off, 8) as usize),
        ColumnType::Isize => {
            proof {
                lemma_le_decode_bound(bytes@, off as int, 8);
            }
            Constant::Isize(decode_i64(load_le(bytes, off, 8)) as isize)
        },
        ColumnType::F32 => Constant::F32Bits(load_le(bytes, off, 4) as u32),
        ColumnType::F64 => Constant::F64Bits(load_le(bytes, off, 8)),
        ColumnType::Bool => Constant::Bool(load_le(bytes, off, 1) != 0),
        ColumnType::Date => {
            proof {
                lemma_le_decode_bound(bytes@, off as int, 4);
            }
            Constant::Date(decode_i32(load_le(bytes, off, 4)))
        },
        ColumnType::Timestamp => {
            proof {
                lemma_le_decode_bound(bytes@, off as int, 8);
            }
            Constant::Timestamp(decode_i64(load_le(bytes, off, 8)))
        },
        ColumnType::String => {
            let idx = load_le(bytes, off, 8);
            let sn = strings.len();
            let s = strings[idx as usize].clone();
            proof {
                assert(strings_view(strings@)[idx as int] == s@);
            }
            Constant::String(s)
        },
        ColumnType::Decimal => {
            let lo = load_le(bytes, off, 8);
            let hi = load_le(bytes, off + 8, 4);
            proof {
                lemma_le_decode_split(bytes@, off as int, 8, 4);
                lemma_le_decode_bound(bytes@, off as int, 12);
                lemma_le_decode_bound(bytes@, off as int + 8, 4);
            }
            let mag: u128 = lo as u128 + (hi as u128) * 0x1_0000_0000_0000_0000;
            let sign = bytes[off + 12];
            let scale = bytes[off + 13] as u32;
            let mantissa: i128 = if sign != 0 {
                -(mag as i128)
            } else {
                mag as i128
            };
            Constant::Decimal(DecimalValue { mantissa, scale })
        },
        ColumnType::Ptr => {
            proof {
                assert(false);
            }
            Constant::Unit
        },
    }
}

/// Is the stored flag of column `i` set?  Meaningful for nullable columns.
pub open spec fn column_null_in(bytes: Seq<u8>, cols: Seq<(ColumnType, bool)>, nl: NativeLayout, i: int) -> bool {
    cols[i].1 && bytes[nl.null_offsets@[i] as int] != 0
}

/// The value of column `i` of a row buffer: null when the flag is set,
/// else the decoded payload, wrapped per the column's nullability.
pub open spec fn decode_column(
    bytes: Seq<u8>,
    strings: Seq<Seq<char>>,
    cols: Seq<(ColumnType, bool)>,
    nl: NativeLayout,
    i: int,
) -> NullableConstantV {
    if cols[i].1 {
        if bytes[nl.null_offsets@[i] as int] != 0 {
            NullableConstantV::Nullable(None)
        } else {
            NullableConstantV::Nullable(
                Some(decode_constant(bytes, strings, cols[i].0, nl.offsets@[i] as int)),
            )
        }
    } else {
        NullableConstantV::NonNull(decode_constant(bytes, strings, cols[i].0, nl.offsets@[i] as int))
    }
}

/// The whole row read back as a literal value.
pub open spec fn row_view_of(
    bytes: Seq<u8>,
    strings: Seq<Seq<char>>,
    cols: Seq<(ColumnType, bool)>,
    nl: NativeLayout,
) -> Seq<NullableConstantV> {
    Seq::new(cols.len(), |i: int| decode_column(bytes, strings, cols, nl, i))
}

/// An initialized, layout-conformant row: every non-null column's payload
/// was written and decodes faithfully.
#[derive(Debug)]
pub struct Row {
    pub bytes: Vec<u8>,
    pub strings: Vec<String>,
}

impl Row {
    /// The row invariant relative to its schema and physical layout.
    pub open spec fn wf(&self, cols: Seq<(ColumnType, bool)>, nl: NativeLayout) -> bool {
        &&& self.bytes@.len() == nl.size
        &&& forall|i: int|
            0 <= i < cols.len() && !column_null_in(self.bytes@, cols, nl, i) ==> stored_ok(
                self.bytes@,
                strings_view(self.strings@),
                cols[i].0,
                nl.offsets@[i] as int,
            )
    }

    /// The literal value this row holds.
    pub open spec fn view_as(&self, cols: Seq<(ColumnType, bool)>, nl: NativeLayout) -> Seq<
        NullableConstantV,
    > {
        row_view_of(self.bytes@, strings_view(self.strings@), cols, nl)
    }

    /// Whether a nullable column is set to null.
    pub fn column_is_null(&self, column: usize, layout: &RowLayout, native: &NativeLayout) -> (r:
        bool)
        requires
            native.wf(layout.cols@),
            self.wf(layout.cols@, *native),
            column < layout.cols@.len(),
            layout.cols@[column as int].1,
        ensures
            r == column_null_in(self.bytes@, layout.cols@, *native, column as int),
    {
        proof {
            crate::layout::lemma_layout_bounds(*native, layout.cols@, column as int);
        }
        let (off, _mask) = native.is_null_bit(column);
        self.bytes[off] != 0
    }
}

/// An exact copy of a row.
pub fn clone_row(row: &Row) -> (r: Row)
    ensures
        r.bytes@ == row.bytes@,
        r.strings@ == row.strings@,
{
    let mut bytes: Vec<u8> = Vec::new();
    let n = row.bytes.len();
    let mut i: usize = 0;
    while i < n
        invariant
            i <= n,
            n == row.bytes@.len(),
            bytes@ == row.bytes@.subrange(0, i as int),
        decreases n - i,
    {
        bytes.push(row.bytes[i]);
        proof {
            assert(bytes@ =~= row.bytes@.subrange(0, i as int + 1));
        }
        i = i + 1;
    }
    let mut strings: Vec<String> = Vec::new();
    let m = row.strings.len();
    let mut j: usize = 0;
    while j < m
        invariant
            j <= m,
            m == row.strings@.len(),
            strings@ == row.strings@.subrange(0, j as int),
        decreases m - j,
    {
        strings.push(row.strings[j].clone());
        proof {
            assert(strings@ =~= row.strings@.subrange(0, j as int + 1));
        }
        j = j + 1;
    }
    proof {
        assert(bytes@ =~= row.bytes@);
        assert(strings@ =~= row.strings@);
    }
    Row { bytes, strings }
}

} // verus!

verus! {

/// A column's decoded value depends only on its own payload bytes, its
/// null flag, and the string-table entries it indexes; and the side
/// conditions survive writes elsewhere and table growth.
proof fn lemma_decode_column_frame(
    b1: Seq<u8>,
    s1: Seq<Seq<char>>,
    b2: Seq<u8>,
    s2: Seq<Seq<char>>,
    cols: Seq<(ColumnType, bool)>,
    nl: NativeLayout,
    j: int,
)
    requires
        nl.wf(cols),
        0 <= j < cols.len(),
        forall|k: int|
            nl.offsets@[j] <= k < nl.offsets@[j] + spec_col_size(cols[j].0) ==> #[trigger] b1[k]
                == b2[k],
        cols[j].1 ==> b1[nl.null_offsets@[j] as int] == b2[nl.null_offsets@[j] as int],
        s1.len() <= s2.len(),
        forall|k: int| 0 <= k < s1.len() ==> #[trigger] s1[k] == s2[k],
        (!column_null_in(b1, cols, nl, j) && cols[j].0 == ColumnType::String && s1.len()
            < s2.len()) ==> stored_ok(b1, s1, cols[j].0, nl.offsets@[j] as int),
    ensures
        (!column_null_in(b1, cols, nl, j) && stored_ok(b1, s1, cols[j].0, nl.offsets@[j] as int))
            ==> stored_ok(b2, s2, cols[j].0, nl.offsets@[j] as int),
        (s1.len() == s2.len() || column_null_in(b1, cols, nl, j) || stored_ok(
            b1,
            s1,
            cols[j].0,
            nl.offsets@[j] as int,
        )) ==> decode_column(b2, s2, cols, nl, j) == decode_column(b1, s1, cols, nl, j),
        column_null_in(b2, cols, nl, j) == column_null_in(b1, cols, nl, j),
{
    let off = nl.offsets@[j] as int;
    let t = cols[j].0;
    assert(column_null_in(b2, cols, nl, j) == column_null_in(b1, cols, nl, j));
    if s1.len() == s2.len() {
        assert(s1 =~= s2);
    }
    if !column_null_in(b1, cols, nl, j) {
        match t {
            ColumnType::Unit => {},
            ColumnType::U8 | ColumnType::I8 | ColumnType::Bool => {
                lemma_le_decode_frame(b1, b2, off, 1);
            },
            ColumnType::U16 | ColumnType::I16 => {
                lemma_le_decode_frame(b1, b2, off, 2);
            },
            ColumnType::U32 | ColumnType::I32 | ColumnType::F32 | ColumnType::Date => {
                lemma_le_decode_frame(b1, b2, off, 4);
            },
            ColumnType::String => {
                lemma_le_decode_frame(b1, b2, off, 8);
                let idx = le_decode(b1, off, 8);
                if stored_ok(b1, s1, cols[j].0, off) {
                    assert(s1[idx] == s2[idx]);
                }
            },
            ColumnType::Decimal => {
                lemma_le_decode_frame(b1, b2, off, 12);
                assert(b1[off + 12] == b2[off + 12]);
                assert(b1[off + 13] == b2[off + 13]);
            },
            _ => {
                lemma_le_decode_frame(b1, b2, off, 8);
            },
        }
    }
}

/// A row buffer whose columns have not all been written yet.  The ghost
/// `init` set records which columns are ready; only a fully initialized
/// buffer can become a [`Row`].
pub struct UninitRow {
    pub bytes: Vec<u8>,
    pub strings: Vec<String>,
    pub init: Ghost<Set<int>>,
}

impl UninitRow {
    /// Columns marked initialized decode faithfully (unless null).
    pub open spec fn wf(&self, cols: Seq<(ColumnType, bool)>, nl: NativeLayout) -> bool {
        &&& self.bytes@.len() == nl.size
        &&& forall|i: int|
            self.init@.contains(i) ==> 0 <= i < cols.len() && (!column_null_in(
                self.bytes@,
                cols,
                nl,
                i,
            ) ==> stored_ok(
                self.bytes@,
                strings_view(self.strings@),
                cols[i].0,
                nl.offsets@[i] as int,
            ))
    }

    /// A fresh zeroed buffer for one row; no column is initialized.
    pub fn new(native: &NativeLayout) -> (r: UninitRow)
        ensures
            r.bytes@.len() == native.size,
            r.strings@.len() == 0,
            r.init@ == Set::<int>::empty(),
    {
        let size = native.size_of();
        let mut bytes: Vec<u8> = Vec::new();
        let mut i: usize = 0;
        while i < size
            invariant
                i <= size,
                bytes@.len() == i,
            decreases size - i,
        {
            bytes.push(0);
            i = i + 1;
        }
        UninitRow { bytes, strings: Vec::new(), init: Ghost(Set::empty()) }
    }

    /// Marks a nullable column null; its payload stays unwritten and is
    /// never read back.
    pub fn set_null(&mut self, column: usize, layout: &RowLayout, native: &NativeLayout)
        requires
            native.wf(layout.cols@),
            old(self).wf(layout.cols@, *native),
            column < layout.cols@.len(),
            layout.cols@[column as int].1,
        ensures
            final(self).wf(layout.cols@, *native),
            final(self).bytes@.len() == old(self).bytes@.len(),
            final(self).strings@ == old(self).strings@,
            final(self).init@ == old(self).init@.insert(column as int),
            decode_column(
                final(self).bytes@,
                strings_view(final(self).strings@),
                layout.cols@,
                *native,
                column as int,
            ) == NullableConstantV::Nullable(None::<ConstantV>),
            forall|j: int|
                0 <= j < layout.cols@.len() && j != column ==> decode_column(
                    final(self).bytes@,
                    strings_view(final(self).strings@),
                    layout.cols@,
                    *native,
                    j,
                ) == decode_column(
                    old(self).bytes@,
                    strings_view(old(self).strings@),
                    layout.cols@,
                    *native,
                    j,
                ),
    {
        let ghost cols = layout.cols@;
        let ghost pre = self.bytes@;
        proof {
            crate::layout::lemma_layout_bounds(*native, cols, column as int);
        }
        let (noff, _mask) = native.is_null_bit(column);
        self.bytes.set(noff, 1);
        proof {
            self.init@ = self.init@.insert(column as int);
            assert forall|j: int| 0 <= j < cols.len() && j != column implies decode_column(
                self.bytes@,
                strings_view(self.strings@),
                cols,
                *native,
                j,
            ) == decode_column(pre, strings_view(self.strings@), cols, *native, j) by {
                lemma_column_untouched(pre, self.bytes@, strings_view(self.strings@), cols, *native, j, column as int);
            }
            assert forall|i: int| self.init@.contains(i) implies 0 <= i < cols.len() && (
            !column_null_in(self.bytes@, cols, *native, i) ==> stored_ok(
                self.bytes@,
                strings_view(self.strings@),
                cols[i].0,
                native.offsets@[i] as int,
            )) by {
                if i != column {
                    lemma_column_untouched(pre, self.bytes@, strings_view(self.strings@), cols, *native, i, column as int);
                }
            }
        }
    }

    /// Writes a column's value: clears the null flag of a nullable column
    /// and stores the payload.
    pub fn write_value(
        &mut self,
        column: usize,
        c: &Constant,
        layout: &RowLayout,
        native: &NativeLayout,
    )
        requires
            native.wf(layout.cols@),
            old(self).wf(layout.cols@, *native),
            column < layout.cols@.len(),
            constant_matches(c@, layout.cols@[column as int].0),
            old(self).strings@.len() < usize::MAX,
        ensures
            final(self).wf(layout.cols@, *native),
            final(self).bytes@.len() == old(self).bytes@.len(),
            old(self).strings@.len() <= final(self).strings@.len() <= old(self).strings@.len() + 1,
            final(self).init@ == old(self).init@.insert(column as int),
            decode_column(
                final(self).bytes@,
                strings_view(final(self).strings@),
                layout.cols@,
                *native,
                column as int,
            ) == (if layout.cols@[column as int].1 {
                NullableConstantV::Nullable(Some(c@))
            } else {
                NullableConstantV::NonNull(c@)
            }),
            forall|j: int|
                0 <= j < layout.cols@.len() && j != column && old(self).init@.contains(j)
                    ==> decode_column(
                    final(self).bytes@,
                    strings_view(final(self).strings@),
                    layout.cols@,
                    *native,
                    j,
                ) == decode_column(
                    old(self).bytes@,
                    strings_view(old(self).strings@),
                    layout.cols@,
                    *native,
                    j,
                ),
    {
        let ghost cols = layout.cols@;
        proof {
            crate::layout::lemma_layout_bounds(*native, cols, column as int);
        }
        let nullable = layout.cols[column].1;
        let ty = layout.cols[column].0;
        let ghost pre0 = self.bytes@;
        if nullable {
            let (noff, _mask) = native.is_null_bit(column);
            self.bytes.set(noff, 0);
        }
        let ghost pre = self.bytes@;
        let ghost spre = strings_view(self.strings@);
        let off = native.offset_of(column);
        write_constant(&mut self.bytes, &mut self.strings, off, c, ty);
        proof {
            self.init@ = self.init@.insert(column as int);
            let post = self.bytes@;
            let spost = strings_view(self.strings@);
            assert(spre.len() <= spost.len());
            assert(forall|k: int| 0 <= k < spre.len() ==> #[trigger] spre[k] == spost[k]);
            // The null flag of `column` was not touched by the payload
            // write: it lies in the flag region past the payloads.
            if cols[column as int].1 {
                assert(post[native.null_offsets@[column as int] as int] == 0);
            }
            assert forall|j: int|
                0 <= j < cols.len() && j != column && old(self).init@.contains(j)
                    implies decode_column(post, spost, cols, *native, j) == decode_column(
                    pre0,
                    spre,
                    cols,
                    *native,
                    j,
                ) by {
                lemma_column_untouched2(pre0, pre, post, spre, spost, cols, *native, j, column as int);
            }
            assert forall|i: int| self.init@.contains(i) implies 0 <= i < cols.len() && (
            !column_null_in(post, cols, *native, i) ==> stored_ok(
                post,
                spost,
                cols[i].0,
                native.offsets@[i] as int,
            )) by {
                if i != column {
                    lemma_column_untouched2(pre0, pre, post, spre, spost, cols, *native, i, column as int);
                }
            }
        }
    }

    /// Declares the row fully written.  Demands that every column was
    /// either written or set null; the result is a well-formed [`Row`].
    pub fn assume_init(self, layout: &RowLayout, native: &NativeLayout) -> (r: Row)
        requires
            native.wf(layout.cols@),
            self.wf(layout.cols@, *native),
            forall|i: int| 0 <= i < layout.cols@.len() ==> self.init@.contains(i),
        ensures
            r.wf(layout.cols@, *native),
            r.bytes@ == self.bytes@,
            r.strings@ == self.strings@,
    {
        proof {
            assert forall|i: int|
                0 <= i < layout.cols@.len() && !column_null_in(
                    self.bytes@,
                    layout.cols@,
                    *native,
                    i,
                ) implies stored_ok(
                self.bytes@,
                strings_view(self.strings@),
                layout.cols@[i].0,
                native.offsets@[i] as int,
            ) by {
                assert(self.init@.contains(i));
            }
        }
        Row { bytes: self.bytes, strings: self.strings }
    }
}

/// Writing the null flag of one column leaves every other column's value
/// and side conditions alone.
proof fn lemma_column_untouched(
    pre: Seq<u8>,
    post: Seq<u8>,
    s: Seq<Seq<char>>,
    cols: Seq<(ColumnType, bool)>,
    nl: NativeLayout,
    j: int,
    written: int,
)
    requires
        nl.wf(cols),
        0 <= j < cols.len(),
        0 <= written < cols.len(),
        j != written,
        cols[written].1,
        pre.len() == post.len() == nl.size,
        forall|k: int|
            0 <= k < pre.len() && k != nl.null_offsets@[written] ==> pre[k] == #[trigger] post[k],
    ensures
        decode_column(post, s, cols, nl, j) == decode_column(pre, s, cols, nl, j),
        (!column_null_in(pre, cols, nl, j) && stored_ok(pre, s, cols[j].0, nl.offsets@[j] as int))
            ==> stored_ok(post, s, cols[j].0, nl.offsets@[j] as int),
        column_null_in(post, cols, nl, j) == column_null_in(pre, cols, nl, j),
    decreases 0int,
{
    crate::layout::lemma_layout_bounds(nl, cols, j);
    crate::layout::lemma_layout_bounds(nl, cols, written);
    if cols[j].1 {
        if j < written {
            crate::layout::lemma_null_flags_disjoint(nl, cols, j, written);
        } else {
            crate::layout::lemma_null_flags_disjoint(nl, cols, written, j);
        }
    }
    lemma_decode_column_frame(pre, s, post, s, cols, nl, j);
}

/// Clearing one column's null flag and writing its payload leaves every
/// other column's value and side conditions alone.
proof fn lemma_column_untouched2(
    pre0: Seq<u8>,
    pre: Seq<u8>,
    post: Seq<u8>,
    spre: Seq<Seq<char>>,
    spost: Seq<Seq<char>>,
    cols: Seq<(ColumnType, bool)>,
    nl: NativeLayout,
    j: int,
    written: int,
)
    requires
        nl.wf(cols),
        0 <= j < cols.len(),
        0 <= written < cols.len(),
        j != written,
        pre0.len() == pre.len() == post.len() == nl.size,
        // null-flag step
        forall|k: int|
            0 <= k < pre0.len() && (!cols[written].1 || k != nl.null_offsets@[written]) ==> pre0[k]
                == #[trigger] pre[k],
        // payload step
        forall|k: int|
            0 <= k < pre.len() && !(nl.offsets@[written] <= k < nl.offsets@[written]
                + spec_col_size(cols[written].0)) ==> pre[k] == #[trigger] post[k],
        spre.len() <= spost.len(),
        forall|k: int| 0 <= k < spre.len() ==> #[trigger] spre[k] == spost[k],
        !column_null_in(pre0, cols, nl, j) ==> stored_ok(
            pre0,
            spre,
            cols[j].0,
            nl.offsets@[j] as int,
        ),
    ensures
        decode_column(post, spost, cols, nl, j) == decode_column(pre0, spre, cols, nl, j),
        (!column_null_in(pre0, cols, nl, j) && stored_ok(
            pre0,
            spre,
            cols[j].0,
            nl.offsets@[j] as int,
        )) ==> stored_ok(post, spost, cols[j].0, nl.offsets@[j] as int),
        column_null_in(post, cols, nl, j) == column_null_in(pre0, cols, nl, j),
{
    crate::layout::lemma_layout_bounds(nl, cols, j);
    crate::layout::lemma_layout_bounds(nl, cols, written);
    if cols[j].1 && cols[written].1 {
        if j < written {
            crate::layout::lemma_null_flags_disjoint(nl, cols, j, written);
        } else {
            crate::layout::lemma_null_flags_disjoint(nl, cols, written, j);
        }
    }
    if j < written {
        crate::layout::lemma_layout_disjoint(nl, cols, j, written);
    } else {
        crate::layout::lemma_layout_disjoint(nl, cols, written, j);
    }
    lemma_decode_column_frame(pre0, spre, post, spost, cols, nl, j);
}

} // verus!

verus! {

/// Does the schema contain a `Ptr` column?  Such layouts have no literal
/// form.
pub open spec fn has_ptr(cols: Seq<(ColumnType, bool)>) -> bool {
    exists|i: int| 0 <= i < cols.len() && (#[trigger] cols[i]).0 == ColumnType::Ptr
}

/// Error of the literal bridge.
#[derive(Clone, Copy, Debug, PartialEq, Eq, Structural)]
pub enum RowError {
    /// The layout holds a `Ptr` column, which literals cannot carry.
    PtrColumn,
}

/// Builds a row from a well-formed literal: writes every null flag first
/// and every non-null payload after it, then declares the row initialized.
///
/// Returns `Err` exactly on layouts with `Ptr` columns; otherwise the
/// produced row is well-formed and reads back as exactly the input
/// literal (the forward half of the round-trip law).
pub fn row_from_literal(
    literal: &RowLiteral,
    layout: &RowLayout,
    native: &NativeLayout,
) -> (r: Result<Row, RowError>)
    requires
        native.wf(layout.cols@),
        crate::literal::literal_wf(literal@, layout.cols@),
    ensures
        r matches Ok(row) ==> {
            &&& !has_ptr(layout.cols@)
            &&& row.wf(layout.cols@, *native)
            &&& row.view_as(layout.cols@, *native) == literal@
        },
        r is Err <==> has_ptr(layout.cols@),
{
    let ghost cols = layout.cols@;
    let n = layout.cols.len();
    // Refuse layouts with pointer columns up front.
    let mut scan: usize = 0;
    while scan < n
        invariant
            scan <= n,
            n == layout.cols@.len(),
            forall|k: int| 0 <= k < scan ==> (#[trigger] layout.cols@[k]).0 != ColumnType::Ptr,
        decreases n - scan,
    {
        if layout.cols[scan].0 == ColumnType::Ptr {
            return Err(RowError::PtrColumn);
        }
        scan = scan + 1;
    }
    assert(!has_ptr(cols));

    let mut row = UninitRow::new(native);
    let mut i: usize = 0;
    while i < n
        invariant
            i <= n,
            n == layout.cols@.len(),
            n == literal.columns@.len(),
            literal@.len() == n,
            crate::literal::literal_wf(literal@, layout.cols@),
            native.wf(layout.cols@),
            row.wf(layout.cols@, *native),
            row.strings@.len() <= i,
            row.init@ =~= Set::new(|k: int| 0 <= k < i),
            forall|j: int|
                0 <= j < i ==> decode_column(
                    row.bytes@,
                    strings_view(row.strings@),
                    layout.cols@,
                    *native,
                    j,
                ) == literal@[j],
        decreases n - i,
    {
        let ghost pre_init = row.init@;
        proof {
            assert(literal@[i as int] == literal.columns@[i as int]@);
        }
        match &literal.columns[i] {
            NullableConstant::NonNull(c) => {
                row.write_value(i, c, layout, native);
            },
            NullableConstant::Nullable(o) => {
                match o {
                    Some(c) => {
                        row.write_value(i, c, layout, native);
                    },
                    None => {
                        row.set_null(i, layout, native);
                    },
                }
            },
        }
        proof {
            assert(row.init@ =~= Set::new(|k: int| 0 <= k < i + 1));
            assert forall|j: int|
                0 <= j < i + 1 implies decode_column(
                row.bytes@,
                strings_view(row.strings@),
                layout.cols@,
                *native,
                j,
            ) == literal@[j] by {
                if j < i {
                    assert(pre_init.contains(j));
                } else {
                    assert(literal@[j] == literal.columns@[j]@);
                }
            }
        }
        i = i + 1;
    }
    let r = row.assume_init(layout, native);
    proof {
        assert forall|k: int| 0 <= k < cols.len() implies row_view_of(
            r.bytes@,
            strings_view(r.strings@),
            cols,
            *native,
        )[k] == literal@[k] by {}
        assert(r.view_as(cols, *native) =~= literal@);
    }
    Ok(r)
}

/// Reads one column of a row back as a constant.
pub fn constant_from_column(
    column: usize,
    row: &Row,
    native: &NativeLayout,
    layout: &RowLayout,
) -> (c: Constant)
    requires
        native.wf(layout.cols@),
        row.wf(layout.cols@, *native),
        column < layout.cols@.len(),
        layout.cols@[column as int].0 != ColumnType::Ptr,
        !column_null_in(row.bytes@, layout.cols@, *native, column as int),
    ensures
        c@ == decode_constant(
            row.bytes@,
            strings_view(row.strings@),
            layout.cols@[column as int].0,
            native.offsets@[column as int] as int,
        ),
{
    proof {
        crate::layout::lemma_layout_bounds(*native, layout.cols@, column as int);
    }
    let off = native.offset_of(column);
    let ty = layout.cols[column].0;
    read_constant(&row.bytes, &row.strings, off, ty)
}

/// Reads a whole row back as a literal: null columns become null slots,
/// everything else decodes from its payload (the reverse half of the
/// round-trip law).
pub fn row_literal_from_row(row: &Row, native: &NativeLayout, layout: &RowLayout) -> (r: RowLiteral)
    requires
        native.wf(layout.cols@),
        row.wf(layout.cols@, *native),
        !has_ptr(layout.cols@),
    ensures
        r@ == row.view_as(layout.cols@, *native),
{
    let ghost cols = layout.cols@;
    let n = layout.cols.len();
    let mut columns: Vec<NullableConstant> = Vec::new();
    let mut i: usize = 0;
    while i < n
        invariant
            i <= n,
            n == layout.cols@.len(),
            native.wf(layout.cols@),
            row.wf(layout.cols@, *native),
            !has_ptr(layout.cols@),
            columns@.len() == i,
            forall|j: int|
                0 <= j < i ==> #[trigger] columns@[j]@ == decode_column(
                    row.bytes@,
                    strings_view(row.strings@),
                    layout.cols@,
                    *native,
                    j,
                ),
        decreases n - i,
    {
        proof {
            assert(layout.cols@[i as int].0 != ColumnType::Ptr);
        }
        let nullable = layout.cols[i].1;
        let slot = if nullable {
            if row.column_is_null(i, layout, native) {
                NullableConstant::Nullable(None)
            } else {
                NullableConstant::Nullable(Some(constant_from_column(i, row, native, layout)))
            }
        } else {
            NullableConstant::NonNull(constant_from_column(i, row, native, layout))
        };
        columns.push(slot);
        i = i + 1;
    }
    let r = RowLiteral { columns };
    proof {
        assert(r@ =~= row.view_as(cols, *native));
    }
    r
}

} // verus!

verus! {

/// Runtime check of [`has_ptr`].
pub fn layout_has_ptr(layout: &RowLayout) -> (r: bool)
    ensures
        r == has_ptr(layout.cols@),
{
    let n = layout.cols.len();
    let mut i: usize = 0;
    while i < n
        invariant
            i <= n,
            n == layout.cols@.len(),
            forall|k: int| 0 <= k < i ==> (#[trigger] layout.cols@[k]).0 != ColumnType::Ptr,
        decreases n - i,
    {
        if layout.cols[i].0 == ColumnType::Ptr {
            return true;
        }
        i = i + 1;
    }
    false
}

} // verus!

verus! {

/// A well-formed row reads back as a well-formed literal for its schema.
pub proof fn lemma_row_view_wf(row: Row, cols: Seq<(ColumnType, bool)>, nl: NativeLayout)
    requires
        nl.wf(cols),
        row.wf(cols, nl),
        !has_ptr(cols),
    ensures
        literal_wf(row.view_as(cols, nl), cols),
{
    let v = row.view_as(cols, nl);
    assert forall|i: int| 0 <= i < v.len() implies match #[trigger] v[i] {
        NullableConstantV::NonNull(c) => !cols[i].1 && constant_matches(c, cols[i].0),
        NullableConstantV::Nullable(o) => cols[i].1 && match o {
            Some(c) => constant_matches(c, cols[i].0),
            None => true,
        },
    } by {
        assert(cols[i].0 != ColumnType::Ptr);
        if !column_null_in(row.bytes@, cols, nl, i) {
            let off = nl.offsets@[i] as int;
            let t = cols[i].0;
            let s = strings_view(row.strings@);
            assert(stored_ok(row.bytes@, s, t, off));
            match t {
                ColumnType::Decimal => {
                    lemma_le_decode_bound_total(row.bytes@, off, 12);
                    lemma_pow256_vals();
                },
                _ => {},
            }
        }
    }
}

/// The value of a little-endian field is bounded by its width's place
/// value, with byte ranges taken from the byte type itself.
proof fn lemma_le_decode_bound_total(bytes: Seq<u8>, off: int, width: nat)
    ensures
        0 <= le_decode(bytes, off, width) < pow256(width),
    decreases width,
{
    if width == 0 {
        lemma_pow256_pos(0);
    } else {
        let w1 = (width - 1) as nat;
        lemma_le_decode_bound_total(bytes, off, w1);
        lemma_pow256_pos(w1);
        let b = byte_val(bytes, off + width - 1);
        assert(0 <= b < 256);
        assert(pow256(w1) * b <= pow256(w1) * 255) by {
            vstd::arithmetic::mul::lemma_mul_inequality(b, 255, pow256(w1));
            vstd::arithmetic::mul::lemma_mul_is_commutative(pow256(w1), b);
            vstd::arithmetic::mul::lemma_mul_is_commutative(pow256(w1), 255);
        }
        assert(pow256(w1) * b >= pow256(w1) * 0) by {
            vstd::arithmetic::mul::lemma_mul_inequality(0, b, pow256(w1));
            vstd::arithmetic::mul::lemma_mul_is_commutative(pow256(w1), b);
            vstd::arithmetic::mul::lemma_mul_is_commutative(pow256(w1), 0);
        }
        assert(pow256(width) == 256 * pow256(w1));
        assert(pow256(w1) + pow256(w1) * 255 == pow256(w1) * 256) by {
            vstd::arithmetic::mul::lemma_mul_is_distributive_add(pow256(w1), 1, 255);
        }
        assert(pow256(w1) * 256 == 256 * pow256(w1)) by {
            vstd::arithmetic::mul::lemma_mul_is_commutative(pow256(w1), 256);
        }
        assert(pow256(w1) * 0 == 0) by {
            vstd::arithmetic::mul::lemma_mul_basics(pow256(w1));
        }
    }
}

/// The integer value of one byte of a buffer, pinned to the byte range.
proof fn byte_val(bytes: Seq<u8>, k: int) -> (b: int)
    ensures
        b == bytes[k],
        0 <= b < 256,
{
    let x: u8 = bytes[k];
    x as int
}

} // verus!

verus! {

/// Equivalent physical layouts decode rows identically.
pub proof fn lemma_view_as_equiv(
    row: Row,
    cols: Seq<(ColumnType, bool)>,
    a: NativeLayout,
    b: NativeLayout,
)
    requires
        crate::layout::native_equiv(a, b),
    ensures
        row.view_as(cols, a) == row.view_as(cols, b),
        row.wf(cols, a) == row.wf(cols, b),
{
    assert forall|i: int|
        0 <= i < cols.len() implies decode_column(
        row.bytes@,
        strings_view(row.strings@),
        cols,
        a,
        i,
    ) == decode_column(row.bytes@, strings_view(row.strings@), cols, b, i) by {
        assert(a.offsets@[i] == b.offsets@[i]);
        assert(a.null_offsets@[i] == b.null_offsets@[i]);
    }
    assert(row.view_as(cols, a) =~= row.view_as(cols, b));
    assert forall|i: int|
        0 <= i < cols.len() implies column_null_in(row.bytes@, cols, a, i) == column_null_in(
        row.bytes@,
        cols,
        b,
        i,
    ) by {}
}

} // verus!
