//! The canonical total order on row literals.
//!
//! Consolidated output lists keys in strictly ascending order of this
//! comparator.  Values are ordered variant-first, then by payload: integers
//! numerically, booleans false-first, strings lexicographically by
//! character, floats by bit pattern, decimals by mantissa then scale.
//! Null sorts before any present value of a nullable column, and rows
//! compare lexicographically column by column.

use vstd::prelude::*;

use crate::literal::{Constant, ConstantV, NullableConstant, NullableConstantV, RowLiteral};

verus! {

/// Distinct characters have distinct scalar values.
pub proof fn lemma_char_cast_injective(a: char, b: char)
    ensures
        (a as u32 == b as u32) ==> a == b,
{
}

/// Result of a three-way comparison.
#[derive(Clone, Copy, Debug, PartialEq, Eq, Structural)]
pub enum Cmp {
    Lt,
    Eq,
    Gt,
}

/// Rank of a constant's variant; values of different variants order by
/// rank.
pub open spec fn const_rank(c: ConstantV) -> int {
    match c {
        ConstantV::Unit => 0,
        ConstantV::U8(_) => 1,
        ConstantV::I8(_) => 2,
        ConstantV::U16(_) => 3,
        ConstantV::I16(_) => 4,
        ConstantV::U32(_) => 5,
        ConstantV::I32(_) => 6,
        ConstantV::U64(_) => 7,
        ConstantV::I64(_) => 8,
        ConstantV::Usize(_) => 9,
        ConstantV::Isize(_) => 10,
        ConstantV::F32Bits(_) => 11,
        ConstantV::F64Bits(_) => 12,
        ConstantV::Bool(_) => 13,
        ConstantV::Date(_) => 14,
        ConstantV::Timestamp(_) => 15,
        ConstantV::String(_) => 16,
        ConstantV::Decimal(_) => 17,
    }
}

/// Strict lexicographic order on character sequences, by scalar value.
pub open spec fn str_lt(a: Seq<char>, b: Seq<char>) -> bool
    decreases a.len(),
{
    if b.len() == 0 {
        false
    } else if a.len() == 0 {
        true
    } else if (a[0] as u32) < (b[0] as u32) {
        true
    } else if a[0] == b[0] {
        str_lt(a.skip(1), b.skip(1))
    } else {
        false
    }
}

/// Strict canonical order on constant values.
pub open spec fn const_lt(a: ConstantV, b: ConstantV) -> bool {
    if const_rank(a) != const_rank(b) {
        const_rank(a) < const_rank(b)
    } else {
        match (a, b) {
            (ConstantV::U8(x), ConstantV::U8(y)) => x < y,
            (ConstantV::I8(x), ConstantV::I8(y)) => x < y,
            (ConstantV::U16(x), ConstantV::U16(y)) => x < y,
            (ConstantV::I16(x), ConstantV::I16(y)) => x < y,
            (ConstantV::U32(x), ConstantV::U32(y)) => x < y,
            (ConstantV::I32(x), ConstantV::I32(y)) => x < y,
            (ConstantV::U64(x), ConstantV::U64(y)) => x < y,
            (ConstantV::I64(x), ConstantV::I64(y)) => x < y,
            (ConstantV::Usize(x), ConstantV::Usize(y)) => x < y,
            (ConstantV::Isize(x), ConstantV::Isize(y)) => x < y,
            (ConstantV::F32Bits(x), ConstantV::F32Bits(y)) => x < y,
            (ConstantV::F64Bits(x), ConstantV::F64Bits(y)) => x < y,
            (ConstantV::Bool(x), ConstantV::Bool(y)) => !x && y,
            (ConstantV::Date(x), ConstantV::Date(y)) => x < y,
            (ConstantV::Timestamp(x), ConstantV::Timestamp(y)) => x < y,
            (ConstantV::String(x), ConstantV::String(y)) => str_lt(x, y),
            (ConstantV::Decimal(x), ConstantV::Decimal(y)) => x.mantissa < y.mantissa || (
            x.mantissa == y.mantissa && x.scale < y.scale),
            _ => false,
        }
    }
}

/// Strict order on one column slot: null sorts before any present value.
pub open spec fn nconst_lt(a: NullableConstantV, b: NullableConstantV) -> bool {
    match (a, b) {
        (NullableConstantV::NonNull(x), NullableConstantV::NonNull(y)) => const_lt(x, y),
        (NullableConstantV::NonNull(_), NullableConstantV::Nullable(_)) => true,
        (NullableConstantV::Nullable(_), NullableConstantV::NonNull(_)) => false,
        (NullableConstantV::Nullable(x), NullableConstantV::Nullable(y)) => match (x, y) {
            (None, None) => false,
            (None, Some(_)) => true,
            (Some(_), None) => false,
            (Some(u), Some(v)) => const_lt(u, v),
        },
    }
}

/// Strict lexicographic order on rows, column by column.
pub open spec fn row_lt(a: Seq<NullableConstantV>, b: Seq<NullableConstantV>) -> bool
    decreases a.len(),
{
    if b.len() == 0 {
        false
    } else if a.len() == 0 {
        true
    } else if nconst_lt(a[0], b[0]) {
        true
    } else if a[0] == b[0] {
        row_lt(a.skip(1), b.skip(1))
    } else {
        false
    }
}

/// Strict order on key-value pairs: by key, then by value.
pub open spec fn pair_lt(
    a: (Seq<NullableConstantV>, Seq<NullableConstantV>),
    b: (Seq<NullableConstantV>, Seq<NullableConstantV>),
) -> bool {
    row_lt(a.0, b.0) || (a.0 == b.0 && row_lt(a.1, b.1))
}

/// Characters order totally: exactly one of `<`, `==`, `>` holds of two
/// sequences.
pub proof fn lemma_str_trichotomy(a: Seq<char>, b: Seq<char>)
    ensures
        str_lt(a, b) ==> !str_lt(b, a) && a != b,
        !str_lt(a, b) && !str_lt(b, a) ==> a == b,
    decreases a.len(),
{
    if a.len() == 0 && b.len() == 0 {
        assert(a =~= b);
    }
    if a.len() > 0 && b.len() > 0 {
        lemma_str_trichotomy(a.skip(1), b.skip(1));
        lemma_char_cast_injective(a[0], b[0]);
        if a[0] == b[0] {
            if a.skip(1) == b.skip(1) {
                assert forall|k: int| 0 <= k < a.len() implies a[k] == b[k] by {
                    if k > 0 {
                        assert(a[k] == a.skip(1)[k - 1]);
                        assert(b[k] == b.skip(1)[k - 1]);
                    }
                }
                assert(a =~= b);
            }
            if a == b {
                assert(a.skip(1) =~= b.skip(1));
            }
        }
    }
}

pub proof fn lemma_str_lt_trans(a: Seq<char>, b: Seq<char>, c: Seq<char>)
    requires
        str_lt(a, b),
        str_lt(b, c),
    ensures
        str_lt(a, c),
    decreases a.len(),
{
    if a.len() > 0 && b.len() > 0 && c.len() > 0 {
        if a[0] == b[0] && b[0] == c[0] {
            lemma_str_lt_trans(a.skip(1), b.skip(1), c.skip(1));
        }
    }
}

/// Constant values order totally under [`const_lt`].
pub proof fn lemma_const_trichotomy(a: ConstantV, b: ConstantV)
    ensures
        const_lt(a, b) ==> !const_lt(b, a) && a != b,
        !const_lt(a, b) && !const_lt(b, a) ==> a == b,
{
    match (a, b) {
        (ConstantV::String(x), ConstantV::String(y)) => {
            lemma_str_trichotomy(x, y);
        },
        _ => {},
    }
}

pub proof fn lemma_const_lt_trans(a: ConstantV, b: ConstantV, c: ConstantV)
    requires
        const_lt(a, b),
        const_lt(b, c),
    ensures
        const_lt(a, c),
{
    match (a, b, c) {
        (ConstantV::String(x), ConstantV::String(y), ConstantV::String(z)) => {
            if const_rank(a) == const_rank(b) && const_rank(b) == const_rank(c) {
                lemma_str_lt_trans(x, y, z);
            }
        },
        _ => {},
    }
}

/// Column slots order totally under [`nconst_lt`].
pub proof fn lemma_nconst_trichotomy(a: NullableConstantV, b: NullableConstantV)
    ensures
        nconst_lt(a, b) ==> !nconst_lt(b, a) && a != b,
        !nconst_lt(a, b) && !nconst_lt(b, a) ==> a == b,
{
    match (a, b) {
        (NullableConstantV::NonNull(x), NullableConstantV::NonNull(y)) => {
            lemma_const_trichotomy(x, y);
        },
        (NullableConstantV::Nullable(Some(x)), NullableConstantV::Nullable(Some(y))) => {
            lemma_const_trichotomy(x, y);
        },
        _ => {},
    }
}

pub proof fn lemma_nconst_lt_trans(a: NullableConstantV, b: NullableConstantV, c: NullableConstantV)
    requires
        nconst_lt(a, b),
        nconst_lt(b, c),
    ensures
        nconst_lt(a, c),
{
    match (a, b, c) {
        (
            NullableConstantV::NonNull(x),
            NullableConstantV::NonNull(y),
            NullableConstantV::NonNull(z),
        ) => {
            lemma_const_lt_trans(x, y, z);
        },
        (
            NullableConstantV::Nullable(Some(x)),
            NullableConstantV::Nullable(Some(y)),
            NullableConstantV::Nullable(Some(z)),
        ) => {
            lemma_const_lt_trans(x, y, z);
        },
        _ => {},
    }
}

/// Rows order totally under [`row_lt`].
pub proof fn lemma_row_trichotomy(a: Seq<NullableConstantV>, b: Seq<NullableConstantV>)
    ensures
        row_lt(a, b) ==> !row_lt(b, a) && a != b,
        !row_lt(a, b) && !row_lt(b, a) ==> a == b,
    decreases a.len(),
{
    if a.len() == 0 && b.len() == 0 {
        assert(a =~= b);
    }
    if a.len() > 0 && b.len() > 0 {
        lemma_nconst_trichotomy(a[0], b[0]);
        lemma_row_trichotomy(a.skip(1), b.skip(1));
        if a[0] == b[0] {
            if a.skip(1) == b.skip(1) {
                assert forall|k: int| 0 <= k < a.len() implies a[k] == b[k] by {
                    if k > 0 {
                        assert(a[k] == a.skip(1)[k - 1]);
                        assert(b[k] == b.skip(1)[k - 1]);
                    }
                }
                assert(a =~= b);
            }
            if a == b {
                assert(a.skip(1) =~= b.skip(1));
            }
        }
    }
}

pub proof fn lemma_row_lt_trans(
    a: Seq<NullableConstantV>,
    b: Seq<NullableConstantV>,
    c: Seq<NullableConstantV>,
)
    requires
        row_lt(a, b),
        row_lt(b, c),
    ensures
        row_lt(a, c),
    decreases a.len(),
{
    if a.len() > 0 && b.len() > 0 && c.len() > 0 {
        lemma_nconst_trichotomy(a[0], b[0]);
        lemma_nconst_trichotomy(b[0], c[0]);
        if a[0] == b[0] && b[0] == c[0] {
            lemma_row_lt_trans(a.skip(1), b.skip(1), c.skip(1));
        } else if nconst_lt(a[0], b[0]) && nconst_lt(b[0], c[0]) {
            lemma_nconst_lt_trans(a[0], b[0], c[0]);
        }
    }
}

/// Key-value pairs order totally under [`pair_lt`].
pub proof fn lemma_pair_trichotomy(
    a: (Seq<NullableConstantV>, Seq<NullableConstantV>),
    b: (Seq<NullableConstantV>, Seq<NullableConstantV>),
)
    ensures
        pair_lt(a, b) ==> !pair_lt(b, a) && a != b,
        !pair_lt(a, b) && !pair_lt(b, a) ==> a == b,
{
    lemma_row_trichotomy(a.0, b.0);
    lemma_row_trichotomy(a.1, b.1);
}

pub proof fn lemma_pair_lt_trans(
    a: (Seq<NullableConstantV>, Seq<NullableConstantV>),
    b: (Seq<NullableConstantV>, Seq<NullableConstantV>),
    c: (Seq<NullableConstantV>, Seq<NullableConstantV>),
)
    requires
        pair_lt(a, b),
        pair_lt(b, c),
    ensures
        pair_lt(a, c),
{
    if row_lt(a.0, b.0) && row_lt(b.0, c.0) {
        lemma_row_lt_trans(a.0, b.0, c.0);
    } else if a.0 == b.0 && b.0 == c.0 {
        lemma_row_lt_trans(a.1, b.1, c.1);
    }
}

/// If two sequences agree on their first `i` elements, their order is
/// decided by the remainders.
proof fn lemma_str_lt_skip(a: Seq<char>, b: Seq<char>, i: int)
    requires
        0 <= i <= a.len(),
        i <= b.len(),
        forall|k: int| 0 <= k < i ==> a[k] == b[k],
    ensures
        str_lt(a, b) == str_lt(a.skip(i), b.skip(i)),
    decreases i,
{
    if i == 0 {
        assert(a.skip(0) =~= a);
        assert(b.skip(0) =~= b);
    } else {
        assert(forall|k: int| 0 <= k < i - 1 ==> a.skip(1)[k] == b.skip(1)[k]);
        lemma_str_lt_skip(a.skip(1), b.skip(1), i - 1);
        assert(a.skip(1).skip(i - 1) =~= a.skip(i));
        assert(b.skip(1).skip(i - 1) =~= b.skip(i));
    }
}

proof fn lemma_row_lt_skip(a: Seq<NullableConstantV>, b: Seq<NullableConstantV>, i: int)
    requires
        0 <= i <= a.len(),
        i <= b.len(),
        forall|k: int| 0 <= k < i ==> a[k] == b[k],
    ensures
        row_lt(a, b) == row_lt(a.skip(i), b.skip(i)),
    decreases i,
{
    if i == 0 {
        assert(a.skip(0) =~= a);
        assert(b.skip(0) =~= b);
    } else {
        lemma_nconst_trichotomy(a[0], b[0]);
        assert(!nconst_lt(a[0], b[0]));
        assert(forall|k: int| 0 <= k < i - 1 ==> a.skip(1)[k] == b.skip(1)[k]);
        lemma_row_lt_skip(a.skip(1), b.skip(1), i - 1);
        assert(a.skip(1).skip(i - 1) =~= a.skip(i));
        assert(b.skip(1).skip(i - 1) =~= b.skip(i));
    }
}

/// Three-way comparison of strings by character.
pub(crate) fn cmp_str(a: &String, b: &String) -> (r: Cmp)
    ensures
        (r == Cmp::Lt) == str_lt(a@, b@),
        (r == Cmp::Eq) == (a@ == b@),
        (r == Cmp::Gt) == str_lt(b@, a@),
{
    proof {
        lemma_str_trichotomy(a@, b@);
    }
    let alen = a.as_str().unicode_len();
    let blen = b.as_str().unicode_len();
    let n = if alen < blen {
        alen
    } else {
        blen
    };
    let mut i: usize = 0;
    while i < n
        invariant
            i <= n,
            alen == a@.len(),
            blen == b@.len(),
            n == if alen < blen {
                alen
            } else {
                blen
            },
            forall|k: int| 0 <= k < i ==> a@[k] == b@[k],
        decreases n - i,
    {
        let ca = a.as_str().get_char(i);
        let cb = b.as_str().get_char(i);
        let ua = ca as u32;
        let ub = cb as u32;
        if ua < ub {
            proof {
                lemma_str_lt_skip(a@, b@, i as int);
                lemma_str_trichotomy(a@, b@);
            }
            return Cmp::Lt;
        }
        if ua > ub {
            proof {
                lemma_str_lt_skip(b@, a@, i as int);
                lemma_str_trichotomy(a@, b@);
            }
            return Cmp::Gt;
        }
        assert(ca == cb);
        i = i + 1;
    }
    proof {
        lemma_str_lt_skip(a@, b@, i as int);
        lemma_str_lt_skip(b@, a@, i as int);
        if alen == blen {
            assert(a@ =~= b@);
        }
    }
    if alen < blen {
        Cmp::Lt
    } else if alen > blen {
        Cmp::Gt
    } else {
        Cmp::Eq
    }
}

/// Three-way canonical comparison of constants.
#[verifier::rlimit(50)]
pub fn cmp_constant(a: &Constant, b: &Constant) -> (r: Cmp)
    ensures
        (r == Cmp::Lt) == const_lt(a@, b@),
        (r == Cmp::Eq) == (a@ == b@),
        (r == Cmp::Gt) == const_lt(b@, a@),
{
    proof {
        lemma_const_trichotomy(a@, b@);
    }
    let ra = const_rank_exec(a);
    let rb = const_rank_exec(b);
    if ra < rb {
        return Cmp::Lt;
    }
    if ra > rb {
        return Cmp::Gt;
    }
    match (a, b) {
        (Constant::Unit, Constant::Unit) => Cmp::Eq,
        (Constant::U8(x), Constant::U8(y)) => cmp_of(*x < *y, *x == *y),
        (Constant::I8(x), Constant::I8(y)) => cmp_of(*x < *y, *x == *y),
        (Constant::U16(x), Constant::U16(y)) => cmp_of(*x < *y, *x == *y),
        (Constant::I16(x), Constant::I16(y)) => cmp_of(*x < *y, *x == *y),
        (Constant::U32(x), Constant::U32(y)) => cmp_of(*x < *y, *x == *y),
        (Constant::I32(x), Constant::I32(y)) => cmp_of(*x < *y, *x == *y),
        (Constant::U64(x), Constant::U64(y)) => cmp_of(*x < *y, *x == *y),
        (Constant::I64(x), Constant::I64(y)) => cmp_of(*x < *y, *x == *y),
        (Constant::Usize(x), Constant::Usize(y)) => cmp_of(*x < *y, *x == *y),
        (Constant::Isize(x), Constant::Isize(y)) => cmp_of(*x < *y, *x == *y),
        (Constant::F32Bits(x), Constant::F32Bits(y)) => cmp_of(*x < *y, *x == *y),
        (Constant::F64Bits(x), Constant::F64Bits(y)) => cmp_of(*x < *y, *x == *y),
        (Constant::Bool(x), Constant::Bool(y)) => cmp_of(!*x && *y, *x == *y),
        (Constant::Date(x), Constant::Date(y)) => cmp_of(*x < *y, *x == *y),
        (Constant::Timestamp(x), Constant::Timestamp(y)) => cmp_of(*x < *y, *x == *y),
        (Constant::String(x), Constant::String(y)) => cmp_str(x, y),
        (Constant::Decimal(x), Constant::Decimal(y)) => cmp_of(
            x.mantissa < y.mantissa || (x.mantissa == y.mantissa && x.scale < y.scale),
            x.mantissa == y.mantissa && x.scale == y.scale,
        ),
        _ => {
            proof {
                assert(false);
            }
            Cmp::Eq
        },
    }
}

/// Folds a strict-less flag and an equality flag into a [`Cmp`].
fn cmp_of(lt: bool, eq: bool) -> (r: Cmp)
    requires
        !(lt && eq),
    ensures
        (r == Cmp::Lt) == lt,
        (r == Cmp::Eq) == eq,
        (r == Cmp::Gt) == (!lt && !eq),
{
    if lt {
        Cmp::Lt
    } else if eq {
        Cmp::Eq
    } else {
        Cmp::Gt
    }
}

fn const_rank_exec(c: &Constant) -> (r: u32)
    ensures
        r == const_rank(c@),
{
    match c {
        Constant::Unit => 0,
        Constant::U8(_) => 1,
        Constant::I8(_) => 2,
        Constant::U16(_) => 3,
        Constant::I16(_) => 4,
        Constant::U32(_) => 5,
        Constant::I32(_) => 6,
        Constant::U64(_) => 7,
        Constant::I64(_) => 8,
        Constant::Usize(_) => 9,
        Constant::Isize(_) => 10,
        Constant::F32Bits(_) => 11,
        Constant::F64Bits(_) => 12,
        Constant::Bool(_) => 13,
        Constant::Date(_) => 14,
        Constant::Timestamp(_) => 15,
        Constant::String(_) => 16,
        Constant::Decimal(_) => 17,
    }
}

/// Three-way comparison of one column slot.
pub fn cmp_nconstant(a: &NullableConstant, b: &NullableConstant) -> (r: Cmp)
    ensures
        (r == Cmp::Lt) == nconst_lt(a@, b@),
        (r == Cmp::Eq) == (a@ == b@),
        (r == Cmp::Gt) == nconst_lt(b@, a@),
{
    proof {
        lemma_nconst_trichotomy(a@, b@);
    }
    match (a, b) {
        (NullableConstant::NonNull(x), NullableConstant::NonNull(y)) => cmp_constant(x, y),
        (NullableConstant::NonNull(_), NullableConstant::Nullable(_)) => Cmp::Lt,
        (NullableConstant::Nullable(_), NullableConstant::NonNull(_)) => Cmp::Gt,
        (NullableConstant::Nullable(x), NullableConstant::Nullable(y)) => match (x, y) {
            (None, None) => Cmp::Eq,
            (None, Some(_)) => Cmp::Lt,
            (Some(_), None) => Cmp::Gt,
            (Some(u), Some(v)) => cmp_constant(u, v),
        },
    }
}

/// Three-way canonical comparison of row literals.
pub fn cmp_row(a: &RowLiteral, b: &RowLiteral) -> (r: Cmp)
    ensures
        (r == Cmp::Lt) == row_lt(a@, b@),
        (r == Cmp::Eq) == (a@ == b@),
        (r == Cmp::Gt) == row_lt(b@, a@),
{
    proof {
        lemma_row_trichotomy(a@, b@);
    }
    let alen = a.columns.len();
    let blen = b.columns.len();
    let n = if alen < blen {
        alen
    } else {
        blen
    };
    let mut i: usize = 0;
    while i < n
        invariant
            i <= n,
            alen == a@.len(),
            blen == b@.len(),
            alen == a.columns@.len(),
            blen == b.columns@.len(),
            n == if alen < blen {
                alen
            } else {
                blen
            },
            forall|k: int| 0 <= k < i ==> a@[k] == b@[k],
        decreases n - i,
    {
        let c = cmp_nconstant(&a.columns[i], &b.columns[i]);
        proof {
            assert(a@[i as int] == a.columns@[i as int]@);
            assert(b@[i as int] == b.columns@[i as int]@);
        }
        match c {
            Cmp::Lt => {
                proof {
                    lemma_row_lt_skip(a@, b@, i as int);
                    lemma_row_trichotomy(a@, b@);
                }
                return Cmp::Lt;
            },
            Cmp::Gt => {
                proof {
                    lemma_row_lt_skip(b@, a@, i as int);
                    lemma_row_trichotomy(a@, b@);
                }
                return Cmp::Gt;
            },
            Cmp::Eq => {
                i = i + 1;
            },
        }
    }
    proof {
        lemma_row_lt_skip(a@, b@, i as int);
        lemma_row_lt_skip(b@, a@, i as int);
        if alen == blen {
            assert(a@ =~= b@);
        }
    }
    if alen < blen {
        Cmp::Lt
    } else if alen > blen {
        Cmp::Gt
    } else {
        Cmp::Eq
    }
}

/// Three-way comparison of key-value pairs, key first.
pub fn cmp_pair(ak: &RowLiteral, av: &RowLiteral, bk: &RowLiteral, bv: &RowLiteral) -> (r: Cmp)
    ensures
        (r == Cmp::Lt) == pair_lt((ak@, av@), (bk@, bv@)),
        (r == Cmp::Eq) == (ak@ == bk@ && av@ == bv@),
        (r == Cmp::Gt) == pair_lt((bk@, bv@), (ak@, av@)),
{
    proof {
        lemma_row_trichotomy(ak@, bk@);
        lemma_row_trichotomy(av@, bv@);
    }
    match cmp_row(ak, bk) {
        Cmp::Lt => Cmp::Lt,
        Cmp::Gt => Cmp::Gt,
        Cmp::Eq => cmp_row(av, bv),
    }
}

} // verus!
