//! SQL runtime operations over nullable scalars.
//!
//! These are the row-level functions that compiled dataflow expressions
//! call: three-valued boolean logic, null tests, aggregate steps, guarded
//! division, absolute value, distinctness tests, and interval scaling.  An
//! `N` in a name marks a nullable (`Option`) argument position.

#![allow(non_snake_case)]

use vstd::prelude::*;
use vstd::pervasive::cloned;
use vstd::std_specs::cmp::OrdSpec;
use vstd::std_specs::cmp::PartialEqSpec;
use vstd::std_specs::ops::AddSpec;

use core::marker::PhantomData;
use core::ops::Add;

use crate::interval::ShortInterval;

verus! {

/// Magnitude of an integer.
pub open spec fn abs(a: int) -> int {
    if a < 0 {
        -a
    } else {
        a
    }
}

/// Truncated (round-toward-zero) quotient: the quotient of SQL division.
pub open spec fn div_trunc(a: int, b: int) -> int {
    let q = abs(a) / abs(b);
    if (a < 0) != (b < 0) {
        -q
    } else {
        q
    }
}

/// SQL three-valued OR: null counts as unknown, so `true` wins over null
/// and null wins over `false`.
pub open spec fn sql_or(a: Option<bool>, b: Option<bool>) -> Option<bool> {
    match (a, b) {
        (Some(x), Some(y)) => Some(x || y),
        (Some(true), None) => Some(true),
        (None, Some(true)) => Some(true),
        _ => None,
    }
}

/// SQL three-valued AND: `false` wins over null and null wins over `true`.
pub open spec fn sql_and(a: Option<bool>, b: Option<bool>) -> Option<bool> {
    match (a, b) {
        (Some(x), Some(y)) => Some(x && y),
        (Some(false), None) => Some(false),
        (None, Some(false)) => Some(false),
        _ => None,
    }
}

/// A nullable boolean read as a filter condition: null means `false`.
pub fn wrap_bool(b: Option<bool>) -> (r: bool)
    ensures
        r == (b == Some(true)),
{
    match b {
        Some(x) => x,
        _ => false,
    }
}

pub fn or_b_b(left: bool, right: bool) -> (r: bool)
    ensures
        r == (left || right),
{
    left || right
}

pub fn or_bN_b(left: Option<bool>, right: bool) -> (r: Option<bool>)
    ensures
        r == sql_or(left, Some(right)),
{
    match (left, right) {
        (Some(l), r) => Some(l || r),
        (_, true) => Some(true),
        (_, _) => None,
    }
}

pub fn or_b_bN(left: bool, right: Option<bool>) -> (r: Option<bool>)
    ensures
        r == sql_or(Some(left), right),
{
    match (left, right) {
        (l, Some(r)) => Some(l || r),
        (true, _) => Some(true),
        (_, _) => None,
    }
}

pub fn or_bN_bN(left: Option<bool>, right: Option<bool>) -> (r: Option<bool>)
    ensures
        r == sql_or(left, right),
{
    match (left, right) {
        (Some(l), Some(r)) => Some(l || r),
        (Some(true), _) => Some(true),
        (_, Some(true)) => Some(true),
        (_, _) => None,
    }
}

pub fn and_b_b(left: bool, right: bool) -> (r: bool)
    ensures
        r == (left && right),
{
    left && right
}

pub fn and_bN_b(left: Option<bool>, right: bool) -> (r: Option<bool>)
    ensures
        r == sql_and(left, Some(right)),
{
    match (left, right) {
        (Some(l), r) => Some(l && r),
        (_, false) => Some(false),
        (_, _) => None,
    }
}

pub fn and_b_bN(left: bool, right: Option<bool>) -> (r: Option<bool>)
    ensures
        r == sql_and(Some(left), right),
{
    match (left, right) {
        (l, Some(r)) => Some(l && r),
        (false, _) => Some(false),
        (_, _) => None,
    }
}

pub fn and_bN_bN(left: Option<bool>, right: Option<bool>) -> (r: Option<bool>)
    ensures
        r == sql_and(left, right),
{
    match (left, right) {
        (Some(l), Some(r)) => Some(l && r),
        (Some(false), _) => Some(false),
        (_, Some(false)) => Some(false),
        (_, _) => None,
    }
}

pub fn is_null<T>(value: Option<T>) -> (r: bool)
    ensures
        r == (value is None),
{
    value.is_none()
}

/// One when present, zero when null: the indicator used by COUNT.
pub fn indicator<T>(value: Option<T>) -> (r: i64)
    ensures
        r == if value is Some {
            1int
        } else {
            0int
        },
{
    match value {
        None => 0,
        Some(_) => 1,
    }
}

/// MAX aggregation step over nullable values; null is the identity.
pub fn agg_max_N_N<T: Ord + Copy>(left: Option<T>, right: Option<T>) -> (r: Option<T>)
    ensures
        T::obeys_cmp_spec() ==> r == match (left, right) {
            (None, _) => right,
            (Some(_), None) => left,
            (Some(x), Some(y)) => Some(
                if y.cmp_spec(&x) is Less {
                    x
                } else {
                    y
                },
            ),
        },
{
    match (left, right) {
        (None, _) => right,
        (_, None) => left,
        (Some(x), Some(y)) => Some(x.max(y)),
    }
}

/// MIN aggregation step over nullable values; null is the identity.
pub fn agg_min_N_N<T: Ord + Copy>(left: Option<T>, right: Option<T>) -> (r: Option<T>)
    ensures
        T::obeys_cmp_spec() ==> r == match (left, right) {
            (None, _) => right,
            (Some(_), None) => left,
            (Some(x), Some(y)) => Some(
                if y.cmp_spec(&x) is Less {
                    y
                } else {
                    x
                },
            ),
        },
{
    match (left, right) {
        (None, _) => right,
        (_, None) => left,
        (Some(x), Some(y)) => Some(x.min(y)),
    }
}

pub fn agg_max_N_<T: Ord + Copy>(left: Option<T>, right: T) -> (r: Option<T>)
    ensures
        T::obeys_cmp_spec() ==> r == match left {
            None => Some(right),
            Some(x) => Some(
                if right.cmp_spec(&x) is Less {
                    x
                } else {
                    right
                },
            ),
        },
{
    match left {
        None => Some(right),
        Some(x) => Some(x.max(right)),
    }
}

pub fn agg_min_N_<T: Ord + Copy>(left: Option<T>, right: T) -> (r: Option<T>)
    ensures
        T::obeys_cmp_spec() ==> r == match left {
            None => Some(right),
            Some(x) => Some(
                if right.cmp_spec(&x) is Less {
                    right
                } else {
                    x
                },
            ),
        },
{
    match left {
        None => Some(right),
        Some(x) => Some(x.min(right)),
    }
}

pub fn agg_max__<T: Ord + Copy>(left: T, right: T) -> (r: T)
    ensures
        T::obeys_cmp_spec() ==> r == if right.cmp_spec(&left) is Less {
            left
        } else {
            right
        },
{
    left.max(right)
}

pub fn agg_min__<T: Ord + Copy>(left: T, right: T) -> (r: T)
    ensures
        T::obeys_cmp_spec() ==> r == if right.cmp_spec(&left) is Less {
            right
        } else {
            left
        },
{
    left.min(right)
}

/// SUM aggregation step over nullable values; null is the identity.
pub fn agg_plus_N_N<T: Add<Output = T> + Copy>(left: Option<T>, right: Option<T>) -> (r: Option<T>)
    requires
        left matches Some(x) ==> right matches Some(y) ==> x.add_req(y),
    ensures
        T::obeys_add_spec() ==> r == match (left, right) {
            (None, _) => right,
            (Some(_), None) => left,
            (Some(x), Some(y)) => Some(x.add_spec(y)),
        },
{
    match (left, right) {
        (None, _) => right,
        (_, None) => left,
        (Some(x), Some(y)) => Some(x + y),
    }
}

pub fn agg_plus_N_<T: Add<Output = T> + Copy>(left: Option<T>, right: T) -> (r: Option<T>)
    requires
        left matches Some(x) ==> x.add_req(right),
    ensures
        T::obeys_add_spec() ==> r == match left {
            None => Some(right),
            Some(x) => Some(x.add_spec(right)),
        },
{
    match left {
        None => Some(right),
        Some(x) => Some(x + right),
    }
}

pub fn agg_plus__N<T: Add<Output = T> + Copy>(left: T, right: Option<T>) -> (r: Option<T>)
    requires
        right matches Some(y) ==> left.add_req(y),
    ensures
        T::obeys_add_spec() ==> r == match right {
            None => Some(left),
            Some(y) => Some(left.add_spec(y)),
        },
{
    match right {
        None => Some(left),
        Some(y) => Some(left + y),
    }
}

pub fn agg_plus__<T: Add<Output = T> + Copy>(left: T, right: T) -> (r: T)
    requires
        left.add_req(right),
    ensures
        T::obeys_add_spec() ==> r == left.add_spec(right),
{
    left + right
}

/// Signed division with SQL truncation semantics, on 64-bit magnitudes.
fn div_wide(left: i64, right: i64) -> (r: i64)
    requires
        right != 0,
        !(left == i64::MIN && right == -1),
    ensures
        r as int == div_trunc(left as int, right as int),
        abs(r as int) <= abs(left as int),
        abs(right as int) >= 2 ==> abs(r as int) <= abs(left as int) / 2,
{
    let neg: bool = (left < 0) != (right < 0);
    let la: u64 = if left < 0 {
        (-(left as i128)) as u64
    } else {
        left as u64
    };
    let ra: u64 = if right < 0 {
        (-(right as i128)) as u64
    } else {
        right as u64
    };
    let q: u64 = la / ra;
    proof {
        assert(la as int == abs(left as int));
        assert(ra as int == abs(right as int));
        vstd::arithmetic::div_mod::lemma_fundamental_div_mod(la as int, ra as int);
        vstd::arithmetic::div_mod::lemma_mod_bound(la as int, ra as int);
        vstd::arithmetic::div_mod::lemma_div_pos_is_pos(la as int, ra as int);
        vstd::arithmetic::mul::lemma_mul_inequality(1, ra as int, q as int);
        vstd::arithmetic::mul::lemma_mul_is_commutative(q as int, ra as int);
        assert(q as int <= la as int);
        if ra >= 2 {
            vstd::arithmetic::div_mod::lemma_div_is_ordered_by_denominator(la as int, 2, ra as int);
            assert(q as int <= la as int / 2);
        }
    }
    if neg {
        (-(q as i128)) as i64
    } else {
        proof {
            if left == i64::MIN {
                assert(right < 0);
                assert(ra >= 2);
            }
        }
        q as i64
    }
}

pub fn div_i16_i16(left: i16, right: i16) -> (r: Option<i16>)
    requires
        !(left == i16::MIN && right == -1),
    ensures
        r == if right == 0 {
            None::<i16>
        } else {
            Some((div_trunc(left as int, right as int)) as i16)
        },
        right != 0 ==> (r matches Some(q) && q as int == div_trunc(left as int, right as int)),
{
    if right == 0 {
        None
    } else {
        let q = div_wide(left as i64, right as i64);
        proof {
            div_range_small(left as int, right as int, q as int, 0x8000);
        }
        Some(q as i16)
    }
}

pub fn div_i32_i32(left: i32, right: i32) -> (r: Option<i32>)
    requires
        !(left == i32::MIN && right == -1),
    ensures
        r == if right == 0 {
            None::<i32>
        } else {
            Some((div_trunc(left as int, right as int)) as i32)
        },
        right != 0 ==> (r matches Some(q) && q as int == div_trunc(left as int, right as int)),
{
    if right == 0 {
        None
    } else {
        let q = div_wide(left as i64, right as i64);
        proof {
            div_range_small(left as int, right as int, q as int, 0x8000_0000);
        }
        Some(q as i32)
    }
}

pub fn div_i64_i64(left: i64, right: i64) -> (r: Option<i64>)
    requires
        !(left == i64::MIN && right == -1),
    ensures
        r == if right == 0 {
            None::<i64>
        } else {
            Some((div_trunc(left as int, right as int)) as i64)
        },
        right != 0 ==> (r matches Some(q) && q as int == div_trunc(left as int, right as int)),
{
    if right == 0 {
        None
    } else {
        Some(div_wide(left, right))
    }
}

/// A truncated quotient of operands within `±bound` stays within the
/// narrow range `[-bound, bound)`.
proof fn div_range_small(a: int, b: int, q: int, bound: int)
    requires
        b != 0,
        !(a == -bound && b == -1),
        2 <= bound,
        -bound <= a < bound,
        -bound <= b < bound,
        q == div_trunc(a, b),
        abs(q) <= abs(a),
        abs(b) >= 2 ==> abs(q) <= abs(a) / 2,
    ensures
        -bound <= q < bound,
{
    if b == 1 {
        assert(abs(a) / 1 == abs(a));
        assert(q == a);
    } else if b == -1 {
        assert(abs(a) / 1 == abs(a));
        assert(q == -a);
    } else {
        assert(abs(b) >= 2);
        assert(abs(q) <= abs(a) / 2);
        assert(abs(a) / 2 <= bound / 2) by {
            vstd::arithmetic::div_mod::lemma_div_is_ordered(abs(a), bound, 2);
        }
    }
}

pub fn div_i16N_i16(left: Option<i16>, right: i16) -> (r: Option<i16>)
    requires
        !(left == Some(i16::MIN) && right == -1),
    ensures
        r == match left {
            Some(l) => if right == 0 {
                None::<i16>
            } else {
                Some((div_trunc(l as int, right as int)) as i16)
            },
            None => None::<i16>,
        },
{
    match left {
        Some(l) => div_i16_i16(l, right),
        None => None,
    }
}

pub fn div_i32N_i32(left: Option<i32>, right: i32) -> (r: Option<i32>)
    requires
        !(left == Some(i32::MIN) && right == -1),
    ensures
        r == match left {
            Some(l) => if right == 0 {
                None::<i32>
            } else {
                Some((div_trunc(l as int, right as int)) as i32)
            },
            None => None::<i32>,
        },
{
    match left {
        Some(l) => div_i32_i32(l, right),
        None => None,
    }
}

pub fn div_i64N_i64(left: Option<i64>, right: i64) -> (r: Option<i64>)
    requires
        !(left == Some(i64::MIN) && right == -1),
    ensures
        r == match left {
            Some(l) => if right == 0 {
                None::<i64>
            } else {
                Some((div_trunc(l as int, right as int)) as i64)
            },
            None => None::<i64>,
        },
{
    match left {
        Some(l) => div_i64_i64(l, right),
        None => None,
    }
}

pub fn div_i16_i16N(left: i16, right: Option<i16>) -> (r: Option<i16>)
    requires
        !(left == i16::MIN && right == Some(-1i16)),
    ensures
        r == match right {
            Some(rr) => if rr == 0 {
                None::<i16>
            } else {
                Some((div_trunc(left as int, rr as int)) as i16)
            },
            None => None::<i16>,
        },
{
    match right {
        Some(rr) => div_i16_i16(left, rr),
        None => None,
    }
}

pub fn div_i32_i32N(left: i32, right: Option<i32>) -> (r: Option<i32>)
    requires
        !(left == i32::MIN && right == Some(-1i32)),
    ensures
        r == match right {
            Some(rr) => if rr == 0 {
                None::<i32>
            } else {
                Some((div_trunc(left as int, rr as int)) as i32)
            },
            None => None::<i32>,
        },
{
    match right {
        Some(rr) => div_i32_i32(left, rr),
        None => None,
    }
}

pub fn div_i64_i64N(left: i64, right: Option<i64>) -> (r: Option<i64>)
    requires
        !(left == i64::MIN && right == Some(-1i64)),
    ensures
        r == match right {
            Some(rr) => if rr == 0 {
                None::<i64>
            } else {
                Some((div_trunc(left as int, rr as int)) as i64)
            },
            None => None::<i64>,
        },
{
    match right {
        Some(rr) => div_i64_i64(left, rr),
        None => None,
    }
}

pub fn div_i16N_i16N(left: Option<i16>, right: Option<i16>) -> (r: Option<i16>)
    requires
        !(left == Some(i16::MIN) && right == Some(-1i16)),
    ensures
        r == match (left, right) {
            (Some(l), Some(rr)) => if rr == 0 {
                None::<i16>
            } else {
                Some((div_trunc(l as int, rr as int)) as i16)
            },
            _ => None::<i16>,
        },
{
    match (left, right) {
        (Some(l), Some(rr)) => div_i16_i16(l, rr),
        _ => None,
    }
}

pub fn div_i32N_i32N(left: Option<i32>, right: Option<i32>) -> (r: Option<i32>)
    requires
        !(left == Some(i32::MIN) && right == Some(-1i32)),
    ensures
        r == match (left, right) {
            (Some(l), Some(rr)) => if rr == 0 {
                None::<i32>
            } else {
                Some((div_trunc(l as int, rr as int)) as i32)
            },
            _ => None::<i32>,
        },
{
    match (left, right) {
        (Some(l), Some(rr)) => div_i32_i32(l, rr),
        _ => None,
    }
}

pub fn div_i64N_i64N(left: Option<i64>, right: Option<i64>) -> (r: Option<i64>)
    requires
        !(left == Some(i64::MIN) && right == Some(-1i64)),
    ensures
        r == match (left, right) {
            (Some(l), Some(rr)) => if rr == 0 {
                None::<i64>
            } else {
                Some((div_trunc(l as int, rr as int)) as i64)
            },
            _ => None::<i64>,
        },
{
    match (left, right) {
        (Some(l), Some(rr)) => div_i64_i64(l, rr),
        _ => None,
    }
}

pub fn abs_i16(left: i16) -> (r: i16)
    requires
        left != i16::MIN,
    ensures
        r as int == abs(left as int),
{
    if left < 0 {
        -left
    } else {
        left
    }
}

pub fn abs_i32(left: i32) -> (r: i32)
    requires
        left != i32::MIN,
    ensures
        r as int == abs(left as int),
{
    if left < 0 {
        -left
    } else {
        left
    }
}

pub fn abs_i64(left: i64) -> (r: i64)
    requires
        left != i64::MIN,
    ensures
        r as int == abs(left as int),
{
    if left < 0 {
        -left
    } else {
        left
    }
}

pub fn abs_i16N(left: Option<i16>) -> (r: Option<i16>)
    requires
        left != Some(i16::MIN),
    ensures
        r == match left {
            Some(l) => Some((abs(l as int)) as i16),
            None => None::<i16>,
        },
{
    match left {
        Some(l) => Some(abs_i16(l)),
        None => None,
    }
}

pub fn abs_i32N(left: Option<i32>) -> (r: Option<i32>)
    requires
        left != Some(i32::MIN),
    ensures
        r == match left {
            Some(l) => Some((abs(l as int)) as i32),
            None => None::<i32>,
        },
{
    match left {
        Some(l) => Some(abs_i32(l)),
        None => None,
    }
}

pub fn abs_i64N(left: Option<i64>) -> (r: Option<i64>)
    requires
        left != Some(i64::MIN),
    ensures
        r == match left {
            Some(l) => Some((abs(l as int)) as i64),
            None => None::<i64>,
        },
{
    match left {
        Some(l) => Some(abs_i64(l)),
        None => None,
    }
}

/// IS TRUE and relatives: two-valued tests of a nullable boolean.
pub fn is_true_b_(left: bool) -> (r: bool)
    ensures
        r == left,
{
    left
}

pub fn is_true_bN_(left: Option<bool>) -> (r: bool)
    ensures
        r == (left == Some(true)),
{
    left == Some(true)
}

pub fn is_false_b_(left: bool) -> (r: bool)
    ensures
        r == !left,
{
    !left
}

pub fn is_false_bN_(left: Option<bool>) -> (r: bool)
    ensures
        r == (left == Some(false)),
{
    left == Some(false)
}

pub fn is_not_true_b_(left: bool) -> (r: bool)
    ensures
        r == !left,
{
    !left
}

pub fn is_not_true_bN_(left: Option<bool>) -> (r: bool)
    ensures
        r == (left != Some(true)),
{
    match left {
        Some(true) => false,
        Some(false) => true,
        _ => true,
    }
}

pub fn is_not_false_b_(left: bool) -> (r: bool)
    ensures
        r == left,
{
    left
}

pub fn is_not_false_bN_(left: Option<bool>) -> (r: bool)
    ensures
        r == (left != Some(false)),
{
    match left {
        Some(true) => true,
        Some(false) => false,
        _ => true,
    }
}

/// IS DISTINCT FROM: like inequality, but null is not distinct from null.
pub fn is_distinct__<T: Eq>(left: T, right: T) -> (r: bool)
    ensures
        T::obeys_eq_spec() ==> r == !left.eq_spec(&right),
{
    left != right
}

pub fn is_distinct_N_N<T: Eq>(left: Option<T>, right: Option<T>) -> (r: bool)
    ensures
        T::obeys_eq_spec() ==> r == match (left, right) {
            (Some(a), Some(b)) => !a.eq_spec(&b),
            (None, None) => false,
            _ => true,
        },
{
    match (left, right) {
        (Some(a), Some(b)) => a != b,
        (None, None) => false,
        _ => true,
    }
}

pub fn is_distinct__N<T: Eq>(left: T, right: Option<T>) -> (r: bool)
    ensures
        T::obeys_eq_spec() ==> r == match right {
            Some(b) => !left.eq_spec(&b),
            None => true,
        },
{
    match right {
        Some(b) => left != b,
        None => true,
    }
}

pub fn is_distinct_N_<T: Eq>(left: Option<T>, right: T) -> (r: bool)
    ensures
        T::obeys_eq_spec() ==> r == match left {
            Some(a) => !a.eq_spec(&right),
            None => true,
        },
{
    match left {
        Some(a) => a != right,
        None => true,
    }
}

/// Pushes `weight` copies of a value; the run-time form of a positive
/// multiset multiplicity.
pub fn weighted_push<T: Clone>(vec: &mut Vec<T>, value: &T, weight: i64)
    requires
        weight >= 0,
        old(vec)@.len() + weight <= usize::MAX,
    ensures
        final(vec)@.len() == old(vec)@.len() + weight,
        forall|k: int| 0 <= k < old(vec)@.len() ==> final(vec)@[k] == old(vec)@[k],
        forall|k: int|
            old(vec)@.len() <= k < final(vec)@.len() ==> cloned(*value, #[trigger] final(vec)@[k]),
{
    let mut w: i64 = weight;
    while w > 0
        invariant
            0 <= w <= weight,
            vec@.len() == old(vec)@.len() + weight - w,
            forall|k: int| 0 <= k < old(vec)@.len() ==> vec@[k] == old(vec)@[k],
            forall|k: int| old(vec)@.len() <= k < vec@.len() ==> cloned(*value, #[trigger] vec@[k]),
        decreases w,
    {
        vec.push(value.clone());
        w = w - 1;
    }
}

pub fn times_ShortInterval_i64(left: ShortInterval, right: i64) -> (r: ShortInterval)
    requires
        i64::MIN <= left.milliseconds * right <= i64::MAX,
    ensures
        r.milliseconds == left.milliseconds * right,
{
    ShortInterval { milliseconds: left.milliseconds * right }
}

pub fn times_ShortIntervalN_i64(left: Option<ShortInterval>, right: i64) -> (r: Option<
    ShortInterval,
>)
    requires
        left matches Some(l) ==> i64::MIN <= l.milliseconds * right <= i64::MAX,
    ensures
        r == match left {
            Some(l) => Some(ShortInterval { milliseconds: (l.milliseconds * right) as i64 }),
            None => None::<ShortInterval>,
        },
{
    match left {
        Some(l) => Some(times_ShortInterval_i64(l, right)),
        None => None,
    }
}

pub fn times_ShortInterval_i64N(left: ShortInterval, right: Option<i64>) -> (r: Option<
    ShortInterval,
>)
    requires
        right matches Some(x) ==> i64::MIN <= left.milliseconds * x <= i64::MAX,
    ensures
        r == match right {
            Some(x) => Some(ShortInterval { milliseconds: (left.milliseconds * x) as i64 }),
            None => None::<ShortInterval>,
        },
{
    match right {
        Some(x) => Some(times_ShortInterval_i64(left, x)),
        None => None,
    }
}

pub fn times_ShortIntervalN_i64N(left: Option<ShortInterval>, right: Option<i64>) -> (r: Option<
    ShortInterval,
>)
    requires
        left matches Some(l) ==> right matches Some(x) ==> i64::MIN <= l.milliseconds * x
            <= i64::MAX,
    ensures
        r == match (left, right) {
            (Some(l), Some(x)) => Some(
                ShortInterval { milliseconds: (l.milliseconds * x) as i64 },
            ),
            _ => None::<ShortInterval>,
        },
{
    match (left, right) {
        (Some(l), Some(x)) => Some(times_ShortInterval_i64(l, x)),
        _ => None,
    }
}

/// The sole element of a one-element array, if the array has exactly one.
pub fn element<T: Copy>(array: Vec<T>) -> (r: Option<T>)
    ensures
        r == if array@.len() == 1 {
            Some(array@[0])
        } else {
            None::<T>
        },
{
    if array.len() == 1 {
        Some(array[0])
    } else {
        None
    }
}

pub fn elementN<T: Copy>(array: Vec<Option<T>>) -> (r: Option<T>)
    ensures
        r == if array@.len() == 1 {
            array@[0]
        } else {
            None::<T>
        },
{
    if array.len() == 1 {
        array[0]
    } else {
        None
    }
}

pub fn plus_u_u(left: usize, right: usize) -> (r: usize)
    requires
        left + right <= usize::MAX,
    ensures
        r == left + right,
{
    left + right
}

/// Combines optional aggregates pointwise; absent operands make the result
/// absent.
pub struct DefaultOptSemigroup<T>(PhantomData<T>);

impl<T: Add<Output = T> + Copy> DefaultOptSemigroup<T> {
    pub fn combine(left: &Option<T>, right: &Option<T>) -> (r: Option<T>)
        requires
            left matches Some(x) ==> right matches Some(y) ==> x.add_req(*y),
        ensures
            T::obeys_add_spec() ==> r == match (left, right) {
                (Some(x), Some(y)) => Some(x.add_spec(*y)),
                _ => None::<T>,
            },
    {
        match (left, right) {
            (None, _) => None,
            (_, None) => None,
            (Some(x), Some(y)) => Some(*x + *y),
        }
    }
}

/// Combines pairs of aggregates componentwise.
pub struct PairSemigroup<T, R, TS, RS>(PhantomData<(T, R, TS, RS)>);

impl<T: Add<Output = T> + Copy, R: Add<Output = R> + Copy, TS, RS> PairSemigroup<T, R, TS, RS> {
    pub fn combine(left: &(T, R), right: &(T, R)) -> (r: (T, R))
        requires
            left.0.add_req(right.0),
            left.1.add_req(right.1),
        ensures
            T::obeys_add_spec() ==> r.0 == left.0.add_spec(right.0),
            R::obeys_add_spec() ==> r.1 == left.1.add_spec(right.1),
    {
        (left.0 + right.0, left.1 + right.1)
    }
}

} // verus!
