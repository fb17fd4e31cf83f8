use dataflow::interval::ShortInterval;
use dataflow::sqlops::{
    abs_i16, abs_i16N, abs_i32, abs_i32N, abs_i64, abs_i64N, agg_max_N_, agg_max_N_N, agg_max__,
    agg_min_N_, agg_min_N_N, agg_min__, agg_plus_N_, agg_plus_N_N, agg_plus__, agg_plus__N,
    and_b_b, and_b_bN, and_bN_b, and_bN_bN, div_i16N_i16, div_i16N_i16N, div_i16_i16,
    div_i16_i16N, div_i32N_i32, div_i32N_i32N, div_i32_i32, div_i32_i32N, div_i64N_i64,
    div_i64N_i64N, div_i64_i64, div_i64_i64N, element, elementN, indicator, is_distinct_N_,
    is_distinct_N_N, is_distinct__, is_distinct__N, is_false_bN_, is_false_b_, is_not_false_bN_,
    is_not_false_b_, is_not_true_bN_, is_not_true_b_, is_null, is_true_bN_, is_true_b_, or_b_b,
    or_b_bN, or_bN_b, or_bN_bN, plus_u_u, times_ShortInterval_i64, times_ShortInterval_i64N,
    times_ShortIntervalN_i64, times_ShortIntervalN_i64N, weighted_push, wrap_bool,
    DefaultOptSemigroup, PairSemigroup,
};

#[test]
fn boolean_operators() {
    assert_eq!(wrap_bool(Some(true)), true);
    assert_eq!(wrap_bool(Some(false)), false);
    assert_eq!(wrap_bool(None), false);

    assert_eq!(or_b_b(false, true), true);
    assert_eq!(or_bN_b(None, true), Some(true));
    assert_eq!(or_bN_b(None, false), None);
    assert_eq!(or_b_bN(true, None), Some(true));
    assert_eq!(or_b_bN(false, None), None);
    assert_eq!(or_bN_bN(Some(true), None), Some(true));
    assert_eq!(or_bN_bN(None, Some(true)), Some(true));
    assert_eq!(or_bN_bN(Some(false), None), None);
    assert_eq!(or_bN_bN(Some(false), Some(false)), Some(false));

    assert_eq!(and_b_b(true, true), true);
    assert_eq!(and_bN_b(None, false), Some(false));
    assert_eq!(and_bN_b(None, true), None);
    assert_eq!(and_b_bN(false, None), Some(false));
    assert_eq!(and_b_bN(true, None), None);
    assert_eq!(and_bN_bN(Some(false), None), Some(false));
    assert_eq!(and_bN_bN(None, Some(false)), Some(false));
    assert_eq!(and_bN_bN(Some(true), None), None);
    assert_eq!(and_bN_bN(Some(true), Some(true)), Some(true));
}

#[test]
fn null_tests() {
    assert!(is_null::<i64>(None));
    assert!(!is_null(Some(3i64)));
    assert_eq!(indicator::<i64>(None), 0);
    assert_eq!(indicator(Some(3i64)), 1);

    assert_eq!(is_true_b_(true), true);
    assert_eq!(is_true_bN_(Some(true)), true);
    assert_eq!(is_true_bN_(None), false);
    assert_eq!(is_false_b_(true), false);
    assert_eq!(is_false_bN_(Some(false)), true);
    assert_eq!(is_false_bN_(None), false);
    assert_eq!(is_not_true_b_(false), true);
    assert_eq!(is_not_true_bN_(None), true);
    assert_eq!(is_not_true_bN_(Some(true)), false);
    assert_eq!(is_not_false_b_(true), true);
    assert_eq!(is_not_false_bN_(None), true);
    assert_eq!(is_not_false_bN_(Some(false)), false);
}

#[test]
fn aggregates() {
    assert_eq!(agg_max_N_N(Some(3i64), Some(8)), Some(8));
    assert_eq!(agg_max_N_N(None, Some(8i64)), Some(8));
    assert_eq!(agg_max_N_N(Some(3i64), None), Some(3));
    assert_eq!(agg_max_N_N::<i64>(None, None), None);
    assert_eq!(agg_min_N_N(Some(3i64), Some(8)), Some(3));
    assert_eq!(agg_max_N_(None, 5i64), Some(5));
    assert_eq!(agg_max_N_(Some(9i64), 5), Some(9));
    assert_eq!(agg_min_N_(Some(9i64), 5), Some(5));
    assert_eq!(agg_max__(2i64, 7), 7);
    assert_eq!(agg_min__(2i64, 7), 2);

    assert_eq!(agg_plus_N_N(Some(3i64), Some(8)), Some(11));
    assert_eq!(agg_plus_N_N(None, Some(8i64)), Some(8));
    assert_eq!(agg_plus_N_(Some(3i64), 8), Some(11));
    assert_eq!(agg_plus_N_(None, 8i64), Some(8));
    assert_eq!(agg_plus__N(3i64, Some(8)), Some(11));
    assert_eq!(agg_plus__N(3i64, None), Some(3));
    assert_eq!(agg_plus__(3i64, 8), 11);
}

#[test]
fn division_truncates_toward_zero() {
    assert_eq!(div_i64_i64(7, 2), Some(3));
    assert_eq!(div_i64_i64(-7, 2), Some(-3));
    assert_eq!(div_i64_i64(7, -2), Some(-3));
    assert_eq!(div_i64_i64(-7, -2), Some(3));
    assert_eq!(div_i64_i64(7, 0), None);
    assert_eq!(div_i32_i32(100, 10), Some(10));
    assert_eq!(div_i32_i32(i32::MIN, 1), Some(i32::MIN));
    assert_eq!(div_i16_i16(-15, 4), Some(-3));
    assert_eq!(div_i16_i16(5, 0), None);

    assert_eq!(div_i64N_i64(Some(9), 3), Some(3));
    assert_eq!(div_i64N_i64(None, 3), None);
    assert_eq!(div_i64_i64N(9, Some(0)), None);
    assert_eq!(div_i64N_i64N(Some(9), Some(3)), Some(3));
    assert_eq!(div_i64N_i64N(None, Some(3)), None);
    assert_eq!(div_i32N_i32(Some(9), 3), Some(3));
    assert_eq!(div_i32_i32N(9, None), None);
    assert_eq!(div_i32N_i32N(Some(-9), Some(2)), Some(-4));
    assert_eq!(div_i16N_i16(Some(9), 3), Some(3));
    assert_eq!(div_i16_i16N(9, Some(3)), Some(3));
    assert_eq!(div_i16N_i16N(None, None), None);
}

#[test]
fn absolute_values() {
    assert_eq!(abs_i16(-5), 5);
    assert_eq!(abs_i32(-5), 5);
    assert_eq!(abs_i64(-5), 5);
    assert_eq!(abs_i16(5), 5);
    assert_eq!(abs_i16N(Some(-5)), Some(5));
    assert_eq!(abs_i16N(None), None);
    assert_eq!(abs_i32N(Some(-5)), Some(5));
    assert_eq!(abs_i64N(Some(-5)), Some(5));
}

#[test]
fn distinctness() {
    assert_eq!(is_distinct__(1i64, 2), true);
    assert_eq!(is_distinct__(2i64, 2), false);
    assert_eq!(is_distinct_N_N(Some(1i64), Some(2)), true);
    assert_eq!(is_distinct_N_N(Some(2i64), Some(2)), false);
    assert_eq!(is_distinct_N_N::<i64>(None, None), false);
    assert_eq!(is_distinct_N_N(Some(1i64), None), true);
    assert_eq!(is_distinct__N(1i64, None), true);
    assert_eq!(is_distinct__N(1i64, Some(1)), false);
    assert_eq!(is_distinct_N_(None, 1i64), true);
    assert_eq!(is_distinct_N_(Some(1i64), 1), false);
}

#[test]
fn intervals_and_misc() {
    let iv = ShortInterval::new(1000);
    assert_eq!(times_ShortInterval_i64(iv, 3).milliseconds(), 3000);
    assert_eq!(
        times_ShortIntervalN_i64(Some(iv), 3),
        Some(ShortInterval::new(3000))
    );
    assert_eq!(times_ShortIntervalN_i64(None, 3), None);
    assert_eq!(
        times_ShortInterval_i64N(iv, Some(2)),
        Some(ShortInterval::new(2000))
    );
    assert_eq!(times_ShortInterval_i64N(iv, None), None);
    assert_eq!(
        times_ShortIntervalN_i64N(Some(iv), Some(2)),
        Some(ShortInterval::new(2000))
    );

    assert_eq!(element(vec![7i64]), Some(7));
    assert_eq!(element::<i64>(vec![]), None);
    assert_eq!(element(vec![1i64, 2]), None);
    assert_eq!(elementN(vec![Some(7i64)]), Some(7));
    assert_eq!(elementN(vec![None::<i64>]), None);
    assert_eq!(elementN(vec![Some(1i64), Some(2)]), None);

    assert_eq!(plus_u_u(3, 4), 7);

    let mut v = vec![9i64];
    weighted_push(&mut v, &5, 3);
    assert_eq!(v, vec![9, 5, 5, 5]);
    weighted_push(&mut v, &6, 0);
    assert_eq!(v, vec![9, 5, 5, 5]);

    assert_eq!(
        DefaultOptSemigroup::<i64>::combine(&Some(2), &Some(3)),
        Some(5)
    );
    assert_eq!(DefaultOptSemigroup::<i64>::combine(&None, &Some(3)), None);
    assert_eq!(
        PairSemigroup::<i64, i64, (), ()>::combine(&(1, 2), &(10, 20)),
        (11, 22)
    );
}
