//! Consolidation: the canonical, ordered, zero-free view of a weighted
//! batch.
//!
//! Consolidating a batch merges entries with equal rows by adding their
//! weights, drops rows whose total weight is zero, and lists the survivors
//! in strictly ascending canonical order.  The result is pinned down
//! exactly: it is strictly sorted, it carries no zero weights, and every
//! row's total weight equals its total weight in the input.

use vstd::prelude::*;

use crate::literal::{clone_literal, set_view, NullableConstantV, RowLiteral, Weight};
use crate::order::{
    cmp_pair, cmp_row, lemma_pair_lt_trans, lemma_pair_trichotomy, lemma_row_lt_trans,
    lemma_row_trichotomy, pair_lt, row_lt, Cmp,
};

verus! {

/// A weighted batch of row values, mathematically.
pub type SetV = Seq<(Seq<NullableConstantV>, int)>;

/// A weighted batch of key-value row pairs, mathematically.
pub type MapV = Seq<((Seq<NullableConstantV>, Seq<NullableConstantV>), int)>;

/// Total weight of key `m` in batch `s`: the sum of the weights of all
/// entries whose key equals `m`.
pub open spec fn weight_of<K>(s: Seq<(K, int)>, m: K) -> int
    decreases s.len(),
{
    if s.len() == 0 {
        0
    } else {
        weight_of(s.drop_last(), m) + if s.last().0 == m {
            s.last().1
        } else {
            0int
        }
    }
}

/// Rows appear in strictly ascending canonical order (hence at most once).
pub open spec fn set_sorted(s: SetV) -> bool {
    forall|i: int, j: int| 0 <= i < j < s.len() ==> row_lt(s[i].0, s[j].0)
}

/// Every row's total weight fits a [`Weight`]; the machine limit under
/// which consolidation can represent its sums.
pub open spec fn set_weights_fit(s: SetV) -> bool {
    forall|m: Seq<NullableConstantV>| i64::MIN <= #[trigger] weight_of(s, m) <= i64::MAX
}

/// Weights add across concatenation.
pub proof fn lemma_weight_concat<K>(s1: Seq<(K, int)>, s2: Seq<(K, int)>, m: K)
    ensures
        weight_of(s1 + s2, m) == weight_of(s1, m) + weight_of(s2, m),
    decreases s2.len(),
{
    if s2.len() == 0 {
        assert(s1 + s2 =~= s1);
    } else {
        lemma_weight_concat(s1, s2.drop_last(), m);
        assert((s1 + s2).drop_last() =~= s1 + s2.drop_last());
        assert((s1 + s2).last() == s2.last());
    }
}

/// The weight contributed by a one-entry batch.
proof fn lemma_weight_singleton<K>(e: (K, int), m: K)
    ensures
        weight_of(seq![e], m) == if e.0 == m {
            e.1
        } else {
            0int
        },
{
    assert(seq![e].drop_last() =~= Seq::<(K, int)>::empty());
    assert(weight_of(Seq::<(K, int)>::empty(), m) == 0);
    assert(seq![e].len() == 1);
    assert(seq![e].last() == e);
    assert(weight_of(seq![e], m) == weight_of(seq![e].drop_last(), m) + if seq![e].last().0 == m {
        seq![e].last().1
    } else {
        0int
    });
}

/// Inserting one entry adds exactly its contribution.
proof fn lemma_weight_insert<K>(s: Seq<(K, int)>, j: int, e: (K, int), m: K)
    requires
        0 <= j <= s.len(),
    ensures
        weight_of(s.insert(j, e), m) == weight_of(s, m) + if e.0 == m {
            e.1
        } else {
            0int
        },
{
    let pre = s.subrange(0, j);
    let post = s.subrange(j, s.len() as int);
    assert(s.insert(j, e) =~= pre + (seq![e] + post));
    assert(s =~= pre + post);
    lemma_weight_concat(pre, seq![e] + post, m);
    lemma_weight_concat(seq![e], post, m);
    lemma_weight_concat(pre, post, m);
    lemma_weight_singleton(e, m);
}

/// Replacing one entry swaps its contribution.
proof fn lemma_weight_update<K>(s: Seq<(K, int)>, j: int, e: (K, int), m: K)
    requires
        0 <= j < s.len(),
    ensures
        weight_of(s.update(j, e), m) == weight_of(s, m) - (if s[j].0 == m {
            s[j].1
        } else {
            0int
        }) + (if e.0 == m {
            e.1
        } else {
            0int
        }),
{
    let pre = s.subrange(0, j);
    let post = s.subrange(j + 1, s.len() as int);
    assert(s.update(j, e) =~= pre + (seq![e] + post));
    assert(s =~= pre + (seq![s[j]] + post));
    lemma_weight_concat(pre, seq![e] + post, m);
    lemma_weight_concat(seq![e], post, m);
    lemma_weight_concat(pre, seq![s[j]] + post, m);
    lemma_weight_concat(seq![s[j]], post, m);
    lemma_weight_singleton(e, m);
    lemma_weight_singleton(s[j], m);
}

/// In a strictly sorted batch the entry holding row `m`, if any, carries
/// the row's whole weight.
proof fn lemma_weight_sorted_unique(s: SetV, m: Seq<NullableConstantV>)
    requires
        set_sorted(s),
    ensures
        forall|j: int| 0 <= j < s.len() && s[j].0 == m ==> weight_of(s, m) == s[j].1,
        (forall|j: int| 0 <= j < s.len() ==> s[j].0 != m) ==> weight_of(s, m) == 0,
    decreases s.len(),
{
    if s.len() > 0 {
        assert(set_sorted(s.drop_last()));
        lemma_weight_sorted_unique(s.drop_last(), m);
        if s.last().0 == m {
            assert forall|j: int| 0 <= j < s.len() - 1 implies s[j].0 != m by {
                assert(row_lt(s[j].0, s.last().0));
                lemma_row_trichotomy(s[j].0, s.last().0);
            }
        }
        assert forall|j: int|
            0 <= j < s.len() && s[j].0 == m implies weight_of(s, m) == s[j].1 by {
            if j < s.len() - 1 {
                assert(s.drop_last()[j] == s[j]);
                assert(row_lt(s[j].0, s.last().0));
                lemma_row_trichotomy(s[j].0, s.last().0);
            }
        }
    }
}

/// The working form of a batch under construction, with wide weights so
/// that partial sums never overflow.
pub open spec fn work_view(s: Seq<(RowLiteral, i128)>) -> SetV {
    s.map_values(|e: (RowLiteral, i128)| (e.0@, e.1 as int))
}

/// Index of the first entry in `work` whose row is not below `lit`.
fn find_slot(work: &Vec<(RowLiteral, i128)>, lit: &RowLiteral) -> (j: usize)
    ensures
        j <= work@.len(),
        forall|k: int| 0 <= k < j ==> row_lt(#[trigger] work@[k].0@, lit@),
        j < work@.len() ==> !row_lt(work@[j as int].0@, lit@),
{
    let n = work.len();
    let mut j: usize = 0;
    while j < n
        invariant
            j <= n,
            n == work@.len(),
            forall|k: int| 0 <= k < j ==> row_lt(#[trigger] work@[k].0@, lit@),
        decreases n - j,
    {
        match cmp_row(&work[j].0, lit) {
            Cmp::Lt => {
                j = j + 1;
            },
            _ => {
                return j;
            },
        }
    }
    j
}

/// Merges a batch into strictly sorted working form; every row's total
/// weight is preserved exactly.
fn consolidate_set_work(rows: &Vec<(RowLiteral, Weight)>) -> (out: Vec<(RowLiteral, i128)>)
    ensures
        set_sorted(work_view(out@)),
        forall|m: Seq<NullableConstantV>| #[trigger] weight_of(work_view(out@), m) == weight_of(
            set_view(rows@),
            m,
        ),
{
    let n = rows.len();
    let mut out: Vec<(RowLiteral, i128)> = Vec::new();
    let mut i: usize = 0;
    proof {
        assert(set_view(rows@.subrange(0, 0)) =~= Seq::<(Seq<NullableConstantV>, int)>::empty());
        assert(work_view(out@) =~= Seq::<(Seq<NullableConstantV>, int)>::empty());
    }
    while i < n
        invariant
            i <= n,
            n == rows@.len(),
            set_sorted(work_view(out@)),
            forall|m: Seq<NullableConstantV>| #[trigger] weight_of(work_view(out@), m)
                == weight_of(set_view(rows@.subrange(0, i as int)), m),
            forall|k: int| 0 <= k < out@.len() ==> (i64::MIN as int) * (i as int)
                <= (#[trigger] out@[k].1 as int) <= (i64::MAX as int) * (i as int),
        decreases n - i,
    {
        let lit = &rows[i].0;
        let w = rows[i].1;
        let ghost pre_view = work_view(out@);
        let ghost prefix = set_view(rows@.subrange(0, i as int));
        let ghost prefix1 = set_view(rows@.subrange(0, i as int + 1));
        proof {
            assert(rows@.subrange(0, i as int + 1) =~= rows@.subrange(0, i as int).push(rows@[i as int]));
            assert(prefix1 =~= prefix + seq![(lit@, w as int)]);
            assert forall|m: Seq<NullableConstantV>| #[trigger] weight_of(prefix1, m) == weight_of(
                prefix,
                m,
            ) + (if lit@ == m {
                w as int
            } else {
                0int
            }) by {
                lemma_weight_concat(prefix, seq![(lit@, w as int)], m);
                lemma_weight_singleton((lit@, w as int), m);
            }
        }
        let j = find_slot(&out, lit);
        let merge = if j < out.len() {
            match cmp_row(&out[j].0, lit) {
                Cmp::Eq => true,
                _ => false,
            }
        } else {
            false
        };
        if merge {
            let acc = out[j].1;
            proof {
                assert(pre_view[j as int].1 == acc as int);
                vstd::arithmetic::mul::lemma_mul_inequality(
                    i as int + 1,
                    0x1_0000_0000_0000_0000,
                    i64::MAX as int,
                );
                vstd::arithmetic::mul::lemma_mul_inequality(
                    i as int + 1,
                    0x1_0000_0000_0000_0000,
                    -(i64::MIN as int),
                );
                assert((i64::MIN as int) * (i as int + 1) == (i64::MIN as int) * (i as int) + (
                i64::MIN as int));
                assert((i64::MAX as int) * (i as int + 1) == (i64::MAX as int) * (i as int) + (
                i64::MAX as int));
            }
            let merged: i128 = acc + (w as i128);
            let prev = out.remove(j);
            out.insert(j, (prev.0, merged));
            proof {
                let post_view = work_view(out@);
                assert(post_view =~= pre_view.update(j as int, (lit@, acc as int + w as int)));
                assert forall|m: Seq<NullableConstantV>| #[trigger] weight_of(post_view, m)
                    == weight_of(prefix1, m) by {
                    lemma_weight_update(pre_view, j as int, (lit@, acc as int + w as int), m);
                }
                // Keys are untouched, so order is untouched.
                assert(forall|k: int|
                    0 <= k < post_view.len() ==> (#[trigger] post_view[k]).0 == pre_view[k].0);
                assert forall|p: int, q: int|
                    0 <= p < q < post_view.len() implies row_lt(
                    post_view[p].0,
                    post_view[q].0,
                ) by {
                    assert(row_lt(pre_view[p].0, pre_view[q].0));
                }
            }
        } else {
            let lit2 = clone_literal(lit);
            out.insert(j, (lit2, w as i128));
            proof {
                let post_view = work_view(out@);
                assert(post_view =~= pre_view.insert(j as int, (lit@, w as int)));
                assert forall|m: Seq<NullableConstantV>| #[trigger] weight_of(post_view, m)
                    == weight_of(prefix1, m) by {
                    lemma_weight_insert(pre_view, j as int, (lit@, w as int), m);
                }
                // The new entry is strictly between its neighbours.
                assert forall|p: int, q: int|
                    0 <= p < q < post_view.len() implies row_lt(
                    post_view[p].0,
                    post_view[q].0,
                ) by {
                    if q == j {
                        assert(post_view[p] == pre_view[p]);
                        assert(row_lt(pre_view[p].0, lit@));
                    } else if p == j {
                        assert(post_view[q] == pre_view[q - 1]);
                        assert(!row_lt(pre_view[j as int].0, lit@));
                        lemma_row_trichotomy(pre_view[j as int].0, lit@);
                        assert(row_lt(lit@, pre_view[j as int].0));
                        if q - 1 > j {
                            lemma_row_lt_trans(
                                lit@,
                                pre_view[j as int].0,
                                pre_view[q - 1].0,
                            );
                        }
                    } else if p < j && q > j {
                        assert(post_view[p] == pre_view[p]);
                        assert(post_view[q] == pre_view[q - 1]);
                        if q - 1 == p {
                            assert(row_lt(post_view[p].0, lit@));
                            assert(!row_lt(pre_view[j as int].0, lit@));
                            lemma_row_trichotomy(pre_view[j as int].0, lit@);
                            assert(row_lt(lit@, post_view[q].0));
                            lemma_row_lt_trans(post_view[p].0, lit@, post_view[q].0);
                        }
                    } else if q < j {
                        assert(post_view[p] == pre_view[p]);
                        assert(post_view[q] == pre_view[q]);
                    } else {
                        assert(j < p);
                        assert(post_view[p] == pre_view[p - 1]);
                        assert(post_view[q] == pre_view[q - 1]);
                    }
                }
            }
        }
        proof {
            assert forall|k: int|
                0 <= k < out@.len() implies (i64::MIN as int) * (i as int + 1) <= (
            #[trigger] out@[k].1 as int) <= (i64::MAX as int) * (i as int + 1) by {
                assert((i64::MIN as int) * (i as int + 1) == (i64::MIN as int) * (i as int) + (
                i64::MIN as int));
                assert((i64::MAX as int) * (i as int + 1) == (i64::MAX as int) * (i as int) + (
                i64::MAX as int));
            }
        }
        i = i + 1;
        proof {
            assert(rows@.subrange(0, i as int) == rows@.subrange(0, i as int));
        }
    }
    proof {
        assert(rows@.subrange(0, n as int) =~= rows@);
    }
    out
}

/// Consolidates a weighted batch of rows: equal rows merge by adding
/// weights, rows whose total weight is zero vanish, and the survivors come
/// out in strictly ascending canonical order.
///
/// Requires only the machine limit that every row's total weight fits a
/// [`Weight`].
pub fn consolidate_set(rows: &Vec<(RowLiteral, Weight)>) -> (out: Vec<(RowLiteral, Weight)>)
    requires
        set_weights_fit(set_view(rows@)),
    ensures
        set_sorted(set_view(out@)),
        forall|m: Seq<NullableConstantV>| #[trigger] weight_of(set_view(out@), m) == weight_of(
            set_view(rows@),
            m,
        ),
        forall|k: int| 0 <= k < out@.len() ==> (#[trigger] out@[k].1) != 0,
{
    let work = consolidate_set_work(rows);
    let n = work.len();
    let mut out: Vec<(RowLiteral, Weight)> = Vec::new();
    let mut i: usize = 0;
    proof {
        assert(set_view(out@) =~= Seq::<(Seq<NullableConstantV>, int)>::empty());
        assert(work_view(work@.subrange(0, 0)) =~= Seq::<(Seq<NullableConstantV>, int)>::empty());
        assert forall|m: Seq<NullableConstantV>| #[trigger] weight_of(
            work_view(work@.subrange(0, 0)),
            m,
        ) == 0 by {}
    }
    while i < n
        invariant
            i <= n,
            n == work@.len(),
            set_sorted(work_view(work@)),
            set_weights_fit(set_view(rows@)),
            forall|m: Seq<NullableConstantV>| #[trigger] weight_of(work_view(work@), m)
                == weight_of(set_view(rows@), m),
            forall|m: Seq<NullableConstantV>| #[trigger] weight_of(set_view(out@), m) == weight_of(
                work_view(work@.subrange(0, i as int)),
                m,
            ),
            forall|k: int| 0 <= k < out@.len() ==> (#[trigger] out@[k].1) != 0,
            // Entries of `out` are entries of the sorted working prefix.
            forall|k: int|
                0 <= k < out@.len() ==> exists|p: int|
                    0 <= p < i && (#[trigger] set_view(out@)[k]).0 == work_view(work@)[p].0,
            set_sorted(set_view(out@)),
        decreases n - i,
    {
        let ghost pre_out = set_view(out@);
        let ghost wprefix = work_view(work@.subrange(0, i as int));
        let ghost wprefix1 = work_view(work@.subrange(0, i as int + 1));
        let lit = &work[i].0;
        let wide = work[i].1;
        proof {
            lemma_weight_sorted_unique(work_view(work@), lit@);
            assert(work_view(work@)[i as int].0 == lit@);
            assert(weight_of(work_view(work@), lit@) == wide as int);
            assert(weight_of(set_view(rows@), lit@) == wide as int);
            assert(i64::MIN <= wide <= i64::MAX);
            assert(wprefix1 =~= wprefix + seq![(lit@, wide as int)]);
            assert forall|m: Seq<NullableConstantV>| #[trigger] weight_of(wprefix1, m)
                == weight_of(wprefix, m) + (if lit@ == m {
                wide as int
            } else {
                0int
            }) by {
                lemma_weight_concat(wprefix, seq![(lit@, wide as int)], m);
                lemma_weight_singleton((lit@, wide as int), m);
            }
        }
        if wide != 0 {
            let litc = clone_literal(lit);
            let narrow: Weight = wide as i64;
            out.push((litc, narrow));
            proof {
                assert(set_view(out@) =~= pre_out.push((lit@, wide as int)));
                assert forall|m: Seq<NullableConstantV>| #[trigger] weight_of(set_view(out@), m)
                    == weight_of(pre_out, m) + (if lit@ == m {
                    wide as int
                } else {
                    0int
                }) by {
                    assert(set_view(out@) =~= pre_out + seq![(lit@, wide as int)]);
                    lemma_weight_concat(pre_out, seq![(lit@, wide as int)], m);
                    lemma_weight_singleton((lit@, wide as int), m);
                }
                assert forall|p: int, q: int|
                    0 <= p < q < set_view(out@).len() implies row_lt(
                    set_view(out@)[p].0,
                    set_view(out@)[q].0,
                ) by {
                    if q == set_view(out@).len() - 1 {
                        let ep = set_view(out@)[p];
                        assert(exists|t: int|
                            0 <= t < i && ep.0 == work_view(work@)[t].0);
                        let t = choose|t: int| 0 <= t < i && ep.0 == work_view(work@)[t].0;
                        assert(row_lt(work_view(work@)[t].0, work_view(work@)[i as int].0));
                    }
                }
            }
        }
        i = i + 1;
        proof {
            assert forall|k: int|
                0 <= k < out@.len() implies exists|p: int|
                    0 <= p < i && (#[trigger] set_view(out@)[k]).0 == work_view(work@)[p].0 by {
                if k < pre_out.len() {
                    let t = choose|t: int|
                        0 <= t < i - 1 && pre_out[k].0 == work_view(work@)[t].0;
                    assert(set_view(out@)[k] == pre_out[k]);
                    assert(0 <= t < i && set_view(out@)[k].0 == work_view(work@)[t].0);
                } else {
                    assert(set_view(out@)[k].0 == work_view(work@)[i - 1].0);
                }
            }
        }
    }
    proof {
        assert(work@.subrange(0, n as int) =~= work@);
    }
    out
}

} // verus!

verus! {

/// Key-value pairs appear in strictly ascending `(key, value)` order.
pub open spec fn map_sorted(s: MapV) -> bool {
    forall|i: int, j: int| 0 <= i < j < s.len() ==> pair_lt(s[i].0, s[j].0)
}

/// Every pair's total weight fits a [`Weight`].
pub open spec fn map_weights_fit(s: MapV) -> bool {
    forall|m: (Seq<NullableConstantV>, Seq<NullableConstantV>)|
        i64::MIN <= #[trigger] weight_of(s, m) <= i64::MAX
}

/// In a strictly sorted pair batch the entry holding pair `m`, if any,
/// carries the pair's whole weight.
proof fn lemma_weight_sorted_unique_pair(s: MapV, m: (Seq<NullableConstantV>, Seq<NullableConstantV>))
    requires
        map_sorted(s),
    ensures
        forall|j: int| 0 <= j < s.len() && s[j].0 == m ==> weight_of(s, m) == s[j].1,
        (forall|j: int| 0 <= j < s.len() ==> s[j].0 != m) ==> weight_of(s, m) == 0,
    decreases s.len(),
{
    if s.len() > 0 {
        assert(map_sorted(s.drop_last()));
        lemma_weight_sorted_unique_pair(s.drop_last(), m);
        if s.last().0 == m {
            assert forall|j: int| 0 <= j < s.len() - 1 implies s[j].0 != m by {
                assert(pair_lt(s[j].0, s.last().0));
                lemma_pair_trichotomy(s[j].0, s.last().0);
            }
        }
        assert forall|j: int|
            0 <= j < s.len() && s[j].0 == m implies weight_of(s, m) == s[j].1 by {
            if j < s.len() - 1 {
                assert(s.drop_last()[j] == s[j]);
                assert(pair_lt(s[j].0, s.last().0));
                lemma_pair_trichotomy(s[j].0, s.last().0);
            }
        }
    }
}

/// The working form of a pair batch under construction.
pub open spec fn map_work_view(s: Seq<(RowLiteral, RowLiteral, i128)>) -> MapV {
    s.map_values(|e: (RowLiteral, RowLiteral, i128)| ((e.0@, e.1@), e.2 as int))
}

/// The mathematical value of a pair batch.
pub open spec fn map_pairs_view(rows: Seq<(RowLiteral, RowLiteral, Weight)>) -> MapV {
    rows.map_values(|e: (RowLiteral, RowLiteral, Weight)| ((e.0@, e.1@), e.2 as int))
}

/// Index of the first entry in `work` whose pair is not below `(k, v)`.
fn find_slot_pair(work: &Vec<(RowLiteral, RowLiteral, i128)>, k: &RowLiteral, v: &RowLiteral) -> (j:
    usize)
    ensures
        j <= work@.len(),
        forall|p: int| 0 <= p < j ==> pair_lt(((#[trigger] work@[p]).0@, work@[p].1@), (k@, v@)),
        j < work@.len() ==> !pair_lt((work@[j as int].0@, work@[j as int].1@), (k@, v@)),
{
    let n = work.len();
    let mut j: usize = 0;
    while j < n
        invariant
            j <= n,
            n == work@.len(),
            forall|p: int| 0 <= p < j ==> pair_lt(((#[trigger] work@[p]).0@, work@[p].1@), (k@, v@)),
        decreases n - j,
    {
        match cmp_pair(&work[j].0, &work[j].1, k, v) {
            Cmp::Lt => {
                j = j + 1;
            },
            _ => {
                return j;
            },
        }
    }
    j
}

} // verus!

verus! {

/// Merges a pair batch into strictly sorted working form; every pair's
/// total weight is preserved exactly.
fn consolidate_map_work(rows: &Vec<(RowLiteral, RowLiteral, Weight)>) -> (out: Vec<
    (RowLiteral, RowLiteral, i128),
>)
    ensures
        map_sorted(map_work_view(out@)),
        forall|m: (Seq<NullableConstantV>, Seq<NullableConstantV>)| #[trigger] weight_of(
            map_work_view(out@),
            m,
        ) == weight_of(map_pairs_view(rows@), m),
{
    let n = rows.len();
    let mut out: Vec<(RowLiteral, RowLiteral, i128)> = Vec::new();
    let mut i: usize = 0;
    proof {
        assert(map_pairs_view(rows@.subrange(0, 0)) =~= Seq::<(
            (Seq<NullableConstantV>, Seq<NullableConstantV>),
            int,
        )>::empty());
        assert(map_work_view(out@) =~= Seq::<(
            (Seq<NullableConstantV>, Seq<NullableConstantV>),
            int,
        )>::empty());
    }
    while i < n
        invariant
            i <= n,
            n == rows@.len(),
            map_sorted(map_work_view(out@)),
            forall|m: (Seq<NullableConstantV>, Seq<NullableConstantV>)| #[trigger] weight_of(
                map_work_view(out@),
                m,
            ) == weight_of(map_pairs_view(rows@.subrange(0, i as int)), m),
            forall|k: int| 0 <= k < out@.len() ==> (i64::MIN as int) * (i as int)
                <= (#[trigger] out@[k].2 as int) <= (i64::MAX as int) * (i as int),
        decreases n - i,
    {
        let key = &rows[i].0;
        let val = &rows[i].1;
        let w = rows[i].2;
        let ghost pre_view = map_work_view(out@);
        let ghost prefix = map_pairs_view(rows@.subrange(0, i as int));
        let ghost prefix1 = map_pairs_view(rows@.subrange(0, i as int + 1));
        proof {
            assert(rows@.subrange(0, i as int + 1) =~= rows@.subrange(0, i as int).push(rows@[i as int]));
            assert(prefix1 =~= prefix + seq![(((key@, val@)), w as int)]);
            assert forall|m: (Seq<NullableConstantV>, Seq<NullableConstantV>)| #[trigger]
                weight_of(prefix1, m) == weight_of(prefix, m) + (if (key@, val@) == m {
                w as int
            } else {
                0int
            }) by {
                lemma_weight_concat(prefix, seq![(((key@, val@)), w as int)], m);
                lemma_weight_singleton((((key@, val@)), w as int), m);
            }
        }
        let j = find_slot_pair(&out, key, val);
        let merge = if j < out.len() {
            match cmp_pair(&out[j].0, &out[j].1, key, val) {
                Cmp::Eq => true,
                _ => false,
            }
        } else {
            false
        };
        if merge {
            let acc = out[j].2;
            proof {
                assert(pre_view[j as int].1 == acc as int);
                vstd::arithmetic::mul::lemma_mul_inequality(
                    i as int + 1,
                    0x1_0000_0000_0000_0000,
                    i64::MAX as int,
                );
                vstd::arithmetic::mul::lemma_mul_inequality(
                    i as int + 1,
                    0x1_0000_0000_0000_0000,
                    -(i64::MIN as int),
                );
                assert((i64::MIN as int) * (i as int + 1) == (i64::MIN as int) * (i as int) + (
                i64::MIN as int));
                assert((i64::MAX as int) * (i as int + 1) == (i64::MAX as int) * (i as int) + (
                i64::MAX as int));
            }
            let merged: i128 = acc + (w as i128);
            let prev = out.remove(j);
            out.insert(j, (prev.0, prev.1, merged));
            proof {
                let post_view = map_work_view(out@);
                assert(post_view =~= pre_view.update(
                    j as int,
                    ((key@, val@), acc as int + w as int),
                ));
                assert forall|m: (Seq<NullableConstantV>, Seq<NullableConstantV>)| #[trigger]
                    weight_of(post_view, m) == weight_of(prefix1, m) by {
                    lemma_weight_update(pre_view, j as int, ((key@, val@), acc as int + w as int), m);
                }
                assert(forall|k: int|
                    0 <= k < post_view.len() ==> (#[trigger] post_view[k]).0 == pre_view[k].0);
                assert forall|p: int, q: int|
                    0 <= p < q < post_view.len() implies pair_lt(
                    post_view[p].0,
                    post_view[q].0,
                ) by {
                    assert(pair_lt(pre_view[p].0, pre_view[q].0));
                }
            }
        } else {
            let key2 = clone_literal(key);
            let val2 = clone_literal(val);
            out.insert(j, (key2, val2, w as i128));
            proof {
                let post_view = map_work_view(out@);
                assert(post_view =~= pre_view.insert(j as int, ((key@, val@), w as int)));
                assert forall|m: (Seq<NullableConstantV>, Seq<NullableConstantV>)| #[trigger]
                    weight_of(post_view, m) == weight_of(prefix1, m) by {
                    lemma_weight_insert(pre_view, j as int, ((key@, val@), w as int), m);
                }
                assert forall|p: int, q: int|
                    0 <= p < q < post_view.len() implies pair_lt(
                    post_view[p].0,
                    post_view[q].0,
                ) by {
                    if q == j {
                        assert(post_view[p] == pre_view[p]);
                        assert(pair_lt(pre_view[p].0, (key@, val@)));
                    } else if p == j {
                        assert(post_view[q] == pre_view[q - 1]);
                        assert(!pair_lt(pre_view[j as int].0, (key@, val@)));
                        lemma_pair_trichotomy(pre_view[j as int].0, (key@, val@));
                        assert(pair_lt((key@, val@), pre_view[j as int].0));
                        if q - 1 > j {
                            lemma_pair_lt_trans(
                                (key@, val@),
                                pre_view[j as int].0,
                                pre_view[q - 1].0,
                            );
                        }
                    } else if p < j && q > j {
                        assert(post_view[p] == pre_view[p]);
                        assert(post_view[q] == pre_view[q - 1]);
                        if q - 1 == p {
                            assert(pair_lt(post_view[p].0, (key@, val@)));
                            assert(!pair_lt(pre_view[j as int].0, (key@, val@)));
                            lemma_pair_trichotomy(pre_view[j as int].0, (key@, val@));
                            assert(pair_lt((key@, val@), post_view[q].0));
                            lemma_pair_lt_trans(post_view[p].0, (key@, val@), post_view[q].0);
                        }
                    } else if q < j {
                        assert(post_view[p] == pre_view[p]);
                        assert(post_view[q] == pre_view[q]);
                    } else {
                        assert(j < p);
                        assert(post_view[p] == pre_view[p - 1]);
                        assert(post_view[q] == pre_view[q - 1]);
                    }
                }
            }
        }
        proof {
            assert forall|k: int|
                0 <= k < out@.len() implies (i64::MIN as int) * (i as int + 1) <= (
            #[trigger] out@[k].2 as int) <= (i64::MAX as int) * (i as int + 1) by {
                assert((i64::MIN as int) * (i as int + 1) == (i64::MIN as int) * (i as int) + (
                i64::MIN as int));
                assert((i64::MAX as int) * (i as int + 1) == (i64::MAX as int) * (i as int) + (
                i64::MAX as int));
            }
        }
        i = i + 1;
    }
    proof {
        assert(rows@.subrange(0, n as int) =~= rows@);
    }
    out
}

/// Consolidates a weighted batch of key-value pairs: equal pairs merge by
/// adding weights, pairs whose total weight is zero vanish, and the
/// survivors come out in strictly ascending `(key, value)` order.
pub fn consolidate_map(rows: &Vec<(RowLiteral, RowLiteral, Weight)>) -> (out: Vec<
    (RowLiteral, RowLiteral, Weight),
>)
    requires
        map_weights_fit(map_pairs_view(rows@)),
    ensures
        map_sorted(map_pairs_view(out@)),
        forall|m: (Seq<NullableConstantV>, Seq<NullableConstantV>)| #[trigger] weight_of(
            map_pairs_view(out@),
            m,
        ) == weight_of(map_pairs_view(rows@), m),
        forall|k: int| 0 <= k < out@.len() ==> (#[trigger] out@[k].2) != 0,
{
    let work = consolidate_map_work(rows);
    let n = work.len();
    let mut out: Vec<(RowLiteral, RowLiteral, Weight)> = Vec::new();
    let mut i: usize = 0;
    proof {
        assert(map_pairs_view(out@) =~= Seq::<(
            (Seq<NullableConstantV>, Seq<NullableConstantV>),
            int,
        )>::empty());
        assert(map_work_view(work@.subrange(0, 0)) =~= Seq::<(
            (Seq<NullableConstantV>, Seq<NullableConstantV>),
            int,
        )>::empty());
    }
    while i < n
        invariant
            i <= n,
            n == work@.len(),
            map_sorted(map_work_view(work@)),
            map_weights_fit(map_pairs_view(rows@)),
            forall|m: (Seq<NullableConstantV>, Seq<NullableConstantV>)| #[trigger] weight_of(
                map_work_view(work@),
                m,
            ) == weight_of(map_pairs_view(rows@), m),
            forall|m: (Seq<NullableConstantV>, Seq<NullableConstantV>)| #[trigger] weight_of(
                map_pairs_view(out@),
                m,
            ) == weight_of(map_work_view(work@.subrange(0, i as int)), m),
            forall|k: int| 0 <= k < out@.len() ==> (#[trigger] out@[k].2) != 0,
            forall|k: int|
                0 <= k < out@.len() ==> exists|p: int|
                    0 <= p < i && (#[trigger] map_pairs_view(out@)[k]).0 == map_work_view(
                        work@,
                    )[p].0,
            map_sorted(map_pairs_view(out@)),
        decreases n - i,
    {
        let ghost pre_out = map_pairs_view(out@);
        let ghost wprefix = map_work_view(work@.subrange(0, i as int));
        let ghost wprefix1 = map_work_view(work@.subrange(0, i as int + 1));
        let key = &work[i].0;
        let val = &work[i].1;
        let wide = work[i].2;
        proof {
            lemma_weight_sorted_unique_pair(map_work_view(work@), (key@, val@));
            assert(map_work_view(work@)[i as int].0 == (key@, val@));
            assert(weight_of(map_work_view(work@), (key@, val@)) == wide as int);
            assert(weight_of(map_pairs_view(rows@), (key@, val@)) == wide as int);
            assert(i64::MIN <= wide <= i64::MAX);
            assert(wprefix1 =~= wprefix + seq![(((key@, val@)), wide as int)]);
            assert forall|m: (Seq<NullableConstantV>, Seq<NullableConstantV>)| #[trigger]
                weight_of(wprefix1, m) == weight_of(wprefix, m) + (if (key@, val@) == m {
                wide as int
            } else {
                0int
            }) by {
                lemma_weight_concat(wprefix, seq![(((key@, val@)), wide as int)], m);
                lemma_weight_singleton((((key@, val@)), wide as int), m);
            }
        }
        if wide != 0 {
            let keyc = clone_literal(key);
            let valc = clone_literal(val);
            let narrow: Weight = wide as i64;
            out.push((keyc, valc, narrow));
            proof {
                assert(map_pairs_view(out@) =~= pre_out.push(((key@, val@), wide as int)));
                assert forall|m: (Seq<NullableConstantV>, Seq<NullableConstantV>)| #[trigger]
                    weight_of(map_pairs_view(out@), m) == weight_of(pre_out, m) + (if (
                key@,
                val@,
                ) == m {
                    wide as int
                } else {
                    0int
                }) by {
                    assert(map_pairs_view(out@) =~= pre_out + seq![(((key@, val@)), wide as int)]);
                    lemma_weight_concat(pre_out, seq![(((key@, val@)), wide as int)], m);
                    lemma_weight_singleton((((key@, val@)), wide as int), m);
                }
                assert forall|p: int, q: int|
                    0 <= p < q < map_pairs_view(out@).len() implies pair_lt(
                    map_pairs_view(out@)[p].0,
                    map_pairs_view(out@)[q].0,
                ) by {
                    if q == map_pairs_view(out@).len() - 1 {
                        let ep = map_pairs_view(out@)[p];
                        assert(exists|t: int|
                            0 <= t < i && ep.0 == map_work_view(work@)[t].0);
                        let t = choose|t: int| 0 <= t < i && ep.0 == map_work_view(work@)[t].0;
                        assert(pair_lt(map_work_view(work@)[t].0, map_work_view(work@)[i as int].0));
                    }
                }
            }
        }
        i = i + 1;
        proof {
            assert forall|k: int|
                0 <= k < out@.len() implies exists|p: int|
                    0 <= p < i && (#[trigger] map_pairs_view(out@)[k]).0 == map_work_view(
                        work@,
                    )[p].0 by {
                if k < pre_out.len() {
                    let t = choose|t: int|
                        0 <= t < i - 1 && pre_out[k].0 == map_work_view(work@)[t].0;
                    assert(map_pairs_view(out@)[k] == pre_out[k]);
                    assert(0 <= t < i && map_pairs_view(out@)[k].0 == map_work_view(work@)[t].0);
                } else {
                    assert(map_pairs_view(out@)[k].0 == map_work_view(work@)[i - 1].0);
                }
            }
        }
    }
    proof {
        assert(work@.subrange(0, n as int) =~= work@);
    }
    out
}

} // verus!
