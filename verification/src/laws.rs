//! The laws of the circuit, stated once and proved from the contracts.
//!
//! Each lemma pins down what the pipeline contracts promise jointly: what
//! a consolidated output must be for a given ingested multiset, and that a
//! tick observes each datum exactly once.

use vstd::prelude::*;

use crate::circuit::{eval_set, join_one, join_sets, DbspCircuit};
use crate::consolidate::{
    lemma_weight_concat, set_sorted, weight_of, SetV,
};
use crate::graph::{node_output, node_wf, Node};
use crate::literal::{NullableConstantV, StreamLayout};
use crate::order::{lemma_row_trichotomy, row_lt};

verus! {

/// The weight function of a one-entry batch.
proof fn lemma_weight_single(e: (Seq<NullableConstantV>, int), m: Seq<NullableConstantV>)
    ensures
        weight_of(seq![e], m) == if e.0 == m {
            e.1
        } else {
            0int
        },
{
    assert(seq![e].drop_last() =~= Seq::<(Seq<NullableConstantV>, int)>::empty());
    assert(weight_of(Seq::<(Seq<NullableConstantV>, int)>::empty(), m) == 0);
    assert(seq![e].last() == e);
    assert(weight_of(seq![e], m) == weight_of(seq![e].drop_last(), m) + if seq![e].last().0 == m {
        seq![e].last().1
    } else {
        0int
    });
}

/// In a strictly sorted batch, the entry holding row `m` carries the
/// row's whole weight.
proof fn lemma_sorted_entry_weight(s: SetV, j: int)
    requires
        set_sorted(s),
        0 <= j < s.len(),
    ensures
        weight_of(s, s[j].0) == s[j].1,
    decreases s.len(),
{
    if s.len() > 0 {
        assert(set_sorted(s.drop_last()));
        if j == s.len() - 1 {
            assert forall|p: int| 0 <= p < s.len() - 1 implies s.drop_last()[p].0 != s[j].0 by {
                assert(row_lt(s[p].0, s[j].0));
                lemma_row_trichotomy(s[p].0, s[j].0);
            }
            lemma_no_entry_no_weight(s.drop_last(), s[j].0);
        } else {
            lemma_sorted_entry_weight(s.drop_last(), j);
            assert(s.drop_last()[j] == s[j]);
            assert(row_lt(s[j].0, s.last().0));
            lemma_row_trichotomy(s[j].0, s.last().0);
        }
    }
}

/// A row that appears in no entry has weight zero.
proof fn lemma_no_entry_no_weight(s: SetV, m: Seq<NullableConstantV>)
    requires
        forall|p: int| 0 <= p < s.len() ==> (#[trigger] s[p]).0 != m,
    ensures
        weight_of(s, m) == 0,
    decreases s.len(),
{
    if s.len() > 0 {
        lemma_no_entry_no_weight(s.drop_last(), m);
    }
}

/// Literal round-trip: feeding one well-formed literal with weight one
/// through the pipeline and consolidating returns exactly that literal
/// with weight one.  `out` is any batch meeting the consolidation
/// contract for the singleton input.
pub proof fn lemma_literal_round_trip(l: Seq<NullableConstantV>, out: SetV)
    requires
        set_sorted(out),
        forall|j: int| 0 <= j < out.len() ==> (#[trigger] out[j]).1 != 0,
        forall|m: Seq<NullableConstantV>| #[trigger] weight_of(out, m) == weight_of(
            seq![(l, 1int)],
            m,
        ),
    ensures
        out =~= seq![(l, 1int)],
{
    assert forall|m: Seq<NullableConstantV>| #[trigger] weight_of(out, m) == (if l == m {
        1int
    } else {
        0int
    }) by {
        lemma_weight_single((l, 1int), m);
    }
    lemma_consolidated_single(l, 1int, out);
}

/// Weight additivity: two entries of one row in a tick consolidate to a
/// single entry carrying the sum, or to nothing when the sum is zero.
/// `out` is any batch meeting the consolidation contract for the
/// two-entry input.
pub proof fn lemma_weight_additivity(
    l: Seq<NullableConstantV>,
    w1: int,
    w2: int,
    out: SetV,
)
    requires
        set_sorted(out),
        forall|j: int| 0 <= j < out.len() ==> (#[trigger] out[j]).1 != 0,
        forall|m: Seq<NullableConstantV>| #[trigger] weight_of(out, m) == weight_of(
            seq![(l, w1), (l, w2)],
            m,
        ),
    ensures
        w1 + w2 == 0 ==> out =~= Seq::<(Seq<NullableConstantV>, int)>::empty(),
        w1 + w2 != 0 ==> out =~= seq![(l, w1 + w2)],
{
    let pair = seq![(l, w1), (l, w2)];
    assert forall|m: Seq<NullableConstantV>| #[trigger] weight_of(pair, m) == (if l == m {
        w1 + w2
    } else {
        0int
    }) by {
        assert(pair =~= seq![(l, w1)] + seq![(l, w2)]);
        lemma_weight_concat(seq![(l, w1)], seq![(l, w2)], m);
        lemma_weight_single((l, w1), m);
        lemma_weight_single((l, w2), m);
    }
    if w1 + w2 == 0 {
        assert forall|j: int| 0 <= j < out.len() implies (#[trigger] out[j]).1 == 0 by {
            lemma_sorted_entry_weight(out, j);
            assert(weight_of(out, out[j].0) == out[j].1);
        }
        assert(out.len() == 0) by {
            if out.len() > 0 {
                assert(out[0].1 != 0);
                assert(out[0].1 == 0);
            }
        }
        assert(out =~= Seq::<(Seq<NullableConstantV>, int)>::empty());
    } else {
        lemma_consolidated_single(l, w1 + w2, out);
    }
}

/// A consolidated batch whose weight function is `w` at `l` and zero
/// elsewhere is exactly the singleton `[(l, w)]`.
proof fn lemma_consolidated_single(l: Seq<NullableConstantV>, w: int, out: SetV)
    requires
        w != 0,
        set_sorted(out),
        forall|j: int| 0 <= j < out.len() ==> (#[trigger] out[j]).1 != 0,
        forall|m: Seq<NullableConstantV>| #[trigger] weight_of(out, m) == (if l == m {
            w
        } else {
            0int
        }),
    ensures
        out =~= seq![(l, w)],
{
    assert forall|j: int| 0 <= j < out.len() implies (#[trigger] out[j]).0 == l && out[j].1
        == w by {
        lemma_sorted_entry_weight(out, j);
    }
    if out.len() == 0 {
        lemma_no_entry_no_weight(out, l);
        assert(weight_of(out, l) == 0);
        assert(false);
    }
    if out.len() >= 2 {
        assert(row_lt(out[0].0, out[1].0));
        lemma_row_trichotomy(out[0].0, out[1].0);
        assert(false);
    }
    assert(out.len() == 1);
    assert(out =~= seq![(l, w)]);
}

/// Are all input endpoints drained?  This holds right after every step.
pub open spec fn sources_idle(c: DbspCircuit) -> bool {
    forall|k: int|
        0 <= k < c.inputs@.len() ==> (#[trigger] c.inputs@[k]).1.set_pending@.len() == 0
            && c.inputs@[k].1.map_pending@.len() == 0
}

/// A joined batch with an empty side is empty.
proof fn lemma_join_sets_left_empty(b: SetV, lk: int, rk: int)
    ensures
        join_sets(Seq::empty(), b, lk, rk).len() == 0,
{
}

/// Tick isolation: once every source is drained and the first tick has
/// passed, every set node evaluates to the empty delta, so data appended
/// before a step is observed by that step alone.
pub proof fn lemma_tick_isolation(c: DbspCircuit, i: int)
    requires
        c.wf(),
        sources_idle(c),
        c.tick >= 1,
        0 <= i < c.graph.nodes@.len(),
        node_output(c.graph, i) matches StreamLayout::SetOf(_),
    ensures
        eval_set(c, i).len() == 0,
    decreases i,
{
    assert(node_wf(c.graph, i));
    match c.graph.nodes@[i] {
        Node::Source(_) => {
            if exists|k: int| 0 <= k < c.inputs@.len() && (#[trigger] c.inputs@[k]).0 == i {
                let k = choose|k: int|
                    0 <= k < c.inputs@.len() && (#[trigger] c.inputs@[k]).0 == i;
                assert(c.inputs@[k].1.set_pending@.len() == 0);
            }
        },
        Node::ConstantStream { .. } => {},
        Node::Join { left, right, left_key, right_key, .. } => {
            lemma_tick_isolation(c, left as int);
            assert(eval_set(c, left as int) =~= Seq::<(Seq<NullableConstantV>, int)>::empty());
            lemma_join_sets_left_empty(
                eval_set(c, right as int),
                left_key as int,
                right_key as int,
            );
        },
        Node::Sink { input, .. } => {
            lemma_tick_isolation(c, input as int);
        },
    }
}

} // verus!

verus! {

/// The total multiplicity of a batch: the sum of its weights.
pub open spec fn total_weight(s: SetV) -> int
    decreases s.len(),
{
    if s.len() == 0 {
        0
    } else {
        total_weight(s.drop_last()) + s.last().1
    }
}

/// The batch without every entry of one row.
pub open spec fn drop_row(s: SetV, m: Seq<NullableConstantV>) -> SetV
    decreases s.len(),
{
    if s.len() == 0 {
        Seq::empty()
    } else {
        let pre = drop_row(s.drop_last(), m);
        if s.last().0 == m {
            pre
        } else {
            pre.push(s.last())
        }
    }
}

/// Splitting a batch at one row splits its total weight.
proof fn lemma_total_split(s: SetV, m: Seq<NullableConstantV>)
    ensures
        total_weight(s) == weight_of(s, m) + total_weight(drop_row(s, m)),
        drop_row(s, m).len() <= s.len(),
        weight_of(drop_row(s, m), m) == 0,
        forall|m2: Seq<NullableConstantV>|
            m2 != m ==> #[trigger] weight_of(drop_row(s, m), m2) == weight_of(s, m2),
        (exists|j: int| 0 <= j < s.len() && (#[trigger] s[j]).0 == m) ==> drop_row(s, m).len()
            < s.len(),
    decreases s.len(),
{
    if s.len() > 0 {
        lemma_total_split(s.drop_last(), m);
        if s.last().0 != m {
            assert(drop_row(s, m).drop_last() =~= drop_row(s.drop_last(), m));
            assert forall|j: int|
                0 <= j < s.len() && (#[trigger] s[j]).0 == m implies exists|j2: int|
                    0 <= j2 < s.drop_last().len() && (#[trigger] s.drop_last()[j2]).0 == m by {
                assert(s.drop_last()[j] == s[j]);
            }
        }
        assert forall|m2: Seq<NullableConstantV>|
            m2 != m implies #[trigger] weight_of(drop_row(s, m), m2) == weight_of(s, m2) by {
            if s.last().0 != m {
                assert(drop_row(s, m).drop_last() =~= drop_row(s.drop_last(), m));
                assert(drop_row(s, m).last() == s.last());
                assert(weight_of(drop_row(s, m), m2) == weight_of(drop_row(s.drop_last(), m), m2)
                    + if s.last().0 == m2 {
                    s.last().1
                } else {
                    0int
                });
            }
        }
    }
}

/// A batch whose every row weighs nothing has total weight zero.
proof fn lemma_total_of_zero(s: SetV)
    requires
        forall|m: Seq<NullableConstantV>| #[trigger] weight_of(s, m) == 0,
    ensures
        total_weight(s) == 0,
    decreases s.len(),
{
    if s.len() > 0 {
        let m = s.last().0;
        lemma_total_split(s, m);
        assert(s[s.len() - 1].0 == m);
        lemma_total_of_zero(drop_row(s, m));
    }
}

/// Consolidation preserves total multiplicity: any batch meeting the
/// consolidation contract carries the same weight sum as its input.
pub proof fn lemma_consolidated_total_weight(s: SetV, out: SetV)
    requires
        set_sorted(out),
        forall|j: int| 0 <= j < out.len() ==> (#[trigger] out[j]).1 != 0,
        forall|m: Seq<NullableConstantV>| #[trigger] weight_of(out, m) == weight_of(s, m),
    ensures
        total_weight(out) == total_weight(s),
    decreases out.len(),
{
    if out.len() == 0 {
        assert forall|m: Seq<NullableConstantV>| #[trigger] weight_of(s, m) == 0 by {
            lemma_no_entry_no_weight(out, m);
        }
        lemma_total_of_zero(s);
    } else {
        let m = out[0].0;
        lemma_total_split(out, m);
        lemma_total_split(s, m);
        // Only the head of a strictly sorted batch holds the head's row,
        // so dropping it leaves the tail.
        assert forall|j: int| 1 <= j < out.len() implies (#[trigger] out[j]).0 != m by {
            assert(row_lt(out[0].0, out[j].0));
            lemma_row_trichotomy(out[0].0, out[j].0);
        }
        lemma_drop_head(out, m);
        let rest = out.subrange(1, out.len() as int);
        assert(drop_row(out, m) =~= rest);
        lemma_sorted_entry_weight(out, 0);
        assert forall|m2: Seq<NullableConstantV>| #[trigger] weight_of(drop_row(s, m), m2)
            == weight_of(rest, m2) by {
            if m2 == m {
                assert forall|j: int| 0 <= j < rest.len() implies (#[trigger] rest[j]).0 != m by {
                    assert(rest[j] == out[j + 1]);
                }
                lemma_no_entry_no_weight(rest, m);
            } else {
                assert(weight_of(drop_row(out, m), m2) == weight_of(out, m2));
            }
        }
        assert forall|j: int| 0 <= j < rest.len() implies (#[trigger] rest[j]).1 != 0 by {
            assert(rest[j] == out[j + 1]);
        }
        assert(set_sorted(rest)) by {
            assert forall|p: int, q: int|
                0 <= p < q < rest.len() implies row_lt(rest[p].0, rest[q].0) by {
                assert(rest[p] == out[p + 1]);
                assert(rest[q] == out[q + 1]);
            }
        }
        lemma_consolidated_total_weight(drop_row(s, m), rest);
    }
}

/// When exactly the head of a batch holds row `m`, dropping `m` leaves the
/// tail.
proof fn lemma_drop_head(out: SetV, m: Seq<NullableConstantV>)
    requires
        out.len() > 0,
        out[0].0 == m,
        forall|j: int| 1 <= j < out.len() ==> (#[trigger] out[j]).0 != m,
    ensures
        drop_row(out, m) =~= out.subrange(1, out.len() as int),
    decreases out.len(),
{
    if out.len() == 1 {
        assert(out.drop_last().len() == 0);
        assert(drop_row(out.drop_last(), m) =~= Seq::<(Seq<NullableConstantV>, int)>::empty());
        assert(out.last().0 == m);
        assert(drop_row(out, m) =~= Seq::<(Seq<NullableConstantV>, int)>::empty());
    } else {
        lemma_drop_head(out.drop_last(), m);
        assert(out.drop_last()[0] == out[0]);
        assert forall|j: int|
            1 <= j < out.drop_last().len() implies (#[trigger] out.drop_last()[j]).0 != m by {
            assert(out.drop_last()[j] == out[j]);
        }
        assert(out.last().0 != m);
        assert(drop_row(out, m) =~= drop_row(out.drop_last(), m).push(out.last()));
        assert(out.drop_last().subrange(1, out.drop_last().len() as int).push(out.last()) =~= out.subrange(
            1,
            out.len() as int,
        ));
    }
}

/// A join of weight-one batches yields weight-one entries: its length, and
/// hence its total multiplicity, is the number of matching pairs.
pub proof fn lemma_join_unit_weights(a: SetV, b: SetV, lk: int, rk: int)
    requires
        forall|p: int| 0 <= p < a.len() ==> (#[trigger] a[p]).1 == 1,
        forall|q: int| 0 <= q < b.len() ==> (#[trigger] b[q]).1 == 1,
    ensures
        forall|j: int|
            0 <= j < join_sets(a, b, lk, rk).len() ==> (#[trigger] join_sets(a, b, lk, rk)[j]).1
                == 1,
        total_weight(join_sets(a, b, lk, rk)) == join_sets(a, b, lk, rk).len(),
{
    lemma_join_units(a, b, lk, rk);
    lemma_total_of_units(join_sets(a, b, lk, rk));
}

proof fn lemma_join_units(a: SetV, b: SetV, lk: int, rk: int)
    requires
        forall|p: int| 0 <= p < a.len() ==> (#[trigger] a[p]).1 == 1,
        forall|q: int| 0 <= q < b.len() ==> (#[trigger] b[q]).1 == 1,
    ensures
        forall|j: int|
            0 <= j < join_sets(a, b, lk, rk).len() ==> (#[trigger] join_sets(a, b, lk, rk)[j]).1
                == 1,
    decreases a.len(),
{
    if a.len() > 0 {
        lemma_join_units(a.drop_last(), b, lk, rk);
        lemma_join_one_units(a.last(), b, lk, rk);
        let whole = join_sets(a, b, lk, rk);
        let pre = join_sets(a.drop_last(), b, lk, rk);
        let one = join_one(a.last(), b, lk, rk);
        assert forall|j: int| 0 <= j < whole.len() implies (#[trigger] whole[j]).1 == 1 by {
            if j < pre.len() {
                assert(whole[j] == pre[j]);
            } else {
                assert(whole[j] == one[j - pre.len()]);
            }
        }
    }
}

proof fn lemma_join_one_units(x: (Seq<NullableConstantV>, int), b: SetV, lk: int, rk: int)
    requires
        x.1 == 1,
        forall|q: int| 0 <= q < b.len() ==> (#[trigger] b[q]).1 == 1,
    ensures
        forall|j: int|
            0 <= j < join_one(x, b, lk, rk).len() ==> (#[trigger] join_one(x, b, lk, rk)[j]).1
                == 1,
    decreases b.len(),
{
    if b.len() > 0 {
        lemma_join_one_units(x, b.drop_last(), lk, rk);
        let whole = join_one(x, b, lk, rk);
        let pre = join_one(x, b.drop_last(), lk, rk);
        assert forall|j: int| 0 <= j < whole.len() implies (#[trigger] whole[j]).1 == 1 by {
            if j < pre.len() {
                assert(whole[j] == pre[j]);
            } else {
                assert(whole[j] == (x.0 + b.last().0, x.1 * b.last().1));
            }
        }
    }
}

/// A batch of unit weights totals its length.
proof fn lemma_total_of_units(s: SetV)
    requires
        forall|j: int| 0 <= j < s.len() ==> (#[trigger] s[j]).1 == 1,
    ensures
        total_weight(s) == s.len(),
    decreases s.len(),
{
    if s.len() > 0 {
        lemma_total_of_units(s.drop_last());
    }
}

} // verus!
