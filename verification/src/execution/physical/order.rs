//! The order of values, and stable sorting by it.

use vstd::prelude::*;

use crate::storage::{values_view, Value, ValueV};
use crate::text::{lemma_text_order, less, text_less};

verus! {

/// Whether `a` comes strictly before `b`. NULL comes before everything else,
/// and integers before texts, so that the order is total.
pub open spec fn value_less(a: ValueV, b: ValueV) -> bool {
    match (a, b) {
        (_, ValueV::Null) => false,
        (ValueV::Null, _) => true,
        (ValueV::Int(x), ValueV::Int(y)) => x < y,
        (ValueV::Text(x), ValueV::Text(y)) => text_less(x, y),
        (ValueV::Int(_), ValueV::Text(_)) => true,
        (ValueV::Text(_), ValueV::Int(_)) => false,
    }
}

/// Whether `a` comes strictly before `b`.
pub fn order_values(a: &Value, b: &Value) -> (r: bool)
    ensures
        r == value_less(a@, b@),
{
    match (a, b) {
        (_, Value::Null) => false,
        (Value::Null, _) => true,
        (Value::Int(x), Value::Int(y)) => *x < *y,
        (Value::Text(x), Value::Text(y)) => less(x.as_str(), y.as_str()),
        (Value::Int(_), Value::Text(_)) => true,
        (Value::Text(_), Value::Int(_)) => false,
    }
}

/// Whether `a` stands strictly before `b` in a result sorted in this direction.
pub open spec fn before(a: ValueV, b: ValueV, descending: bool) -> bool {
    if descending {
        value_less(b, a)
    } else {
        value_less(a, b)
    }
}

/// Whether `a` stands strictly before `b` in a result sorted in this direction.
pub fn comes_before(a: &Value, b: &Value, descending: bool) -> (r: bool)
    ensures
        r == before(a@, b@, descending),
{
    if descending {
        order_values(b, a)
    } else {
        order_values(a, b)
    }
}

// ---- the order is a strict weak order ----

proof fn lemma_value_less_transitive(a: ValueV, b: ValueV, c: ValueV)
    ensures
        value_less(a, b) && value_less(b, c) ==> value_less(a, c),
        !value_less(a, b) && !value_less(b, c) ==> !value_less(a, c),
        !(value_less(a, b) && value_less(b, a)),
{
    match (a, b, c) {
        (ValueV::Text(x), ValueV::Text(y), ValueV::Text(z)) => {
            lemma_text_order(x, y, z);
        },
        (ValueV::Text(x), ValueV::Text(y), _) => {
            lemma_text_order(x, y, y);
        },
        _ => {},
    }
}

/// `before` is a strict weak order: transitive, transitive where it fails, and
/// never both ways.
pub proof fn lemma_before_transitive(a: ValueV, b: ValueV, c: ValueV, descending: bool)
    ensures
        before(a, b, descending) && before(b, c, descending) ==> before(a, c, descending),
        !before(a, b, descending) && !before(b, c, descending) ==> !before(a, c, descending),
        !(before(a, b, descending) && before(b, a, descending)),
{
    lemma_value_less_transitive(a, b, c);
    lemma_value_less_transitive(c, b, a);
    lemma_value_less_transitive(a, b, b);
}

// ---- ranking ----

/// `order` with position `x` put behind everything that it is not before.
pub open spec fn place(order: Seq<int>, keys: Seq<ValueV>, x: int, descending: bool) -> Seq<int>
    decreases order.len(),
{
    if order.len() > 0 && before(keys[x], keys[order.last()], descending) {
        place(order.drop_last(), keys, x, descending).push(order.last())
    } else {
        order.push(x)
    }
}

/// The positions `lo <= i < hi`, ordered by their keys; equal keys keep their
/// order.
pub open spec fn ranked_range(keys: Seq<ValueV>, lo: int, hi: int, descending: bool) -> Seq<int>
    decreases hi - lo,
{
    if hi <= lo {
        Seq::empty()
    } else {
        place(ranked_range(keys, lo, hi - 1, descending), keys, hi - 1, descending)
    }
}

/// The positions of `keys`, ordered by their keys; equal keys keep their order.
pub open spec fn ranked(keys: Seq<ValueV>, descending: bool) -> Seq<int> {
    ranked_range(keys, 0, keys.len() as int, descending)
}

/// Whether position `p` belongs before position `q`: its key comes first, or
/// neither key does and `p` was there first.
pub open spec fn precedes(keys: Seq<ValueV>, p: int, q: int, descending: bool) -> bool {
    ||| before(keys[p], keys[q], descending)
    ||| !before(keys[q], keys[p], descending) && p < q
}

/// Every position stands before those that it belongs before.
pub open spec fn well_ordered(order: Seq<int>, keys: Seq<ValueV>, descending: bool) -> bool {
    forall|i: int, j: int|
        0 <= i < j < order.len() ==> precedes(
            keys,
            #[trigger] order[i],
            #[trigger] order[j],
            descending,
        )
}

proof fn lemma_place(order: Seq<int>, keys: Seq<ValueV>, x: int, descending: bool)
    requires
        well_ordered(order, keys, descending),
        forall|i: int| 0 <= i < order.len() ==> #[trigger] order[i] < x,
    ensures
        ({
            let placed = place(order, keys, x, descending);
            &&& placed.len() == order.len() + 1
            &&& well_ordered(placed, keys, descending)
            &&& forall|i: int|
                0 <= i < placed.len() ==> #[trigger] placed[i] == x || order.contains(placed[i])
            &&& forall|i: int| 0 <= i < order.len() ==> placed.contains(#[trigger] order[i])
            &&& placed.contains(x)
        }),
    decreases order.len(),
{
    let placed = place(order, keys, x, descending);
    if order.len() > 0 && before(keys[x], keys[order.last()], descending) {
        let rest = order.drop_last();
        assert forall|i: int| 0 <= i < rest.len() implies #[trigger] rest[i] < x by {
            assert(order[i] < x);
        }
        assert forall|i: int, j: int| 0 <= i < j < rest.len() implies precedes(
            keys,
            #[trigger] rest[i],
            #[trigger] rest[j],
            descending,
        ) by {
            assert(precedes(keys, order[i], order[j], descending));
        }
        lemma_place(rest, keys, x, descending);
        let inner = place(rest, keys, x, descending);
        assert forall|i: int, j: int| 0 <= i < j < placed.len() implies precedes(
            keys,
            #[trigger] placed[i],
            #[trigger] placed[j],
            descending,
        ) by {
            if j == placed.len() - 1 {
                if inner[i] != x {
                    let k = rest.index_of(inner[i]);
                    assert(rest.contains(inner[i]));
                    assert(order[k] == inner[i]);
                }
            } else {
                assert(precedes(keys, inner[i], inner[j], descending));
            }
        }
        assert forall|i: int| 0 <= i < placed.len() implies #[trigger] placed[i] == x
            || order.contains(placed[i]) by {
            if i < inner.len() {
                assert(placed[i] == inner[i]);
                if inner[i] != x {
                    let k = rest.index_of(inner[i]);
                    assert(rest.contains(inner[i]));
                    assert(order[k] == inner[i]);
                }
            } else {
                assert(order[order.len() - 1] == placed[i]);
            }
        }
        assert forall|i: int| 0 <= i < order.len() implies placed.contains(#[trigger] order[i]) by {
            if i < rest.len() {
                assert(rest[i] == order[i]);
                let k = inner.index_of(order[i]);
                assert(inner.contains(rest[i]));
                assert(placed[k] == order[i]);
            } else {
                assert(placed[placed.len() - 1] == order[i]);
            }
        }
        let k = inner.index_of(x);
        assert(placed[k] == x);
    } else {
        assert forall|i: int, j: int| 0 <= i < j < placed.len() implies precedes(
            keys,
            #[trigger] placed[i],
            #[trigger] placed[j],
            descending,
        ) by {
            if j == placed.len() - 1 {
                let e = order[i];
                let last = order.last();
                assert(e < x);
                if i < order.len() - 1 {
                    assert(precedes(keys, order[i], order[order.len() - 1], descending));
                }
                lemma_before_transitive(keys[e], keys[last], keys[e], descending);
                lemma_before_transitive(keys[x], keys[last], keys[e], descending);
                if i < order.len() - 1 {
                    assert(!before(keys[last], keys[e], descending));
                }
            } else {
                assert(precedes(keys, order[i], order[j], descending));
            }
        }
        assert(placed[order.len() as int] == x);
        assert forall|i: int| 0 <= i < order.len() implies placed.contains(#[trigger] order[i]) by {
            assert(placed[i] == order[i]);
        }
        assert forall|i: int| 0 <= i < placed.len() implies #[trigger] placed[i] == x
            || order.contains(placed[i]) by {
            if i < order.len() {
                assert(order[i] == placed[i]);
            }
        }
    }
}

/// Ranking puts every position in its place: each one is there once, none is
/// left out, keys are in order, and equal keys keep the order they came in.
pub proof fn law_ranking(keys: Seq<ValueV>, lo: int, hi: int, descending: bool)
    requires
        lo <= hi,
    ensures
        ({
            let order = ranked_range(keys, lo, hi, descending);
            &&& order.len() == hi - lo
            &&& well_ordered(order, keys, descending)
            &&& forall|i: int| 0 <= i < order.len() ==> lo <= #[trigger] order[i] < hi
            &&& forall|p: int| lo <= p < hi ==> #[trigger] order.contains(p)
        }),
    decreases hi - lo,
{
    if lo < hi {
        let earlier = ranked_range(keys, lo, hi - 1, descending);
        law_ranking(keys, lo, hi - 1, descending);
        lemma_place(earlier, keys, hi - 1, descending);
        let order = ranked_range(keys, lo, hi, descending);
        assert forall|i: int| 0 <= i < order.len() implies lo <= #[trigger] order[i] < hi by {
            if order[i] != hi - 1 {
                let k = earlier.index_of(order[i]);
                assert(earlier.contains(order[i]));
                assert(lo <= earlier[k] < hi - 1);
            }
        }
        assert forall|p: int| lo <= p < hi implies #[trigger] order.contains(p) by {
            if p < hi - 1 {
                assert(earlier.contains(p));
                let k = earlier.index_of(p);
                assert(order.contains(earlier[k]));
            }
        }
    }
}

/// No position is ranked twice.
pub proof fn law_ranking_has_no_repeats(keys: Seq<ValueV>, lo: int, hi: int, descending: bool)
    requires
        lo <= hi,
    ensures
        ({
            let order = ranked_range(keys, lo, hi, descending);
            forall|i: int, j: int|
                0 <= i < j < order.len() ==> #[trigger] order[i] != #[trigger] order[j]
        }),
{
    law_ranking(keys, lo, hi, descending);
    let order = ranked_range(keys, lo, hi, descending);
    assert forall|i: int, j: int| 0 <= i < j < order.len() implies #[trigger] order[i]
        != #[trigger] order[j] by {
        assert(precedes(keys, order[i], order[j], descending));
        lemma_before_transitive(keys[order[i]], keys[order[j]], keys[order[i]], descending);
    }
}

// ---- merging ----

/// Two ranked runs as one; where keys are equal, `a` goes first.
pub open spec fn merged(
    a: Seq<int>,
    b: Seq<int>,
    keys: Seq<ValueV>,
    descending: bool,
) -> Seq<int>
    decreases a.len() + b.len(),
{
    if a.len() == 0 {
        b
    } else if b.len() == 0 {
        a
    } else if before(keys[b.last()], keys[a.last()], descending) {
        merged(a.drop_last(), b, keys, descending).push(a.last())
    } else {
        merged(a, b.drop_last(), keys, descending).push(b.last())
    }
}

/// Placing a position and merging may change places.
proof fn lemma_place_merged(
    a: Seq<int>,
    b: Seq<int>,
    keys: Seq<ValueV>,
    x: int,
    descending: bool,
)
    ensures
        place(merged(a, b, keys, descending), keys, x, descending) == merged(
            a,
            place(b, keys, x, descending),
            keys,
            descending,
        ),
    decreases a.len() + b.len(),
{
    let m = merged(a, b, keys, descending);
    let p = place(b, keys, x, descending);
    if a.len() == 0 {
    } else if b.len() == 0 {
        assert(p =~= seq![x]);
        assert(p.drop_last() =~= b);
        if before(keys[x], keys[a.last()], descending) {
            lemma_place_merged(a.drop_last(), b, keys, x, descending);
            assert(merged(a.drop_last(), b, keys, descending) =~= a.drop_last());
        } else {
            assert(merged(a, p.drop_last(), keys, descending) =~= a);
        }
    } else {
        let la = a.last();
        let lb = b.last();
        lemma_before_transitive(keys[x], keys[lb], keys[la], descending);
        if before(keys[lb], keys[la], descending) {
            let inner = merged(a.drop_last(), b, keys, descending);
            assert(m.drop_last() =~= inner);
            if before(keys[x], keys[la], descending) {
                lemma_place_merged(a.drop_last(), b, keys, x, descending);
                assert(p.last() == x || p.last() == lb);
            } else {
                assert(p.drop_last() =~= b);
            }
        } else {
            let inner = merged(a, b.drop_last(), keys, descending);
            assert(m.drop_last() =~= inner);
            if before(keys[x], keys[lb], descending) {
                lemma_place_merged(a, b.drop_last(), keys, x, descending);
                assert(p.drop_last() =~= place(b.drop_last(), keys, x, descending));
            } else {
                assert(p.drop_last() =~= b);
            }
        }
    }
}

/// Ranking two neighbouring runs and merging them ranks both together.
pub proof fn lemma_merge_ranks(keys: Seq<ValueV>, lo: int, mid: int, hi: int, descending: bool)
    requires
        lo <= mid <= hi,
    ensures
        merged(
            ranked_range(keys, lo, mid, descending),
            ranked_range(keys, mid, hi, descending),
            keys,
            descending,
        ) == ranked_range(keys, lo, hi, descending),
    decreases hi - mid,
{
    if hi > mid {
        lemma_merge_ranks(keys, lo, mid, hi - 1, descending);
        lemma_place_merged(
            ranked_range(keys, lo, mid, descending),
            ranked_range(keys, mid, hi - 1, descending),
            keys,
            hi - 1,
            descending,
        );
    }
}

/// Positions as integers.
pub open spec fn as_ints(positions: Seq<usize>) -> Seq<int> {
    Seq::new(positions.len(), |i: int| positions[i] as int)
}

proof fn lemma_merged_len(a: Seq<int>, b: Seq<int>, keys: Seq<ValueV>, descending: bool)
    ensures
        merged(a, b, keys, descending).len() == a.len() + b.len(),
    decreases a.len() + b.len(),
{
    if a.len() > 0 && b.len() > 0 {
        lemma_merged_len(a.drop_last(), b, keys, descending);
        lemma_merged_len(a, b.drop_last(), keys, descending);
    }
}

/// Merge two ranked runs of positions, from their ends.
fn merge(keys: &Vec<Value>, a: &Vec<usize>, b: &Vec<usize>, descending: bool) -> (r: Vec<usize>)
    requires
        forall|i: int| 0 <= i < a@.len() ==> #[trigger] a@[i] < keys@.len(),
        forall|i: int| 0 <= i < b@.len() ==> #[trigger] b@[i] < keys@.len(),
        a@.len() + b@.len() <= usize::MAX,
    ensures
        as_ints(r@) == merged(as_ints(a@), as_ints(b@), values_view(keys@), descending),
{
    let ghost ks = values_view(keys@);
    let ghost sa = as_ints(a@);
    let ghost sb = as_ints(b@);
    let total: usize = a.len() + b.len();
    let mut out: Vec<usize> = Vec::new();
    let mut filled: usize = 0;
    while filled < total
        invariant
            filled <= total,
            out@.len() == filled,
        decreases total - filled,
    {
        out.push(0);
        filled = filled + 1;
    }
    let mut i: usize = a.len();
    let mut j: usize = b.len();
    assert(sa.take(i as int) =~= sa);
    assert(sb.take(j as int) =~= sb);
    assert(merged(sa, sb, ks, descending) =~= merged(sa, sb, ks, descending) + as_ints(
        out@,
    ).skip(i + j));
    while i > 0 || j > 0
        invariant
            i <= a@.len(),
            j <= b@.len(),
            out@.len() == total == a@.len() + b@.len(),
            ks == values_view(keys@),
            sa == as_ints(a@),
            sb == as_ints(b@),
            forall|i: int| 0 <= i < a@.len() ==> #[trigger] a@[i] < keys@.len(),
            forall|i: int| 0 <= i < b@.len() ==> #[trigger] b@[i] < keys@.len(),
            merged(sa, sb, ks, descending) == merged(
                sa.take(i as int),
                sb.take(j as int),
                ks,
                descending,
            ) + as_ints(out@).skip(i + j),
        decreases i + j,
    {
        let ghost ta = sa.take(i as int);
        let ghost tb = sb.take(j as int);
        let ghost tail = as_ints(out@).skip(i + j);
        let ghost m = merged(ta, tb, ks, descending);
        proof {
            lemma_merged_len(ta, tb, ks, descending);
        }
        let from_a = if i == 0 {
            false
        } else if j == 0 {
            true
        } else {
            comes_before(&keys[b[j - 1]], &keys[a[i - 1]], descending)
        };
        if from_a {
            i = i - 1;
            out.set(i + j, a[i]);
            proof {
                assert(ta.drop_last() =~= sa.take(i as int));
                assert(ta.last() == a@[i as int]);
                if j == 0 {
                    assert(tb =~= Seq::<int>::empty());
                    assert(merged(sa.take(i as int), tb, ks, descending) =~= sa.take(i as int));
                }
                assert(m =~= merged(sa.take(i as int), tb, ks, descending).push(ta.last()));
                assert(as_ints(out@).skip(i + j) =~= seq![ta.last()] + tail);
                assert(m + tail =~= merged(sa.take(i as int), tb, ks, descending) + as_ints(
                    out@,
                ).skip(i + j));
            }
        } else {
            j = j - 1;
            out.set(i + j, b[j]);
            proof {
                assert(tb.drop_last() =~= sb.take(j as int));
                assert(tb.last() == b@[j as int]);
                if i == 0 {
                    assert(ta =~= Seq::<int>::empty());
                    assert(merged(ta, sb.take(j as int), ks, descending) =~= sb.take(j as int));
                }
                assert(m =~= merged(ta, sb.take(j as int), ks, descending).push(tb.last()));
                assert(as_ints(out@).skip(i + j) =~= seq![tb.last()] + tail);
                assert(m + tail =~= merged(ta, sb.take(j as int), ks, descending) + as_ints(
                    out@,
                ).skip(i + j));
            }
        }
    }
    proof {
        assert(sa.take(0) =~= Seq::<int>::empty());
        assert(sb.take(0) =~= Seq::<int>::empty());
        assert(as_ints(out@).skip(0) =~= as_ints(out@));
        assert(merged(sa, sb, ks, descending) =~= as_ints(out@));
    }
    out
}

/// Rank the positions `lo <= i < hi` of `keys`.
fn rank_range(keys: &Vec<Value>, lo: usize, hi: usize, descending: bool) -> (r: Vec<usize>)
    requires
        lo <= hi <= keys@.len(),
    ensures
        as_ints(r@) == ranked_range(values_view(keys@), lo as int, hi as int, descending),
    decreases hi - lo,
{
    let ghost ks = values_view(keys@);
    if hi - lo <= 1 {
        let mut r: Vec<usize> = Vec::new();
        if lo < hi {
            r.push(lo);
            assert(ranked_range(ks, lo as int, hi - 1, descending) =~= Seq::empty());
        }
        assert(as_ints(r@) =~= ranked_range(ks, lo as int, hi as int, descending));
        return r;
    }
    let mid: usize = lo + (hi - lo) / 2;
    let a = rank_range(keys, lo, mid, descending);
    let b = rank_range(keys, mid, hi, descending);
    proof {
        law_ranking(ks, lo as int, mid as int, descending);
        law_ranking(ks, mid as int, hi as int, descending);
        lemma_merge_ranks(ks, lo as int, mid as int, hi as int, descending);
        assert forall|i: int| 0 <= i < a@.len() implies #[trigger] a@[i] < keys@.len() by {
            assert(as_ints(a@)[i] == a@[i]);
        }
        assert forall|i: int| 0 <= i < b@.len() implies #[trigger] b@[i] < keys@.len() by {
            assert(as_ints(b@)[i] == b@[i]);
        }
        assert(as_ints(a@).len() == a@.len());
        assert(as_ints(b@).len() == b@.len());
    }
    merge(keys, &a, &b, descending)
}

/// The positions of `keys`, ordered by their keys; equal keys keep their order.
pub fn rank(keys: &Vec<Value>, descending: bool) -> (r: Vec<usize>)
    ensures
        as_ints(r@) == ranked(values_view(keys@), descending),
        r@.len() == keys@.len(),
        forall|i: int| 0 <= i < r@.len() ==> #[trigger] r@[i] < keys@.len(),
{
    let r = rank_range(keys, 0, keys.len(), descending);
    proof {
        law_ranking(values_view(keys@), 0, keys@.len() as int, descending);
        assert(as_ints(r@).len() == r@.len());
        assert forall|i: int| 0 <= i < r@.len() implies #[trigger] r@[i] < keys@.len() by {
            assert(as_ints(r@)[i] == r@[i]);
        }
    }
    r
}

} // verus!
