use vstd::prelude::*;
use vstd::seq_lib::lemma_multiset_commutative;
use crate::item::Item;

verus! {

/// Ordering tier of an entry: streamed entries (tier 0) come before entries
/// that are merely scheduled (tier 1), which come before entries with no time
/// information at all (tier 2).
pub open spec fn tier(v: Item) -> int {
    if v.actual_start_time is Some {
        0
    } else if v.scheduled_start_time is Some {
        1
    } else {
        2
    }
}

/// `v` must stand strictly before `w` in the canonical order: a lower tier, or
/// the same timed tier with a strictly newer key timestamp (newest first
/// within a tier). Entries of equal rank — equal key timestamps, or both in
/// tier 2 — are related by `before` in neither direction.
pub open spec fn before(v: Item, w: Item) -> bool {
    ||| tier(v) < tier(w)
    ||| (tier(v) == 0 && tier(w) == 0 && v.actual_start_time->0.spec_gt(w.actual_start_time->0))
    ||| (tier(v) == 1 && tier(w) == 1 && v.scheduled_start_time->0.spec_gt(
        w.scheduled_start_time->0,
    ))
}

/// The comparator, flattened to "does `v` strictly precede `w`".
pub fn item_before(v: &Item, w: &Item) -> (r: bool)
    ensures
        r == before(*v, *w),
{
    match (&v.actual_start_time, &w.actual_start_time) {
        (Some(a), Some(b)) => a.gt(b),
        (Some(_), None) => true,
        (None, Some(_)) => false,
        (None, None) => match (&v.scheduled_start_time, &w.scheduled_start_time) {
            (Some(a), Some(b)) => a.gt(b),
            (Some(_), None) => true,
            (None, Some(_)) => false,
            (None, None) => false,
        },
    }
}

/// A sequence is in canonical order when no later entry must stand before an
/// earlier one.
pub open spec fn ordered(s: Seq<Item>) -> bool {
    forall|i: int, j: int| 0 <= i < j < s.len() ==> !before(s[j], s[i])
}

/// Stable insertion of `x` into `s`: `x` goes in front of the first entry it
/// must precede, and after everything else.
pub open spec fn insert_ordered(s: Seq<Item>, x: Item) -> Seq<Item>
    decreases s.len(),
{
    if s.len() == 0 {
        seq![x]
    } else if before(x, s[0]) {
        seq![x] + s
    } else {
        seq![s[0]] + insert_ordered(s.drop_first(), x)
    }
}

/// The canonical order of a sequence: a stable insertion sort by `before`.
pub open spec fn sort_spec(s: Seq<Item>) -> Seq<Item>
    decreases s.len(),
{
    if s.len() == 0 {
        Seq::empty()
    } else {
        insert_ordered(sort_spec(s.drop_last()), s.last())
    }
}

proof fn lemma_before_trans(a: Item, b: Item, c: Item)
    requires
        before(a, b),
        before(b, c),
    ensures
        before(a, c),
{
}

proof fn lemma_insert_ordered_len(s: Seq<Item>, x: Item)
    ensures
        insert_ordered(s, x).len() == s.len() + 1,
    decreases s.len(),
{
    if s.len() > 0 && !before(x, s[0]) {
        lemma_insert_ordered_len(s.drop_first(), x);
    }
}

proof fn lemma_insert_ordered_multiset(s: Seq<Item>, x: Item)
    ensures
        insert_ordered(s, x).to_multiset() =~= s.to_multiset().insert(x),
    decreases s.len(),
{
    broadcast use vstd::seq_lib::group_to_multiset_ensures;

    if s.len() == 0 {
        assert(seq![x] =~= Seq::empty().push(x));
    } else if before(x, s[0]) {
        lemma_multiset_commutative(seq![x], s);
        assert(seq![x] =~= Seq::empty().push(x));
    } else {
        lemma_insert_ordered_multiset(s.drop_first(), x);
        lemma_multiset_commutative(seq![s[0]], insert_ordered(s.drop_first(), x));
        assert(seq![s[0]] =~= Seq::empty().push(s[0]));
        assert(s =~= seq![s[0]] + s.drop_first());
        lemma_multiset_commutative(seq![s[0]], s.drop_first());
    }
}

proof fn lemma_insert_ordered_elems(s: Seq<Item>, x: Item)
    ensures
        forall|y: Item| insert_ordered(s, x).contains(y) ==> s.contains(y) || y == x,
    decreases s.len(),
{
    if s.len() == 0 {
    } else if before(x, s[0]) {
        assert forall|y: Item| insert_ordered(s, x).contains(y) implies s.contains(y) || y
            == x by {
            let k = choose|k: int| 0 <= k < insert_ordered(s, x).len() && insert_ordered(s, x)[k]
                == y;
            if k > 0 {
                assert(s[k - 1] == y);
            }
        }
    } else {
        lemma_insert_ordered_elems(s.drop_first(), x);
        assert forall|y: Item| insert_ordered(s, x).contains(y) implies s.contains(y) || y
            == x by {
            let t = insert_ordered(s.drop_first(), x);
            let k = choose|k: int| 0 <= k < insert_ordered(s, x).len() && insert_ordered(s, x)[k]
                == y;
            if k == 0 {
                assert(s[0] == y);
            } else {
                assert(t[k - 1] == y);
                assert(t.contains(y));
                if s.drop_first().contains(y) {
                    let m = choose|m: int|
                        0 <= m < s.drop_first().len() && s.drop_first()[m] == y;
                    assert(s[m + 1] == y);
                }
            }
        }
    }
}

proof fn lemma_insert_ordered_ordered(s: Seq<Item>, x: Item)
    requires
        ordered(s),
    ensures
        ordered(insert_ordered(s, x)),
    decreases s.len(),
{
    if s.len() == 0 {
    } else if before(x, s[0]) {
        let r = seq![x] + s;
        assert forall|i: int, j: int| 0 <= i < j < r.len() implies !before(r[j], r[i]) by {
            if i == 0 {
                if before(r[j], x) {
                    lemma_before_trans(r[j], x, s[0]);
                    if j > 1 {
                        assert(before(s[j - 1], s[0]));
                    }
                }
            } else {
                assert(r[i] == s[i - 1] && r[j] == s[j - 1]);
            }
        }
    } else {
        assert(ordered(s.drop_first())) by {
            assert forall|i: int, j: int|
                0 <= i < j < s.drop_first().len() implies !before(
                s.drop_first()[j],
                s.drop_first()[i],
            ) by {
                assert(s.drop_first()[j] == s[j + 1] && s.drop_first()[i] == s[i + 1]);
            }
        }
        lemma_insert_ordered_ordered(s.drop_first(), x);
        lemma_insert_ordered_elems(s.drop_first(), x);
        lemma_insert_ordered_len(s.drop_first(), x);
        let t = insert_ordered(s.drop_first(), x);
        let r = seq![s[0]] + t;
        assert forall|i: int, j: int| 0 <= i < j < r.len() implies !before(r[j], r[i]) by {
            if i == 0 {
                assert(r[j] == t[j - 1]);
                assert(t.contains(t[j - 1]));
                if s.drop_first().contains(t[j - 1]) {
                    let m = choose|m: int|
                        0 <= m < s.drop_first().len() && s.drop_first()[m] == t[j - 1];
                    assert(s[m + 1] == t[j - 1]);
                    assert(!before(s[m + 1], s[0]));
                }
            } else {
                assert(r[i] == t[i - 1] && r[j] == t[j - 1]);
            }
        }
    }
}

proof fn lemma_insert_ordered_split(s: Seq<Item>, x: Item, j: int)
    requires
        0 <= j <= s.len(),
        forall|k: int| 0 <= k < j ==> !before(x, s[k]),
        j < s.len() ==> before(x, s[j]),
    ensures
        insert_ordered(s, x) =~= s.subrange(0, j) + seq![x] + s.subrange(j, s.len() as int),
    decreases j,
{
    if j == 0 {
        if s.len() == 0 {
            assert(insert_ordered(s, x) == seq![x]);
        } else {
            assert(before(x, s[0]));
        }
        assert(s.subrange(0, 0) =~= Seq::<Item>::empty());
        assert(s.subrange(0, s.len() as int) =~= s);
    } else {
        assert(!before(x, s[0]));
        let d = s.drop_first();
        assert forall|k: int| 0 <= k < j - 1 implies !before(x, d[k]) by {
            assert(d[k] == s[k + 1]);
        }
        if j - 1 < d.len() {
            assert(d[j - 1] == s[j]);
        }
        lemma_insert_ordered_split(d, x, j - 1);
    }
}

/// The canonical order is a permutation of the input, of the same length, and
/// it is ordered.
pub proof fn lemma_sort_spec_props(s: Seq<Item>)
    ensures
        ordered(sort_spec(s)),
        sort_spec(s).to_multiset() =~= s.to_multiset(),
        sort_spec(s).len() == s.len(),
    decreases s.len(),
{
    broadcast use vstd::seq_lib::group_to_multiset_ensures;

    if s.len() > 0 {
        lemma_sort_spec_props(s.drop_last());
        lemma_insert_ordered_ordered(sort_spec(s.drop_last()), s.last());
        lemma_insert_ordered_multiset(sort_spec(s.drop_last()), s.last());
        lemma_insert_ordered_len(sort_spec(s.drop_last()), s.last());
        assert(s =~= s.drop_last().push(s.last()));
        assert(s.drop_last().push(s.last()).to_multiset() =~= s.drop_last().to_multiset().insert(
            s.last(),
        ));
    }
}

proof fn lemma_insert_ordered_at_end(s: Seq<Item>, x: Item)
    requires
        forall|k: int| 0 <= k < s.len() ==> !before(x, s[k]),
    ensures
        insert_ordered(s, x) =~= s.push(x),
    decreases s.len(),
{
    if s.len() > 0 {
        assert(!before(x, s[0]));
        assert forall|k: int| 0 <= k < s.drop_first().len() implies !before(
            x,
            s.drop_first()[k],
        ) by {
            assert(s.drop_first()[k] == s[k + 1]);
        }
        lemma_insert_ordered_at_end(s.drop_first(), x);
    }
}

/// A sequence already in canonical order is a fixed point of the sort.
pub proof fn lemma_sort_of_ordered(s: Seq<Item>)
    requires
        ordered(s),
    ensures
        sort_spec(s) == s,
    decreases s.len(),
{
    if s.len() > 0 {
        assert(ordered(s.drop_last())) by {
            assert forall|i: int, j: int|
                0 <= i < j < s.drop_last().len() implies !before(
                s.drop_last()[j],
                s.drop_last()[i],
            ) by {
                assert(s.drop_last()[j] == s[j] && s.drop_last()[i] == s[i]);
            }
        }
        lemma_sort_of_ordered(s.drop_last());
        assert forall|k: int| 0 <= k < s.drop_last().len() implies !before(
            s.last(),
            s.drop_last()[k],
        ) by {
            assert(s.drop_last()[k] == s[k]);
            assert(!before(s[s.len() - 1], s[k]));
        }
        lemma_insert_ordered_at_end(s.drop_last(), s.last());
        assert(s.drop_last().push(s.last()) =~= s);
    }
}

/// Re-running the sort on its own output yields the same sequence: the
/// canonical ordering is idempotent.
pub proof fn lemma_sort_idempotent(s: Seq<Item>)
    ensures
        sort_spec(sort_spec(s)) == sort_spec(s),
{
    lemma_sort_spec_props(s);
    lemma_sort_of_ordered(sort_spec(s));
}

/// Sorting the empty sequence yields the empty sequence.
pub proof fn lemma_sort_empty()
    ensures
        sort_spec(Seq::<Item>::empty()) == Seq::<Item>::empty(),
{
}

/// Sorting a single entry yields that entry unchanged.
pub proof fn lemma_sort_singleton(v: Item)
    ensures
        sort_spec(seq![v]) == seq![v],
{
    let s = seq![v];
    assert(s.len() == 1);
    assert(s.drop_last() =~= Seq::<Item>::empty());
    assert(s.last() == v);
    assert(sort_spec(Seq::<Item>::empty()) == Seq::<Item>::empty());
    assert(sort_spec(s) == insert_ordered(sort_spec(s.drop_last()), s.last()));
    assert(insert_ordered(Seq::<Item>::empty(), v) =~= seq![v]);
}

/// Tier separation: in the canonical order, every streamed entry stands before
/// every unstreamed one, and every scheduled entry before every unscheduled,
/// unstreamed one — tiers never interleave.
pub proof fn lemma_tier_separation(s: Seq<Item>)
    ensures
        forall|i: int, j: int|
            0 <= i < j < sort_spec(s).len() ==> tier(sort_spec(s)[i]) <= tier(sort_spec(s)[j]),
{
    lemma_sort_spec_props(s);
    let out = sort_spec(s);
    assert forall|i: int, j: int| 0 <= i < j < out.len() implies tier(out[i]) <= tier(
        out[j],
    ) by {
        assert(!before(out[j], out[i]));
    }
}

/// Within a timed tier the canonical order is descending: of two streamed
/// entries, the earlier-listed one streamed at or after the later-listed one,
/// and a strictly newer stream time forces a strictly earlier place; likewise
/// for scheduled entries with their scheduled time.
pub proof fn lemma_descending_within_tier(s: Seq<Item>)
    ensures
        forall|i: int, j: int|
            0 <= i < j < sort_spec(s).len() && tier(sort_spec(s)[i]) == 0 && tier(sort_spec(s)[j])
                == 0 ==> sort_spec(s)[i].actual_start_time->0.spec_ge(
                sort_spec(s)[j].actual_start_time->0,
            ),
        forall|i: int, j: int|
            0 <= i < j < sort_spec(s).len() && tier(sort_spec(s)[i]) == 1 && tier(sort_spec(s)[j])
                == 1 ==> sort_spec(s)[i].scheduled_start_time->0.spec_ge(
                sort_spec(s)[j].scheduled_start_time->0,
            ),
        forall|i: int, j: int|
            0 <= i < sort_spec(s).len() && 0 <= j < sort_spec(s).len() && tier(sort_spec(s)[i]) == 0
                && tier(sort_spec(s)[j]) == 0 && sort_spec(s)[i].actual_start_time->0.spec_gt(
                sort_spec(s)[j].actual_start_time->0,
            ) ==> i < j,
{
    lemma_sort_spec_props(s);
    let out = sort_spec(s);
    assert forall|i: int, j: int|
        0 <= i < j < out.len() && tier(out[i]) == 0 && tier(out[j])
            == 0 implies out[i].actual_start_time->0.spec_ge(out[j].actual_start_time->0) by {
        assert(!before(out[j], out[i]));
    }
    assert forall|i: int, j: int|
        0 <= i < j < out.len() && tier(out[i]) == 1 && tier(out[j])
            == 1 implies out[i].scheduled_start_time->0.spec_ge(out[j].scheduled_start_time->0) by {
        assert(!before(out[j], out[i]));
    }
    assert forall|i: int, j: int|
        0 <= i < out.len() && 0 <= j < out.len() && tier(out[i]) == 0 && tier(out[j]) == 0
            && out[i].actual_start_time->0.spec_gt(out[j].actual_start_time->0) implies i < j by {
        if j < i {
            assert(!before(out[i], out[j]));
        }
    }
}

fn insert_item(out: &mut Vec<Item>, x: Item)
    ensures
        final(out)@ == insert_ordered(old(out)@, x),
{
    let mut j: usize = 0;
    while j < out.len() && !item_before(&x, &out[j])
        invariant
            j <= out@.len(),
            out@ == old(out)@,
            forall|k: int| 0 <= k < j ==> !before(x, out@[k]),
        decreases out@.len() - j,
    {
        j += 1;
    }
    proof {
        lemma_insert_ordered_split(out@, x, j as int);
        assert(out@.insert(j as int, x) =~= out@.subrange(0, j as int) + seq![x] + out@.subrange(
            j as int,
            out@.len() as int,
        ));
    }
    out.insert(j, x);
}

/// Sort the playlist into its canonical order: streamed entries newest-first,
/// then unstreamed scheduled entries newest-first, then the rest, stably.
pub fn sort_items(items: &mut Vec<Item>)
    ensures
        final(items)@ == sort_spec(old(items)@),
        ordered(final(items)@),
        final(items)@.to_multiset() == old(items)@.to_multiset(),
{
    let ghost orig: Seq<Item> = items@;
    let mut out: Vec<Item> = Vec::new();
    let n: usize = items.len();
    for i in 0..n
        invariant
            items@ == orig,
            n == orig.len(),
            out@ == sort_spec(orig.subrange(0, i as int)),
    {
        let x = items[i].clone();
        proof {
            let pre = orig.subrange(0, i + 1);
            assert(pre.drop_last() =~= orig.subrange(0, i as int));
            assert(pre.last() == orig[i as int]);
        }
        insert_item(&mut out, x);
    }
    proof {
        assert(orig.subrange(0, n as int) =~= orig);
        lemma_sort_spec_props(orig);
    }
    *items = out;
}

} // verus!
