//! Properties of the list model that hold across operations.
use vstd::prelude::*;
use vstd::std_specs::cmp::PartialEqSpec;

use crate::model::{ListModel, distinct, find_from, kept, newest_first, position_of, without};

verus! {

/// What `find_from` returns: the first match at or after `k`, or none.
pub proof fn lemma_find_from<T: PartialEq>(s: Seq<T>, x: T, k: int)
    requires
        0 <= k <= s.len(),
    ensures
        match find_from(s, x, k) {
            Some(p) => k <= p < s.len() && s[p].eq_spec(&x) && forall|j: int|
                k <= j < p ==> !(#[trigger] s[j]).eq_spec(&x),
            None => forall|j: int| k <= j < s.len() ==> !(#[trigger] s[j]).eq_spec(&x),
        },
    decreases s.len() - k,
{
    if k < s.len() && !s[k].eq_spec(&x) {
        lemma_find_from(s, x, k + 1);
    }
}

/// Using an item keeps the items distinct.
pub proof fn lemma_use_keeps_distinct<T: PartialEq>(l: ListModel<T>, x: T)
    requires
        vstd::laws_eq::obeys_eq::<T>(),
        distinct(l.items),
    ensures
        distinct(l.used(x).items),
{
    reveal(vstd::laws_eq::obeys_eq_spec_properties);
    let s = l.items;
    lemma_find_from(s, x, 0);
    let w = without(s, x);
    assert forall|j: int| 0 <= j < w.len() implies !(#[trigger] w[j]).eq_spec(&x) by {
        if let Some(p) = position_of(s, x) {
            let k = if j < p { j } else { j + 1 };
            assert(w[j] == s[k]);
            if w[j].eq_spec(&x) {
                assert(x.eq_spec(&s[p]));
                assert(s[k].eq_spec(&s[p]));
            }
        }
    }
    let g = w.push(x);
    assert(distinct(w));
    assert(distinct(g)) by {
        assert forall|i: int, j: int|
            0 <= i < g.len() && 0 <= j < g.len() && i != j implies !g[i].eq_spec(&g[j]) by {
            if i < w.len() && j < w.len() {
                assert(g[i] == w[i] && g[j] == w[j]);
            } else if i < w.len() {
                assert(g[i] == w[i] && g[j] == x);
            } else {
                assert(g[j] == w[j] && g[i] == x);
                assert(!w[j].eq_spec(&x));
            }
        }
    }
    let u = l.used(x).items;
    if g.len() > l.capacity {
        assert forall|i: int, j: int|
            0 <= i < u.len() && 0 <= j < u.len() && i != j implies !u[i].eq_spec(&u[j]) by {
            assert(u[i] == g[i + 1] && u[j] == g[j + 1]);
        }
    }
}

/// Taking an item out never lengthens a sequence, and shortens it by one
/// exactly when an equal item is there.
pub proof fn lemma_without_len<T: PartialEq>(s: Seq<T>, x: T)
    ensures
        without(s, x).len() == if position_of(s, x) is Some {
            s.len() - 1
        } else {
            s.len() as int
        },
{
    lemma_find_from(s, x, 0);
}

/// A use on a list within its capacity leaves it within its capacity.
pub proof fn lemma_use_respects_capacity<T: PartialEq>(l: ListModel<T>, x: T)
    requires
        l.items.len() <= l.capacity,
    ensures
        l.used(x).items.len() <= l.used(x).capacity,
{
    lemma_without_len(l.items, x);
}

/// After a use the used item is the most recent one, unless the list ends
/// up empty, which happens only with capacity zero.
pub proof fn lemma_use_makes_most_recent<T: PartialEq>(l: ListModel<T>, x: T)
    requires
        l.capacity > 0 || without(l.items, x).len() > 0,
    ensures
        l.used(x).items.len() > 0,
        l.used(x).items.last() == x,
{
}

/// With capacity zero a use leaves an empty list empty.
pub proof fn lemma_zero_capacity_stays_empty<T: PartialEq>(l: ListModel<T>, x: T)
    requires
        l.capacity == 0,
        l.items.len() == 0,
    ensures
        l.used(x).items.len() == 0,
{
}

/// Using a stored item moves it to the back; the other items keep their
/// order and nothing is evicted.
pub proof fn lemma_promotion<T: PartialEq>(l: ListModel<T>, x: T, p: int)
    requires
        vstd::laws_eq::obeys_eq::<T>(),
        distinct(l.items),
        l.items.len() <= l.capacity,
        0 <= p < l.items.len(),
        l.items[p].eq_spec(&x),
    ensures
        l.used(x).items == l.items.remove(p).push(x),
        l.used(x).items.len() == l.items.len(),
{
    reveal(vstd::laws_eq::obeys_eq_spec_properties);
    let s = l.items;
    lemma_find_from(s, x, 0);
    let q = position_of(s, x)->Some_0;
    if q != p {
        assert(x.eq_spec(&s[p]));
        assert(s[q].eq_spec(&s[p]));
    }
}

/// Using a new item on a full list evicts exactly the least recently used
/// item and keeps the rest in order.
pub proof fn lemma_eviction_takes_least_recent<T: PartialEq>(l: ListModel<T>, x: T)
    requires
        forall|i: int| 0 <= i < l.items.len() ==> !(#[trigger] l.items[i]).eq_spec(&x),
        l.items.len() >= l.capacity,
        l.items.len() > 0,
    ensures
        l.used(x).items == l.items.drop_first().push(x),
{
    lemma_find_from(l.items, x, 0);
    assert(l.items.push(x).drop_first() =~= l.items.drop_first().push(x));
}

/// Lowering the capacity removes nothing; the next use of a new item evicts
/// only the least recently used one.
pub proof fn lemma_shrink_is_lazy<T: PartialEq>(l: ListModel<T>, cap: nat, x: T)
    requires
        cap < l.items.len(),
        forall|i: int| 0 <= i < l.items.len() ==> !(#[trigger] l.items[i]).eq_spec(&x),
    ensures
        l.resized(cap).items == l.items,
        l.resized(cap).used(x).items == l.items.drop_first().push(x),
{
    lemma_eviction_takes_least_recent(l.resized(cap), x);
}

/// Iteration yields the stored items in reverse, starting with the most
/// recent one.
pub proof fn lemma_iteration_is_reversed<T>(s: Seq<T>)
    ensures
        newest_first(s).len() == s.len(),
        newest_first(newest_first(s)) == s,
        s.len() > 0 ==> newest_first(s)[0] == s.last(),
{
    assert(newest_first(newest_first(s)) =~= s);
}

/// Keeping one more item at the end appends it when it is kept.
pub proof fn lemma_kept_push<T>(s: Seq<T>, keep: Seq<bool>, x: T, b: bool)
    requires
        s.len() == keep.len(),
    ensures
        kept(s.push(x), keep.push(b)) == kept(s, keep) + kept(seq![x], seq![b]),
    decreases s.len(),
{
    if s.len() == 0 {
        assert(s.push(x) =~= seq![x]);
        assert(keep.push(b) =~= seq![b]);
        assert(kept(s, keep) =~= Seq::<T>::empty());
        assert(kept(s.push(x), keep.push(b)) =~= kept(s, keep) + kept(seq![x], seq![b]));
    } else {
        lemma_kept_push(s.drop_first(), keep.drop_first(), x, b);
        assert(s.push(x).drop_first() =~= s.drop_first().push(x));
        assert(keep.push(b).drop_first() =~= keep.drop_first().push(b));
        assert(kept(s.push(x), keep.push(b)) =~= kept(s, keep) + kept(seq![x], seq![b]));
    }
}

/// When every answer is false, nothing is kept.
pub proof fn lemma_kept_none<T>(s: Seq<T>, keep: Seq<bool>)
    requires
        s.len() == keep.len(),
        forall|i: int| 0 <= i < keep.len() ==> !keep[i],
    ensures
        kept(s, keep).len() == 0,
    decreases s.len(),
{
    if s.len() > 0 {
        lemma_kept_none(s.drop_first(), keep.drop_first());
    }
}

/// When every answer is true, everything is kept in place.
pub proof fn lemma_kept_all<T>(s: Seq<T>, keep: Seq<bool>)
    requires
        s.len() == keep.len(),
        forall|i: int| 0 <= i < keep.len() ==> keep[i],
    ensures
        kept(s, keep) == s,
    decreases s.len(),
{
    if s.len() > 0 {
        lemma_kept_all(s.drop_first(), keep.drop_first());
        assert(seq![s[0]] + s.drop_first() =~= s);
    }
}

/// What is kept is exactly the items answered true, in their order: the
/// result lists, in increasing order, the indices it takes its items from,
/// and every index answered true is among them.
pub proof fn lemma_kept_selects<T>(s: Seq<T>, keep: Seq<bool>) -> (idx: Seq<int>)
    requires
        s.len() == keep.len(),
    ensures
        idx.len() == kept(s, keep).len(),
        forall|j: int|
            #![trigger idx[j]]
            0 <= j < idx.len() ==> 0 <= idx[j] < s.len() && keep[idx[j]] && kept(s, keep)[j]
                == s[idx[j]],
        forall|j: int, k: int| 0 <= j < k < idx.len() ==> idx[j] < idx[k],
        forall|i: int| 0 <= i < s.len() && keep[i] ==> exists|j: int| 0 <= j < idx.len() && idx[j] == i,
    decreases s.len(),
{
    if s.len() == 0 {
        Seq::empty()
    } else {
        let s1 = s.drop_first();
        let k1 = keep.drop_first();
        let rest = lemma_kept_selects(s1, k1);
        let shifted = rest.map_values(|v: int| v + 1);
        let kr = kept(s1, k1);
        assert forall|i: int| 1 <= i < s.len() && keep[i] implies exists|j: int|
            0 <= j < shifted.len() && shifted[j] == i by {
            assert(k1[i - 1]);
            let j = choose|j: int| 0 <= j < rest.len() && rest[j] == i - 1;
            assert(shifted[j] == i);
        }
        if keep[0] {
            let idx = seq![0int] + shifted;
            assert forall|j: int| 0 <= j < idx.len() implies 0 <= #[trigger] idx[j] < s.len()
                && keep[idx[j]] && kept(s, keep)[j] == s[idx[j]] by {
                if j > 0 {
                    assert(idx[j] == rest[j - 1] + 1);
                    assert(kept(s, keep)[j] == kr[j - 1]);
                }
            }
            assert forall|i: int| 0 <= i < s.len() && keep[i] implies exists|j: int|
                0 <= j < idx.len() && idx[j] == i by {
                if i == 0 {
                    assert(idx[0] == 0);
                } else {
                    let j = choose|j: int| 0 <= j < shifted.len() && shifted[j] == i;
                    assert(idx[j + 1] == i);
                }
            }
            assert forall|j: int, k: int| 0 <= j < k < idx.len() implies idx[j] < idx[k] by {
                if j > 0 {
                    assert(rest[j - 1] < rest[k - 1]);
                } else {
                    assert(0 <= rest[k - 1]);
                }
            }
            idx
        } else {
            assert forall|j: int| 0 <= j < shifted.len() implies 0 <= #[trigger] shifted[j] < s.len()
                && keep[shifted[j]] && kept(s, keep)[j] == s[shifted[j]] by {
                assert(shifted[j] == rest[j] + 1);
            }
            assert forall|i: int| 0 <= i < s.len() && keep[i] implies exists|j: int|
                0 <= j < shifted.len() && shifted[j] == i by {
            }
            assert forall|j: int, k: int| 0 <= j < k < shifted.len() implies shifted[j] < shifted[k] by {
                assert(rest[j] < rest[k]);
            }
            shifted
        }
    }
}

} // verus!
