//! A bounded list of distinct items kept in order of use.
//!
//! Items are stored from least recently used (index 0) to most recently used
//! (last index). Using an item moves it to the back; once the list grows past
//! its capacity, the front item is evicted.
use vstd::prelude::*;
use vstd::std_specs::cmp::PartialEqSpec;

pub mod model;
pub mod laws;

use crate::model::{ListModel, kept, newest_first, position_of};

verus! {

/// Capacity of a list made by `default`.
pub const DEFAULT_CAPACITY: usize = 7;

/// A bounded list of distinct items, ordered from least to most recently used.
pub struct RecentlyUsedList<T> {
    items: Vec<T>,
    capacity: usize,
}

impl<T> View for RecentlyUsedList<T> {
    type V = ListModel<T>;

    closed spec fn view(&self) -> ListModel<T> {
        ListModel { items: self.items@, capacity: self.capacity as nat }
    }
}

impl<T> Default for RecentlyUsedList<T> {
    fn default() -> (r: Self)
        ensures
            r@.items.len() == 0,
            r@.capacity == DEFAULT_CAPACITY,
    {
        RecentlyUsedList { items: Vec::new(), capacity: DEFAULT_CAPACITY }
    }
}

impl<T: PartialEq> RecentlyUsedList<T> {
    /// Index of the first stored item equal to `item`.
    fn position(&self, item: &T) -> (r: Option<usize>)
        ensures
            r matches Some(p) ==> p < self@.items.len(),
            T::obeys_eq_spec() ==> match r {
                Some(p) => position_of(self@.items, *item) == Some(p as int),
                None => position_of(self@.items, *item) is None,
            },
    {
        let mut i: usize = 0;
        while i < self.items.len()
            invariant
                i <= self.items.len(),
                T::obeys_eq_spec() ==> position_of(self@.items, *item) == model::find_from(
                    self@.items,
                    *item,
                    i as int,
                ),
            decreases self.items.len() - i,
        {
            if self.items[i].eq(item) {
                return Some(i);
            }
            i += 1;
        }
        None
    }

    /// Marks `item` as the most recently used one.
    ///
    /// An equal item already stored is taken out first, so the list holds no
    /// duplicate; if the list then exceeds its capacity, its least recently
    /// used item is evicted.
    pub fn use_(&mut self, item: T)
        ensures
            T::obeys_eq_spec() ==> final(self)@ == old(self)@.used(item),
            vstd::laws_eq::obeys_eq::<T>() && model::distinct(old(self)@.items) ==> model::distinct(
                final(self)@.items,
            ),
            old(self)@.items.len() <= old(self)@.capacity ==> final(self)@.items.len()
                <= final(self)@.capacity,
            final(self)@.items.len() > 0 ==> final(self)@.items.last() == item,
            final(self)@.capacity == old(self)@.capacity,
    {
        let pos = self.position(&item);
        if let Some(p) = pos {
            self.items.remove(p);
        }
        self.items.push(item);
        if self.items.len() > self.capacity {
            self.items.remove(0);
        }
        proof {
            if vstd::laws_eq::obeys_eq::<T>() && model::distinct(old(self)@.items) {
                laws::lemma_use_keeps_distinct(old(self)@, item);
            }
        }
    }

    /// Removes the stored item equal to `item`, if there is one.
    pub fn remove(&mut self, item: T)
        ensures
            T::obeys_eq_spec() ==> final(self)@ == old(self)@.removed(item),
            final(self)@.capacity == old(self)@.capacity,
    {
        let pos = self.position(&item);
        if let Some(p) = pos {
            self.items.remove(p);
        }
    }
}

impl<T> RecentlyUsedList<T> {
    /// An empty list that holds at most `cap` items.
    pub fn with_capacity(cap: usize) -> (r: Self)
        ensures
            r@.items.len() == 0,
            r@.capacity == cap,
    {
        RecentlyUsedList { items: Vec::new(), capacity: cap }
    }

    /// A list holding `items`, least recently used first, with capacity `capacity`.
    pub fn from_parts(items: Vec<T>, capacity: usize) -> (r: Self)
        ensures
            r@.items == items@,
            r@.capacity == capacity,
    {
        RecentlyUsedList { items, capacity }
    }

    /// The stored items, least recently used first, and the capacity.
    pub fn into_parts(self) -> (r: (Vec<T>, usize))
        ensures
            r.0@ == self@.items,
            r.1 == self@.capacity,
    {
        (self.items, self.capacity)
    }

    /// The most recently used item, if any.
    pub fn most_recent(&self) -> (r: Option<&T>)
        ensures
            match r {
                Some(x) => self@.items.len() > 0 && *x == self@.items.last(),
                None => self@.items.len() == 0,
            },
    {
        let n = self.items.len();
        if n == 0 {
            None
        } else {
            Some(&self.items[n - 1])
        }
    }

    /// The number of stored items.
    pub fn len(&self) -> (r: usize)
        ensures
            r == self@.items.len(),
    {
        self.items.len()
    }

    /// Whether no item is stored.
    pub fn is_empty(&self) -> (r: bool)
        ensures
            r == (self@.items.len() == 0),
    {
        self.len() == 0
    }

    /// The stored items, most recently used first.
    pub fn iter(&self) -> (r: Vec<&T>)
        ensures
            r@.len() == self@.items.len(),
            forall|i: int| 0 <= i < r@.len() ==> *r@[i] == newest_first(self@.items)[i],
    {
        let mut r: Vec<&T> = Vec::new();
        let mut left: usize = self.items.len();
        while left > 0
            invariant
                left <= self.items.len(),
                r@.len() == self.items.len() - left,
                forall|i: int| 0 <= i < r@.len() ==> *r@[i] == newest_first(self@.items)[i],
            decreases left,
        {
            left -= 1;
            r.push(&self.items[left]);
        }
        r
    }

    /// The largest number of items a use may leave in the list.
    pub fn capacity(&self) -> (r: usize)
        ensures
            r == self@.capacity,
    {
        self.capacity
    }

    /// Sets the capacity; items beyond it stay until a later use evicts them.
    pub fn set_capacity(&mut self, cap: usize)
        ensures
            final(self)@ == old(self)@.resized(cap as nat),
    {
        self.capacity = cap;
    }

    /// Keeps only the items for which `f` answers true.
    ///
    /// `f` sees the items from the most recently used to the least, and may
    /// change an item before it answers; the kept items stay in their order.
    pub fn retain<F: FnMut(&mut T) -> bool>(&mut self, f: F)
        requires
            forall|m: &mut T| call_requires(f, (m,)),
        ensures
            final(self)@.capacity == old(self)@.capacity,
            exists|calls: Seq<&mut T>, after: Seq<T>, keep: Seq<bool>|
                #![trigger kept(after, keep), calls.len()]
                {
                    &&& calls.len() == old(self)@.items.len()
                    &&& after.len() == calls.len()
                    &&& keep.len() == calls.len()
                    &&& final(self)@.items == kept(after, keep)
                    &&& forall|i: int|
                        #![trigger calls[i]]
                        0 <= i < calls.len() ==> {
                            &&& call_ensures(f, (calls[i],), keep[i])
                            &&& *calls[i] == old(self)@.items[i]
                            &&& mut_ref_future(calls[i]) == after[i]
                        }
                },
    {
        let n = self.items.len();
        let _ = self.retain_below(f, n);
        proof {
            assert(old(self)@.items.subrange(0, n as int) =~= old(self)@.items);
        }
    }

    /// Applies `retain` to the first `left` items, leaving the others as they are.
    fn retain_below<F: FnMut(&mut T) -> bool>(&mut self, mut f: F, left: usize) -> (r: F)
        requires
            left <= old(self)@.items.len(),
            forall|m: &mut T| call_requires(f, (m,)),
        ensures
            r == f,
            final(self)@.capacity == old(self)@.capacity,
            exists|calls: Seq<&mut T>, after: Seq<T>, keep: Seq<bool>|
                #![trigger kept(after, keep), calls.len()]
                {
                    &&& calls.len() == left
                    &&& after.len() == calls.len()
                    &&& keep.len() == calls.len()
                    &&& final(self)@.items == kept(after, keep) + old(self)@.items.subrange(
                        left as int,
                        old(self)@.items.len() as int,
                    )
                    &&& forall|i: int|
                        #![trigger calls[i]]
                        0 <= i < calls.len() ==> {
                            &&& call_ensures(f, (calls[i],), keep[i])
                            &&& *calls[i] == old(self)@.items[i]
                            &&& mut_ref_future(calls[i]) == after[i]
                        }
                },
        decreases left,
    {
        if left == 0 {
            proof {
                let e: Seq<T> = Seq::empty();
                let c: Seq<&mut T> = Seq::empty();
                let k: Seq<bool> = Seq::empty();
                assert(self.items@ =~= kept(e, k) + old(self)@.items.subrange(
                    0,
                    old(self)@.items.len() as int,
                ));
                assert(c.len() == 0);
            }
            return f;
        }
        let idx: usize = left - 1;
        let mut item = self.items.remove(idx);
        let ghost before = item;
        let keep_it = f(&mut item);
        assert(exists|m: &mut T|
            call_ensures(f, (m,), keep_it) && *m == before && mut_ref_future(m) == item);
        if keep_it {
            self.items.insert(idx, item);
        }
        let ghost mid = self.items@;
        let r = self.retain_below(f, idx);
        proof {
            let call = choose|m: &mut T|
                call_ensures(f, (m,), keep_it) && *m == before && mut_ref_future(m) == item;
            let (calls0, after0, keep0) = choose|calls: Seq<&mut T>, after: Seq<T>, keep: Seq<bool>|
                {
                    &&& calls.len() == idx
                    &&& after.len() == calls.len()
                    &&& keep.len() == calls.len()
                    &&& self.items@ == kept(after, keep) + mid.subrange(idx as int, mid.len() as int)
                    &&& forall|i: int|
                        #![trigger calls[i]]
                        0 <= i < calls.len() ==> {
                            &&& call_ensures(f, (calls[i],), keep[i])
                            &&& *calls[i] == mid[i]
                            &&& mut_ref_future(calls[i]) == after[i]
                        }
                };
            let calls = calls0.push(call);
            let after = after0.push(item);
            let keep = keep0.push(keep_it);
            laws::lemma_kept_push(after0, keep0, item, keep_it);
            assert(seq![item].drop_first() =~= Seq::<T>::empty());
            assert(seq![keep_it].drop_first() =~= Seq::<bool>::empty());
            assert(kept(Seq::<T>::empty(), Seq::<bool>::empty()) =~= Seq::<T>::empty());
            assert(kept(seq![item], seq![keep_it]) =~= if keep_it {
                seq![item]
            } else {
                Seq::<T>::empty()
            });
            assert(mid.subrange(idx as int, mid.len() as int) =~= kept(seq![item], seq![keep_it])
                + old(self)@.items.subrange(left as int, old(self)@.items.len() as int));
            assert(self.items@ =~= kept(after, keep) + old(self)@.items.subrange(
                left as int,
                old(self)@.items.len() as int,
            ));
            assert forall|i: int| 0 <= i < calls.len() implies {
                &&& call_ensures(f, (#[trigger] calls[i],), keep[i])
                &&& *calls[i] == old(self)@.items[i]
                &&& mut_ref_future(calls[i]) == after[i]
            } by {
                if i < idx {
                    assert(calls[i] == calls0[i]);
                    assert(mid[i] == old(self)@.items[i]);
                }
            }
            assert(calls.len() == left);
        }
        r
    }
}

} // verus!
