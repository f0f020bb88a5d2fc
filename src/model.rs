//! The mathematical model of a recently used list.
use vstd::prelude::*;
use vstd::std_specs::cmp::PartialEqSpec;

verus! {

/// What a list holds: its items, least recently used first, and its capacity.
pub struct ListModel<T> {
    pub items: Seq<T>,
    pub capacity: nat,
}

/// The first index at or after `k` whose item equals `x`.
pub open spec fn find_from<T: PartialEq>(s: Seq<T>, x: T, k: int) -> Option<int>
    decreases s.len() - k,
{
    if k < 0 || k >= s.len() {
        None
    } else if s[k].eq_spec(&x) {
        Some(k)
    } else {
        find_from(s, x, k + 1)
    }
}

/// The first index whose item equals `x`.
pub open spec fn position_of<T: PartialEq>(s: Seq<T>, x: T) -> Option<int> {
    find_from(s, x, 0)
}

/// `s` with its first item equal to `x` taken out, if there is one.
pub open spec fn without<T: PartialEq>(s: Seq<T>, x: T) -> Seq<T> {
    match position_of(s, x) {
        Some(p) => s.remove(p),
        None => s,
    }
}

/// No two items at different places compare equal.
pub open spec fn distinct<T: PartialEq>(s: Seq<T>) -> bool {
    forall|i: int, j: int|
        #![trigger s[i], s[j]]
        0 <= i < s.len() && 0 <= j < s.len() && i != j ==> !s[i].eq_spec(&s[j])
}

/// The items of `s`, last one first.
pub open spec fn newest_first<T>(s: Seq<T>) -> Seq<T> {
    Seq::new(s.len(), |i: int| s[s.len() - 1 - i])
}

/// The items `s[i]` with `keep[i]` true, in their order in `s`.
pub open spec fn kept<T>(s: Seq<T>, keep: Seq<bool>) -> Seq<T>
    decreases s.len(),
{
    if s.len() == 0 {
        Seq::empty()
    } else {
        let rest = kept(s.drop_first(), keep.drop_first());
        if keep[0] {
            seq![s[0]] + rest
        } else {
            rest
        }
    }
}

impl<T> ListModel<T> {
    /// The same list with its capacity set to `cap`.
    pub open spec fn resized(self, cap: nat) -> ListModel<T> {
        ListModel { items: self.items, capacity: cap }
    }
}

impl<T: PartialEq> ListModel<T> {
    /// The list after `x` has been used.
    pub open spec fn used(self, x: T) -> ListModel<T> {
        let grown = without(self.items, x).push(x);
        ListModel {
            items: if grown.len() > self.capacity {
                grown.drop_first()
            } else {
                grown
            },
            capacity: self.capacity,
        }
    }

    /// The list after `x` has been removed.
    pub open spec fn removed(self, x: T) -> ListModel<T> {
        ListModel { items: without(self.items, x), capacity: self.capacity }
    }
}

} // verus!
