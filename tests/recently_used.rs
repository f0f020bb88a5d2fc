use recently_used::{RecentlyUsedList, DEFAULT_CAPACITY};

fn contents(ru: &RecentlyUsedList<i32>) -> Vec<i32> {
    ru.iter().into_iter().rev().copied().collect()
}

#[test]
fn test() {
    let mut ru = RecentlyUsedList::default();
    ru.use_(4);
    ru.use_(8);
    assert_eq!(ru.most_recent(), Some(&8));
    ru.use_(4);
    assert_eq!(ru.most_recent(), Some(&4));
    assert_eq!(ru.len(), 2);
    for i in 0..10 {
        ru.use_(i);
    }
    assert_eq!(ru.len(), 7);
    assert_eq!(ru.most_recent(), Some(&9));
    let items: Vec<_> = ru.iter().into_iter().collect();
    assert_eq!(items[0], &9);
    assert_eq!(items[6], &3);
}

#[test]
fn default_is_empty_with_capacity_seven() {
    let ru: RecentlyUsedList<i32> = RecentlyUsedList::default();
    assert_eq!(ru.capacity(), 7);
    assert_eq!(DEFAULT_CAPACITY, 7);
    assert!(ru.is_empty());
    assert_eq!(ru.len(), 0);
    assert_eq!(ru.most_recent(), None);
    assert!(ru.iter().is_empty());
}

#[test]
fn repeated_use_keeps_items_distinct() {
    let mut ru = RecentlyUsedList::with_capacity(5);
    for x in [1, 2, 1, 3, 2, 1, 1, 3] {
        ru.use_(x);
        let c = contents(&ru);
        for i in 0..c.len() {
            for j in 0..c.len() {
                if i != j {
                    assert_ne!(c[i], c[j]);
                }
            }
        }
        assert_eq!(ru.most_recent(), Some(&x));
    }
    assert_eq!(contents(&ru), vec![2, 1, 3]);
}

#[test]
fn length_never_exceeds_capacity() {
    let mut ru = RecentlyUsedList::with_capacity(3);
    for x in 0..20 {
        ru.use_(x % 7);
        assert!(ru.len() <= ru.capacity());
    }
    assert_eq!(ru.len(), 3);
}

#[test]
fn promotion_moves_item_to_back() {
    let mut ru = RecentlyUsedList::with_capacity(4);
    for x in [10, 20, 30, 40] {
        ru.use_(x);
    }
    ru.use_(20);
    assert_eq!(contents(&ru), vec![10, 30, 40, 20]);
    assert_eq!(ru.len(), 4);
}

#[test]
fn eviction_drops_least_recent() {
    let mut ru = RecentlyUsedList::with_capacity(3);
    for x in [1, 2, 3] {
        ru.use_(x);
    }
    ru.use_(4);
    assert_eq!(contents(&ru), vec![2, 3, 4]);
    ru.use_(2);
    ru.use_(5);
    assert_eq!(contents(&ru), vec![4, 2, 5]);
}

#[test]
fn iteration_is_reverse_of_storage() {
    let mut ru = RecentlyUsedList::with_capacity(3);
    for x in [1, 2, 3, 4] {
        ru.use_(x);
    }
    let items: Vec<i32> = ru.iter().into_iter().copied().collect();
    assert_eq!(items, vec![4, 3, 2]);
    assert_eq!(Some(ru.iter()[0]), ru.most_recent());
}

#[test]
fn shrinking_capacity_is_lazy() {
    let mut ru = RecentlyUsedList::with_capacity(5);
    for x in [1, 2, 3, 4, 5] {
        ru.use_(x);
    }
    ru.set_capacity(2);
    assert_eq!(ru.capacity(), 2);
    assert_eq!(contents(&ru), vec![1, 2, 3, 4, 5]);
    ru.use_(6);
    assert_eq!(contents(&ru), vec![2, 3, 4, 5, 6]);
    ru.use_(4);
    assert_eq!(contents(&ru), vec![3, 5, 6, 4]);
}

#[test]
fn zero_capacity_stays_empty() {
    let mut ru = RecentlyUsedList::with_capacity(0);
    for x in [1, 2, 2, 3] {
        ru.use_(x);
        assert_eq!(ru.len(), 0);
        assert_eq!(ru.most_recent(), None);
    }
}

#[test]
fn remove_absent_and_present() {
    let mut ru = RecentlyUsedList::with_capacity(5);
    for x in [1, 2, 3, 4] {
        ru.use_(x);
    }
    ru.remove(9);
    assert_eq!(contents(&ru), vec![1, 2, 3, 4]);
    ru.remove(2);
    assert_eq!(contents(&ru), vec![1, 3, 4]);
    assert_eq!(ru.capacity(), 5);
}

#[test]
fn retain_keeps_order_of_survivors() {
    let mut ru = RecentlyUsedList::with_capacity(6);
    for x in [1, 2, 3, 4, 5, 6] {
        ru.use_(x);
    }
    ru.retain(|x| *x % 2 == 0);
    assert_eq!(contents(&ru), vec![2, 4, 6]);
}

#[test]
fn retain_visits_most_recent_first_and_sees_changes() {
    let mut ru = RecentlyUsedList::with_capacity(4);
    for x in [1, 2, 3] {
        ru.use_(x);
    }
    let mut seen = Vec::new();
    ru.retain(|x| {
        seen.push(*x);
        *x *= 10;
        *x != 20
    });
    assert_eq!(seen, vec![3, 2, 1]);
    assert_eq!(contents(&ru), vec![10, 30]);
}

#[test]
fn retain_false_empties_list() {
    let mut ru = RecentlyUsedList::with_capacity(4);
    for x in [1, 2, 3, 4] {
        ru.use_(x);
    }
    ru.retain(|_| false);
    assert!(ru.is_empty());
    ru.retain(|_| false);
    assert!(ru.is_empty());
}

#[test]
fn parts_round_trip() {
    let ru = RecentlyUsedList::from_parts(vec![3, 1, 2], 4);
    assert_eq!(ru.len(), 3);
    assert_eq!(ru.most_recent(), Some(&2));
    let (items, cap) = ru.into_parts();
    assert_eq!(items, vec![3, 1, 2]);
    assert_eq!(cap, 4);
}
