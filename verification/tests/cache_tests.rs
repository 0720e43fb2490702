//! Behavior of the adaptive-replacement cache and the capacity-mode wrapper.

use sousarc::cache::{Cache, CacheState, ResizableCache, ARC};

#[test]
fn arc_promotion_sequence() {
    // capacity 4, threshold 4/2 = 2: touching three new ids overflows the
    // recent list and evicts the oldest; re-touching promotes to frequent
    let mut arc: ARC<usize> = ARC::new(4);
    assert_eq!(arc.touch(1), None);
    assert_eq!(arc.touch(2), None);
    assert_eq!(arc.touch(3), Some(1));
    let (recent, frequent) = arc.indices();
    assert_eq!(recent, vec![3, 2]);
    assert_eq!(frequent, Vec::<usize>::new());
    assert_eq!(arc.touch(2), None);
    let (recent, frequent) = arc.indices();
    assert_eq!(recent, vec![3]);
    assert_eq!(frequent, vec![2]);
}

#[test]
fn arc_frequent_rerank() {
    let mut arc: ARC<usize> = ARC::new(4);
    arc.touch(1);
    arc.touch(1); // promote to frequent
    arc.touch(2);
    arc.touch(2); // promote to frequent: frequent = [2, 1]
    let (recent, frequent) = arc.indices();
    assert_eq!(recent, Vec::<usize>::new());
    assert_eq!(frequent, vec![2, 1]);
    // re-touching 1 moves it to the front of frequent; the list is at the
    // threshold, so no eviction
    assert_eq!(arc.touch(1), None);
    let (_, frequent) = arc.indices();
    assert_eq!(frequent, vec![1, 2]);
}

#[test]
fn arc_frequent_overflow_evicts_back() {
    let mut arc: ARC<usize> = ARC::new(4);
    for i in 1..=3usize {
        arc.touch(i);
        arc.touch(i); // promote each, frequent grows past the threshold
    }
    let (_, frequent) = arc.indices();
    assert_eq!(frequent, vec![3, 2, 1]);
    // a frequent hit re-ranks and now sheds the back element
    assert_eq!(arc.touch(3), Some(1));
    let (_, frequent) = arc.indices();
    assert_eq!(frequent, vec![3, 2]);
}

#[test]
fn arc_remove_from_either_list() {
    let mut arc: ARC<usize> = ARC::new(6);
    arc.touch(1);
    arc.touch(2);
    arc.touch(2); // 2 promoted to frequent
    assert_eq!(arc.remove(2), Some(2));
    assert_eq!(arc.remove(1), Some(1));
    assert_eq!(arc.remove(7), None);
    assert_eq!(arc.len(), 0);
}

#[test]
fn arc_len_and_indices_iter() {
    let mut arc: ARC<usize> = ARC::new(8);
    arc.touch(5);
    arc.touch(6);
    arc.touch(5); // promote 5
    assert_eq!(arc.len(), 2);
    // enumeration order: recent from the front, then frequent
    assert_eq!(arc.indices_iter(), vec![6, 5]);
}

#[test]
fn arc_cache_trait_get_and_capacity() {
    let mut arc: ARC<usize> = ARC::new(8);
    arc.touch(5);
    arc.touch(6);
    arc.touch(5); // recent = [6], frequent = [5]
    assert_eq!(Cache::capacity(&arc), 8);
    assert_eq!(Cache::get(&arc, 0), Some(&6));
    assert_eq!(Cache::get(&arc, 1), Some(&5));
    assert_eq!(Cache::get(&arc, 2), None);
}

#[test]
fn arc_resize_rejects_zero() {
    let mut arc: ARC<usize> = ARC::new(4);
    arc.touch(1);
    arc.touch(2);
    assert!(!arc.resize(0));
    // capacity and list contents unchanged
    assert_eq!(arc.cache_capacity, 4);
    let (recent, frequent) = arc.indices();
    assert_eq!(recent, vec![2, 1]);
    assert_eq!(frequent, Vec::<usize>::new());
}

#[test]
fn arc_resize_trims_from_back() {
    let mut arc: ARC<usize> = ARC::new(10);
    for i in 1..=5usize {
        arc.touch(i);
    }
    let (recent, _) = arc.indices();
    assert_eq!(recent, vec![5, 4, 3, 2, 1]);
    // new capacity 2: each list trimmed down to 2/2 + 1 = 2 entries
    assert!(arc.resize(2));
    assert_eq!(arc.cache_capacity, 2);
    let (recent, _) = arc.indices();
    assert_eq!(recent, vec![5, 4]);
}

#[test]
fn arc_resize_via_trait() {
    let mut arc: ARC<usize> = ARC::new(4);
    assert!(!ResizableCache::resize(&mut arc, 0));
    assert!(ResizableCache::resize(&mut arc, 6));
    assert_eq!(Cache::capacity(&arc), 6);
}

#[test]
fn free_mode_cache_is_inert() {
    let mut cache = CacheState::new(None);
    assert_eq!(cache.touch(3), None);
    assert_eq!(cache.touch(3), None);
    assert_eq!(cache.remove(3), None);
    assert!(!cache.resize(5));
}

#[test]
fn limited_mode_cache_forwards() {
    let mut cache = CacheState::new(Some(2));
    assert_eq!(cache.touch(0), None);
    // threshold 2/2 = 1: the second new index pushes out the first
    assert_eq!(cache.touch(1), Some(0));
    assert_eq!(cache.remove(1), Some(1));
    assert!(cache.resize(4));
}
