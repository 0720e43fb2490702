//! Behavior of the storage engine: capacity modes, eviction cascade, and
//! the result taxonomy.

use sousarc::domain::user::{UserData, UserId, UserKey};
use sousarc::engine::{InsertResult, StorageEngine};
use sousarc::traits::{IdKeySet, SousARCData};

fn user(bits: u128, name: &str) -> UserData {
    UserData {
        id_key: IdKeySet::new(UserId::from_bits(bits), UserKey::new(name.to_string())),
        works: Vec::new(),
        display_name: String::new(),
        introduction: String::new(),
        email: String::new(),
    }
}

#[test]
fn free_mode_never_evicts() {
    let mut e: StorageEngine<UserData> = StorageEngine::new(None);
    for i in 0..50u128 {
        let r = e.insert(user(i, &format!("user-{}", i)));
        assert!(matches!(r, InsertResult::Inserted(_)));
    }
    assert_eq!(e.len(), 50);
    for i in 0..50u128 {
        assert!(e.get_by_id(UserId::from_bits(i)).is_some());
    }
}

#[test]
fn eviction_cascade_discards_victim() {
    // capacity 2, recent threshold 1: the second fresh insert evicts the
    // first, which is synchronously removed from the store
    let mut e: StorageEngine<UserData> = StorageEngine::new(Some(2));
    assert!(matches!(e.insert(user(1, "first")), InsertResult::Inserted(0)));
    match e.insert(user(2, "second")) {
        InsertResult::OutOfCache(victim) => {
            assert_eq!(victim.id(), UserId::from_bits(1));
            assert_eq!(victim.key().as_str(), "first");
        },
        _ => panic!("expected an eviction"),
    }
    assert!(e.get_by_id(UserId::from_bits(1)).is_none());
    assert!(e.get_by_id(UserId::from_bits(2)).is_some());
    assert_eq!(e.len(), 1);
}

#[test]
fn replace_never_evicts() {
    // inserting with a live id returns Replaced, never OutOfCache,
    // regardless of cache fill level
    let mut e: StorageEngine<UserData> = StorageEngine::new(Some(2));
    e.insert(user(1, "a"));
    // the store is at its effective recent-side limit now
    match e.insert(user(1, "a-renamed")) {
        InsertResult::Replaced(old) => assert_eq!(old.key().as_str(), "a"),
        _ => panic!("expected a replace"),
    }
    match e.insert(user(1, "a-again")) {
        InsertResult::Replaced(old) => assert_eq!(old.key().as_str(), "a-renamed"),
        _ => panic!("expected a replace"),
    }
    assert_eq!(e.len(), 1);
}

#[test]
fn key_in_use_is_handed_back() {
    let mut e: StorageEngine<UserData> = StorageEngine::new(None);
    e.insert(user(1, "taken"));
    match e.insert(user(2, "taken")) {
        InsertResult::KeyInUse(back) => assert_eq!(back.id(), UserId::from_bits(2)),
        _ => panic!("expected a key rejection"),
    }
    assert_eq!(e.len(), 1);
}

#[test]
fn reads_promote_and_keep_entries() {
    // capacity 4: reads promote entries into the frequent list, letting the
    // store hold more than the recent threshold
    let mut e: StorageEngine<UserData> = StorageEngine::new(Some(4));
    e.insert(user(1, "a"));
    assert!(e.get_by_id(UserId::from_bits(1)).is_some()); // promote 1
    e.insert(user(2, "b"));
    assert!(e.get_by_id(UserId::from_bits(2)).is_some()); // promote 2
    assert!(matches!(e.insert(user(3, "c")), InsertResult::Inserted(_)));
    assert_eq!(e.len(), 3);
    assert!(e.get_by_key(&UserKey::new("a".to_string())).is_some());
    assert!(e.get_by_key(&UserKey::new("missing".to_string())).is_none());
}

#[test]
fn remove_by_id_and_slot() {
    let mut e: StorageEngine<UserData> = StorageEngine::new(Some(4));
    e.insert(user(1, "a"));
    e.insert(user(2, "b"));
    let removed = e.remove_by_id(UserId::from_bits(1)).expect("live");
    assert_eq!(removed.key().as_str(), "a");
    assert!(e.remove_by_id(UserId::from_bits(1)).is_none());
    let removed = e.remove_by_slot(1).expect("slot 1 held b");
    assert_eq!(removed.key().as_str(), "b");
    assert!(e.remove_by_slot(1).is_none());
    assert_eq!(e.len(), 0);
}

#[test]
fn engine_resize_rejects_zero_and_free_mode() {
    let mut e: StorageEngine<UserData> = StorageEngine::new(Some(4));
    e.insert(user(1, "a"));
    assert!(!e.resize(0));
    assert!(e.get_by_id(UserId::from_bits(1)).is_some());
    assert!(e.resize(8));
    let mut f: StorageEngine<UserData> = StorageEngine::new(None);
    assert!(!f.resize(8));
}

#[test]
fn engine_iterate_lists_live_records() {
    let mut e: StorageEngine<UserData> = StorageEngine::new(None);
    e.insert(user(1, "a"));
    e.insert(user(2, "b"));
    e.remove_by_id(UserId::from_bits(1));
    let names: Vec<String> = e.iterate().iter().map(|d| d.key().as_str().to_string()).collect();
    assert_eq!(names, vec!["b".to_string()]);
}

#[test]
fn tiny_capacity_evicts_the_new_record() {
    // capacity 1: the recent threshold is 0, so the inserted record itself
    // is the victim; the insert reports it as OutOfCache
    let mut e: StorageEngine<UserData> = StorageEngine::new(Some(1));
    match e.insert(user(1, "flash")) {
        InsertResult::OutOfCache(victim) => assert_eq!(victim.id(), UserId::from_bits(1)),
        _ => panic!("expected the new record back"),
    }
    assert_eq!(e.len(), 0);
}
