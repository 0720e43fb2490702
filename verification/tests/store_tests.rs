//! Behavior of the free-list-backed slot store.

use sousarc::domain::user::{UserData, UserId, UserKey};
use sousarc::store::{StandardStorage, StoreInsert};
use sousarc::traits::{IdKeySet, SousARCData, SousARCStorage, SousARCStorageMut};

fn user(bits: u128, name: &str) -> UserData {
    UserData {
        id_key: IdKeySet::new(UserId::from_bits(bits), UserKey::new(name.to_string())),
        works: Vec::new(),
        display_name: String::new(),
        introduction: String::new(),
        email: String::new(),
    }
}

#[test]
fn insert_assigns_slots_in_order() {
    let mut s: StandardStorage<UserData> = StandardStorage::new();
    assert!(matches!(s.insert(user(1, "a")), StoreInsert::Inserted(0)));
    assert!(matches!(s.insert(user(2, "b")), StoreInsert::Inserted(1)));
    assert!(matches!(s.insert(user(3, "c")), StoreInsert::Inserted(2)));
    assert_eq!(s.len(), 3);
}

#[test]
fn get_by_id_and_key() {
    let mut s: StandardStorage<UserData> = StandardStorage::new();
    s.insert(user(1, "alpha"));
    s.insert(user(2, "beta"));
    let a = s.get(UserId::from_bits(1)).expect("alpha is live");
    assert_eq!(a.id(), UserId::from_bits(1));
    let b = s.get_by_key(&UserKey::new("beta".to_string())).expect("beta is live");
    assert_eq!(b.id(), UserId::from_bits(2));
    assert!(s.get(UserId::from_bits(9)).is_none());
    assert!(s.get_by_key(&UserKey::new("gamma".to_string())).is_none());
}

#[test]
fn reverse_lookups() {
    let mut s: StandardStorage<UserData> = StandardStorage::new();
    s.insert(user(1, "alpha"));
    assert_eq!(s.id(&UserKey::new("alpha".to_string())), Some(UserId::from_bits(1)));
    assert_eq!(s.id(&UserKey::new("missing".to_string())), None);
    let k = s.key(UserId::from_bits(1)).expect("alpha has a key");
    assert_eq!(k.as_str(), "alpha");
    assert!(s.key(UserId::from_bits(9)).is_none());
}

#[test]
fn remove_returns_record_and_tolerates_absence() {
    let mut s: StandardStorage<UserData> = StandardStorage::new();
    s.insert(user(1, "a"));
    let removed = s.remove(UserId::from_bits(1)).expect("was live");
    assert_eq!(removed.id(), UserId::from_bits(1));
    assert!(s.remove(UserId::from_bits(1)).is_none());
    assert!(s.get(UserId::from_bits(1)).is_none());
    assert_eq!(s.len(), 0);
}

#[test]
fn remove_by_slot_and_out_of_range() {
    let mut s: StandardStorage<UserData> = StandardStorage::new();
    s.insert(user(1, "a"));
    assert!(s.remove_by_slot(5).is_none());
    let removed = s.remove_by_slot(0).expect("slot 0 was live");
    assert_eq!(removed.id(), UserId::from_bits(1));
    assert!(s.remove_by_slot(0).is_none());
}

#[test]
fn removed_slot_is_reused_first() {
    // removing the entry at slot 1 and then inserting, with no other
    // inserts in between, reuses slot 1
    let mut s: StandardStorage<UserData> = StandardStorage::new();
    s.insert(user(1, "a"));
    s.insert(user(2, "b"));
    s.insert(user(3, "c"));
    s.remove(UserId::from_bits(2));
    assert!(matches!(s.insert(user(4, "d")), StoreInsert::Inserted(1)));
    // the free list hands out slots oldest first
    s.remove(UserId::from_bits(1));
    s.remove(UserId::from_bits(3));
    assert!(matches!(s.insert(user(5, "e")), StoreInsert::Inserted(0)));
    assert!(matches!(s.insert(user(6, "f")), StoreInsert::Inserted(2)));
}

#[test]
fn replace_by_live_id_keeps_slot_and_updates_key() {
    let mut s: StandardStorage<UserData> = StandardStorage::new();
    s.insert(user(1, "old-name"));
    let r = s.insert(user(1, "new-name"));
    match r {
        StoreInsert::Replaced(old) => {
            assert_eq!(old.key().as_str(), "old-name");
        },
        _ => panic!("expected a replace"),
    }
    assert_eq!(s.len(), 1);
    assert!(s.get_by_key(&UserKey::new("old-name".to_string())).is_none());
    let found = s.get_by_key(&UserKey::new("new-name".to_string())).expect("re-keyed");
    assert_eq!(found.id(), UserId::from_bits(1));
}

#[test]
fn key_bound_to_other_id_is_rejected() {
    let mut s: StandardStorage<UserData> = StandardStorage::new();
    s.insert(user(1, "taken"));
    match s.insert(user(2, "taken")) {
        StoreInsert::KeyInUse(back) => {
            assert_eq!(back.id(), UserId::from_bits(2));
        },
        _ => panic!("expected a key rejection"),
    }
    // a replace that would steal another entry's key is rejected too
    s.insert(user(2, "other"));
    assert!(matches!(s.insert(user(2, "taken")), StoreInsert::KeyInUse(_)));
    assert_eq!(s.len(), 2);
}

#[test]
fn iterate_skips_empty_slots() {
    let mut s: StandardStorage<UserData> = StandardStorage::new();
    s.insert(user(1, "a"));
    s.insert(user(2, "b"));
    s.insert(user(3, "c"));
    s.remove(UserId::from_bits(2));
    let names: Vec<String> = s.iterate().iter().map(|d| d.key().as_str().to_string()).collect();
    assert_eq!(names, vec!["a".to_string(), "c".to_string()]);
}

#[test]
fn get_mut_edits_payload_in_place() {
    let mut s: StandardStorage<UserData> = StandardStorage::new();
    s.insert(user(1, "a"));
    s.get_mut(UserId::from_bits(1)).expect("live").display_name = "Display".to_string();
    assert_eq!(s.get(UserId::from_bits(1)).unwrap().display_name, "Display");
    assert!(s.get_mut(UserId::from_bits(9)).is_none());
    // the trait-level mutable accessor reaches the same record
    let via_trait = SousARCStorageMut::get_mut(&mut s, UserId::from_bits(1)).expect("live");
    via_trait.introduction = "hello".to_string();
    assert_eq!(s.get(UserId::from_bits(1)).unwrap().introduction, "hello");
}

#[test]
fn count_matches_len() {
    let mut s: StandardStorage<UserData> = StandardStorage::new();
    s.insert(user(1, "a"));
    s.insert(user(2, "b"));
    assert_eq!(s.count(), 2);
    s.remove(UserId::from_bits(1));
    assert_eq!(s.count(), 1);
    assert_eq!(s.len(), 1);
}

#[test]
fn get_data_exposes_slot_table() {
    let mut s: StandardStorage<UserData> = StandardStorage::new();
    s.insert(user(1, "a"));
    s.insert(user(2, "b"));
    s.remove(UserId::from_bits(1));
    let table = s.get_data();
    assert_eq!(table.len(), 2);
    assert!(table[0].is_none());
    assert!(table[1].is_some());
}
