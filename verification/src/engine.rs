//! The storage engine: a slot store combined with a bounded cache.
//!
//! Every insert and every successful read touches the cache. When a touch on
//! the insert path reports an eviction victim, the engine synchronously
//! removes that victim's slot from the store and surfaces its record as
//! `OutOfCache`. With a capacity below two, the victim may be the record
//! that was just inserted; the insert then still returns `OutOfCache`, now
//! carrying the new record itself.

use vstd::prelude::*;
use crate::cache::{arc_remove, arc_touch, lemma_arc_remove_wf, lemma_arc_touch_wf, ArcModel,
    CacheState};
use crate::store::{index_lookup, spec_insert, spec_remove_id, spec_remove_slot, lemma_insert_wf,
    lemma_remove_id_wf, lemma_remove_slot_wf, live_records, StandardStorage, StoreInsert,
    StoreModel};
use crate::traits::{SousARCData, SousARCId, SousARCKey};

verus! {

/// The outcome of an engine-level insert. `OutOfCache` signals that bounded
/// capacity discarded an existing entry: callers that need "nothing was ever
/// lost" semantics must check for it.
pub enum InsertResult<D> {
    Inserted(usize),
    Replaced(D),
    OutOfCache(D),
    KeyInUse(D),
}

/// A slot store under a capacity mode: `Free` never evicts; `Limited`
/// tracks slots in an adaptive-replacement cache and cascades evictions
/// into the store.
pub struct StorageEngine<D: SousARCData> {
    store: StandardStorage<D>,
    cache: CacheState,
}

impl<D: SousARCData> StorageEngine<D> {
    /// The store's model.
    pub closed spec fn store_view(&self) -> StoreModel<D> {
        self.store@
    }

    /// The cache's model; in `Free` mode two empty lists of capacity zero.
    pub closed spec fn cache_view(&self) -> ArcModel<usize> {
        self.cache.model()
    }

    /// Whether the engine runs without a capacity bound.
    pub closed spec fn free_mode(&self) -> bool {
        self.cache.is_free()
    }

    /// Well-formedness: store and cache are each well-formed, and the cache
    /// only tracks live slots.
    pub open spec fn wf(&self) -> bool {
        &&& self.store_view().wf()
        &&& self.cache_view().wf()
        &&& forall|x: usize|
            self.cache_view().tracks(x) ==> #[trigger] self.store_view().live(x as int)
    }

    /// An empty engine; `None` selects `Free` mode, `Some(c)` a bounded
    /// cache of capacity `c`.
    pub fn new(capacity: Option<usize>) -> (r: Self)
        ensures
            r.wf(),
            r.store_view().slots =~= Seq::<Option<D>>::empty(),
            r.store_view().ids =~= Seq::<(<D::Id as SousARCId>::V, usize)>::empty(),
            r.free_mode() == (capacity is None),
            capacity matches Some(c) ==> r.cache_view().capacity == c,
            r.cache_view().recent =~= Seq::<usize>::empty(),
            r.cache_view().frequent =~= Seq::<usize>::empty(),
    {
        let r = StorageEngine { store: StandardStorage::new(), cache: CacheState::new(capacity) };
        proof {
            assert forall|x: usize| r.cache_view().tracks(x) implies #[trigger] r.store_view().live(
                x as int,
            ) by {}
        }
        r
    }

    /// Inserts a record. A live id replaces in place and never evicts; a
    /// fresh record is admitted to the cache, and any eviction victim the
    /// cache reports is synchronously removed from the store and returned as
    /// `OutOfCache`; a key bound to a different live id is rejected.
    pub fn insert(&mut self, data: D) -> (r: InsertResult<D>)
        requires
            old(self).wf(),
            old(self).store_view().slots.len() < usize::MAX,
        ensures
            final(self).wf(),
            final(self).free_mode() == old(self).free_mode(),
            ({
                let m = old(self).store_view();
                let c = old(self).cache_view();
                let m1 = spec_insert(m, data).0;
                match spec_insert(m, data).1 {
                    StoreInsert::KeyInUse(dd) => r == InsertResult::KeyInUse(dd) && final(self).store_view() == m && final(self).cache_view() == c,
                    StoreInsert::Replaced(od) => {
                        let k = index_lookup(m.ids, data.spec_idv()).unwrap();
                        &&& r == InsertResult::Replaced(od)
                        &&& final(self).store_view() == m1
                        &&& (old(self).free_mode() ==> final(self).cache_view() == c)
                        &&& (!old(self).free_mode() ==> final(self).cache_view() == arc_touch(
                            c,
                            k,
                        ).0)
                    },
                    StoreInsert::Inserted(k) => {
                        if old(self).free_mode() {
                            r == InsertResult::<D>::Inserted(k) && final(self).store_view() == m1
                                && final(self).cache_view() == c
                        } else {
                            let c2 = arc_touch(c, k).0;
                            match arc_touch(c, k).1 {
                                None => r == InsertResult::<D>::Inserted(k) && final(self).store_view()
                                    == m1 && final(self).cache_view() == c2,
                                Some(vk) => {
                                    &&& r == InsertResult::OutOfCache(m1.at(vk as int))
                                    &&& final(self).store_view() == spec_remove_slot(m1, vk).0
                                    &&& final(self).cache_view() == c2
                                },
                            }
                        }
                    },
                }
            }),
            // a replace never evicts: a live id never yields `OutOfCache`
            index_lookup(old(self).store_view().ids, data.spec_idv()) is Some ==> !(r
                is OutOfCache) && !(r is Inserted),
    {
        let ghost m = self.store_view();
        let ghost c = self.cache_view();
        let ghost dsnap = data;
        proof {
            lemma_insert_wf(m, data);
        }
        let id_val = data.id();
        let kopt = self.store.find_slot(&id_val);
        match self.store.insert(data) {
            StoreInsert::KeyInUse(dd) => InsertResult::KeyInUse(dd),
            StoreInsert::Replaced(od) => {
                let k = match kopt {
                    Some(k) => k,
                    None => {
                        proof {
                            assert(false);
                        }
                        vstd::pervasive::unreached()
                    },
                };
                // spec: a replace touches the slot but never cascades; any
                // victim the cache reports here only leaves the bookkeeping
                self.cache.touch(k);
                proof {
                    if !old(self).free_mode() {
                        lemma_arc_touch_wf(c, k);
                    }
                    assert forall|x: usize| final(self).cache_view().tracks(x) implies
                        #[trigger] final(self).store_view().live(x as int) by {
                        if !old(self).free_mode() {
                            assert(c.tracks(x) || x == k);
                        }
                    };
                }
                InsertResult::Replaced(od)
            },
            StoreInsert::Inserted(k) => {
                let victim = self.cache.touch(k);
                proof {
                    lemma_arc_touch_wf(c, k);
                }
                match victim {
                    None => {
                        proof {
                            assert forall|x: usize| final(self).cache_view().tracks(x) implies
                                #[trigger] final(self).store_view().live(x as int) by {
                                assert(c.tracks(x) || x == k);
                            };
                        }
                        InsertResult::Inserted(k)
                    },
                    Some(vk) => {
                        proof {
                            assert(c.tracks(vk) || vk == k);
                            assert(self.store_view().live(vk as int));
                            lemma_remove_slot_wf(self.store_view(), vk);
                        }
                        let removed = self.store.remove_by_slot(vk);
                        match removed {
                            Some(victim_data) => {
                                proof {
                                    assert forall|x: usize|
                                        final(self).cache_view().tracks(x) implies #[trigger] final(self).store_view().live(x as int) by {
                                        assert(arc_touch(c, k).0.tracks(x));
                                        assert(x != vk);
                                        assert(c.tracks(x) || x == k);
                                    };
                                }
                                InsertResult::OutOfCache(victim_data)
                            },
                            None => {
                                proof {
                                    assert(false);
                                }
                                vstd::pervasive::unreached()
                            },
                        }
                    },
                }
            },
        }
    }

    /// The record with the given id; a hit is itself a cache-promoting
    /// access. The store's contents never change on a read.
    pub fn get_by_id(&mut self, id: D::Id) -> (r: Option<&D>)
        requires
            old(self).wf(),
        ensures
            final(self).wf(),
            final(self).store_view() == old(self).store_view(),
            final(self).free_mode() == old(self).free_mode(),
            match r {
                Some(d) => {
                    let m = old(self).store_view();
                    let k = index_lookup(m.ids, id.idv()).unwrap();
                    &&& index_lookup(m.ids, id.idv()) is Some
                    &&& *d == m.at(k as int)
                    &&& (old(self).free_mode() ==> final(self).cache_view() == old(self).cache_view())
                    &&& (!old(self).free_mode() ==> final(self).cache_view() == arc_touch(
                        old(self).cache_view(),
                        k,
                    ).0)
                },
                None => {
                    &&& index_lookup(old(self).store_view().ids, id.idv()) is None
                    &&& final(self).cache_view() == old(self).cache_view()
                },
            },
    {
        let ghost m = self.store_view();
        let ghost c = self.cache_view();
        match self.store.find_slot(&id) {
            Some(k) => {
                self.cache.touch(k);
                proof {
                    if !old(self).free_mode() {
                        lemma_arc_touch_wf(c, k);
                    }
                    assert forall|x: usize| final(self).cache_view().tracks(x) implies
                        #[trigger] final(self).store_view().live(x as int) by {
                        if !old(self).free_mode() {
                            assert(c.tracks(x) || x == k);
                        }
                    };
                }
                self.store.get_slot(k)
            },
            None => None,
        }
    }

    /// The record with the given key; a hit is itself a cache-promoting
    /// access.
    pub fn get_by_key(&mut self, key: &D::Key) -> (r: Option<&D>)
        requires
            old(self).wf(),
        ensures
            final(self).wf(),
            final(self).store_view() == old(self).store_view(),
            final(self).free_mode() == old(self).free_mode(),
            match r {
                Some(d) => {
                    let m = old(self).store_view();
                    let k = index_lookup(m.keys, key.keyv()).unwrap();
                    &&& index_lookup(m.keys, key.keyv()) is Some
                    &&& *d == m.at(k as int)
                    &&& d.spec_keyv() == key.keyv()
                    &&& (old(self).free_mode() ==> final(self).cache_view() == old(self).cache_view())
                    &&& (!old(self).free_mode() ==> final(self).cache_view() == arc_touch(
                        old(self).cache_view(),
                        k,
                    ).0)
                },
                None => {
                    &&& index_lookup(old(self).store_view().keys, key.keyv()) is None
                    &&& final(self).cache_view() == old(self).cache_view()
                },
            },
    {
        let ghost m = self.store_view();
        let ghost c = self.cache_view();
        match self.store.find_slot_by_key(key) {
            Some(k) => {
                self.cache.touch(k);
                proof {
                    if !old(self).free_mode() {
                        lemma_arc_touch_wf(c, k);
                    }
                    assert forall|x: usize| final(self).cache_view().tracks(x) implies
                        #[trigger] final(self).store_view().live(x as int) by {
                        if !old(self).free_mode() {
                            assert(c.tracks(x) || x == k);
                        }
                    };
                }
                self.store.get_slot(k)
            },
            None => None,
        }
    }

    /// Removes the record with the given id, if live, and drops its slot
    /// from the cache bookkeeping (absence there is tolerated).
    pub fn remove_by_id(&mut self, id: D::Id) -> (r: Option<D>)
        requires
            old(self).wf(),
        ensures
            final(self).wf(),
            final(self).free_mode() == old(self).free_mode(),
            final(self).store_view() == spec_remove_id(old(self).store_view(), id.idv()).0,
            r == spec_remove_id(old(self).store_view(), id.idv()).1,
            ({
                let c = old(self).cache_view();
                match index_lookup(old(self).store_view().ids, id.idv()) {
                    Some(k) => (old(self).free_mode() ==> final(self).cache_view() == c) && (!old(self).free_mode() ==> final(self).cache_view() == arc_remove(c, k).0),
                    None => final(self).cache_view() == c,
                }
            }),
    {
        let ghost m = self.store_view();
        let ghost c = self.cache_view();
        proof {
            lemma_remove_id_wf(m, id.idv());
        }
        match self.store.find_slot(&id) {
            Some(k) => {
                let r = self.store.remove_by_slot(k);
                self.cache.remove(k);
                proof {
                    lemma_remove_slot_wf(m, k);
                    if !old(self).free_mode() {
                        lemma_arc_remove_wf(c, k);
                    }
                    assert forall|x: usize| final(self).cache_view().tracks(x) implies
                        #[trigger] final(self).store_view().live(x as int) by {
                        if !old(self).free_mode() {
                            assert(c.tracks(x));
                            assert(x != k);
                        }
                    };
                }
                r
            },
            None => None,
        }
    }

    /// Removes the record at the given slot, if live, and drops the slot
    /// from the cache bookkeeping.
    pub fn remove_by_slot(&mut self, idx: usize) -> (r: Option<D>)
        requires
            old(self).wf(),
        ensures
            final(self).wf(),
            final(self).free_mode() == old(self).free_mode(),
            final(self).store_view() == spec_remove_slot(old(self).store_view(), idx).0,
            r == spec_remove_slot(old(self).store_view(), idx).1,
            old(self).free_mode() ==> final(self).cache_view() == old(self).cache_view(),
            !old(self).free_mode() ==> final(self).cache_view() == arc_remove(
                old(self).cache_view(),
                idx,
            ).0,
    {
        let ghost m = self.store_view();
        let ghost c = self.cache_view();
        proof {
            lemma_remove_slot_wf(m, idx);
        }
        let r = self.store.remove_by_slot(idx);
        self.cache.remove(idx);
        proof {
            if !old(self).free_mode() {
                lemma_arc_remove_wf(c, idx);
            }
            assert forall|x: usize| final(self).cache_view().tracks(x) implies #[trigger] final(self).store_view().live(x as int) by {
                if !old(self).free_mode() {
                    assert(c.tracks(x));
                    assert(x != idx);
                }
            };
        }
        r
    }

    /// All live records, in slot order.
    pub fn iterate(&self) -> (r: Vec<&D>)
        ensures
            r@.map_values(|d: &D| *d) == live_records(self.store_view().slots),
    {
        self.store.iterate()
    }

    /// Changes the cache capacity. Capacity zero is rejected with no state
    /// change, as is any resize in `Free` mode; otherwise both cache lists
    /// are trimmed to the new bound and the store is untouched.
    pub fn resize(&mut self, new_capacity: usize) -> (r: bool)
        requires
            old(self).wf(),
        ensures
            final(self).wf(),
            final(self).free_mode() == old(self).free_mode(),
            final(self).store_view() == old(self).store_view(),
            new_capacity == 0 ==> r == false && final(self).cache_view() == old(self).cache_view(),
            old(self).free_mode() ==> r == false && final(self).cache_view() == old(self).cache_view(),
            !old(self).free_mode() && new_capacity != 0 ==> r == true && final(self).cache_view()
                == crate::cache::arc_resize(old(self).cache_view(), new_capacity).0,
    {
        let ghost c = self.cache_view();
        let r = self.cache.resize(new_capacity);
        proof {
            if !old(self).free_mode() {
                crate::cache::lemma_arc_resize_wf(c, new_capacity);
            }
            assert forall|x: usize| final(self).cache_view().tracks(x) implies #[trigger] final(self).store_view().live(x as int) by {
                if !old(self).free_mode() {
                    assert(c.tracks(x));
                }
            };
        }
        r
    }

    /// The number of live records.
    pub fn len(&self) -> (r: usize)
        ensures
            r == self.store_view().live_count(),
    {
        self.store.len()
    }
}


/// Eviction cascade: inserting a record with a fresh id and key into a
/// bounded engine whose `recent` list has reached the half-capacity
/// threshold evicts a victim, and the victim's id is absent from the store
/// afterwards. (With a capacity below two the victim is the new record
/// itself.)
pub proof fn lemma_eviction_cascade<D: SousARCData>(e: StorageEngine<D>, d: D)
    requires
        e.wf(),
        !e.free_mode(),
        e.cache_view().recent.len() >= e.cache_view().capacity / 2,
        index_lookup(e.store_view().ids, d.spec_idv()) is None,
        index_lookup(e.store_view().keys, d.spec_keyv()) is None,
        e.store_view().slots.len() < usize::MAX,
    ensures
        ({
            let m = e.store_view();
            let c = e.cache_view();
            let m1 = spec_insert(m, d).0;
            &&& spec_insert(m, d).1 is Inserted
            &&& {
                let k = spec_insert(m, d).1->Inserted_0;
                &&& arc_touch(c, k).1 is Some
                &&& {
                    let vk = arc_touch(c, k).1->Some_0;
                    let m2 = spec_remove_slot(m1, vk).0;
                    &&& m1.live(vk as int)
                    &&& index_lookup(m2.ids, m1.at(vk as int).spec_idv()) is None
                }
            }
        }),
{
    let m = e.store_view();
    let c = e.cache_view();
    lemma_insert_wf(m, d);
    let k = spec_insert(m, d).1->Inserted_0;
    let m1 = spec_insert(m, d).0;
    assert(!m.live(k as int));
    if c.tracks(k) {
        assert(m.live(k as int));
        assert(false);
    }
    assert(!c.frequent.contains(k) && !c.recent.contains(k));
    let grown = seq![k] + c.recent;
    assert(grown.len() > c.capacity / 2);
    assert(arc_touch(c, k).1 == Some(grown.last()));
    let vk = grown.last();
    if c.recent.len() == 0 {
        assert(vk == k);
        assert(m1.live(vk as int));
    } else {
        assert(grown[grown.len() - 1] == c.recent[c.recent.len() - 1]);
        assert(c.recent.contains(vk));
        assert(c.tracks(vk));
        assert(m.live(vk as int));
        assert(m1.live(vk as int));
    }
    lemma_remove_slot_wf(m1, vk);
    let m2 = spec_remove_slot(m1, vk).0;
    let victim_iv = m1.at(vk as int).spec_idv();
    if index_lookup(m2.ids, victim_iv) is Some {
        crate::store::lemma_lookup_live(m2, victim_iv);
        let k2 = index_lookup(m2.ids, victim_iv).unwrap();
        assert(m2.live(k2 as int));
        assert(!m2.live(vk as int));
        assert(k2 != vk);
        assert(m1.live(k2 as int));
        assert(m2.at(k2 as int) == m1.at(k2 as int));
        crate::store::lemma_live_entries_unique(m1);
        assert(m1.live(k2 as int) && m1.live(vk as int) && k2 as int != vk as int);
        assert(m1.at(k2 as int).spec_idv() != m1.at(vk as int).spec_idv());
        assert(false);
    }
}

} // verus!
