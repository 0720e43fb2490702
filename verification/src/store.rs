//! The free-list-backed slot store: a table of `Option`al records with an
//! id index and an order-preserving key index.
//!
//! A record lives in one slot; the same slot index denotes the same logical
//! entry until it is removed, after which the index is queued for reuse in
//! first-in-first-out order. Each live record has exactly one entry in the id
//! index and one in the key index, both pointing at its slot.

use vstd::prelude::*;
use vstd::seq_lib::*;
use std::collections::VecDeque;
use crate::traits::{SousARCData, SousARCId, SousARCKey};

verus! {

/// The mathematical state of a slot store: the slot table, the free list,
/// and the two indices as sequences of (view, slot) pairs in insertion
/// order.
pub ghost struct StoreModel<D: SousARCData> {
    pub slots: Seq<Option<D>>,
    pub free: Seq<usize>,
    pub ids: Seq<(<D::Id as SousARCId>::V, usize)>,
    pub keys: Seq<(<D::Key as SousARCKey>::V, usize)>,
}

/// The position of the first index entry carrying the view `v`, if any. In a
/// well-formed store at most one entry carries each view.
pub open spec fn index_pos<V>(s: Seq<(V, usize)>, v: V) -> Option<int> {
    if exists|j: int| 0 <= j < s.len() && (#[trigger] s[j]).0 == v {
        Some(choose|j: int| 0 <= j < s.len() && (#[trigger] s[j]).0 == v)
    } else {
        None
    }
}

/// The slot that the view `v` maps to, if any.
pub open spec fn index_lookup<V>(s: Seq<(V, usize)>, v: V) -> Option<usize> {
    match index_pos(s, v) {
        Some(j) => Some(s[j].1),
        None => None,
    }
}

/// The position of the first index entry pointing at slot `k`, if any. In a
/// well-formed store at most one entry points at each slot.
pub open spec fn slot_pos<V>(s: Seq<(V, usize)>, k: usize) -> Option<int> {
    if exists|j: int| 0 <= j < s.len() && (#[trigger] s[j]).1 == k {
        Some(choose|j: int| 0 <= j < s.len() && (#[trigger] s[j]).1 == k)
    } else {
        None
    }
}

impl<D: SousARCData> StoreModel<D> {
    /// Whether slot `k` holds a record.
    pub open spec fn live(self, k: int) -> bool {
        0 <= k < self.slots.len() && self.slots[k] is Some
    }

    /// The record in slot `k`.
    pub open spec fn at(self, k: int) -> D {
        self.slots[k].unwrap()
    }

    /// Every id-index entry points at a live slot whose record carries that
    /// id view.
    pub open spec fn ids_ok(self) -> bool {
        forall|j: int|
            0 <= j < self.ids.len() ==> self.live((#[trigger] self.ids[j]).1 as int) && self.at(
                self.ids[j].1 as int,
            ).spec_idv() == self.ids[j].0
    }

    /// Every key-index entry points at a live slot whose record carries that
    /// key view.
    pub open spec fn keys_ok(self) -> bool {
        forall|j: int|
            0 <= j < self.keys.len() ==> self.live((#[trigger] self.keys[j]).1 as int) && self.at(
                self.keys[j].1 as int,
            ).spec_keyv() == self.keys[j].0
    }

    /// No two id-index entries share a view or a slot.
    pub open spec fn ids_inj(self) -> bool {
        forall|j1: int, j2: int|
            0 <= j1 < self.ids.len() && 0 <= j2 < self.ids.len() && j1 != j2 ==> (
            #[trigger] self.ids[j1]).0 != (#[trigger] self.ids[j2]).0 && self.ids[j1].1
                != self.ids[j2].1
    }

    /// No two key-index entries share a view or a slot.
    pub open spec fn keys_inj(self) -> bool {
        forall|j1: int, j2: int|
            0 <= j1 < self.keys.len() && 0 <= j2 < self.keys.len() && j1 != j2 ==> (
            #[trigger] self.keys[j1]).0 != (#[trigger] self.keys[j2]).0 && self.keys[j1].1
                != self.keys[j2].1
    }

    /// Every live slot is referenced by an id-index entry.
    pub open spec fn ids_cover(self) -> bool {
        forall|k: int|
            #[trigger] self.live(k) ==> exists|j: int|
                0 <= j < self.ids.len() && (#[trigger] self.ids[j]) == (
                self.at(k).spec_idv(),
                k as usize,
                )
    }

    /// Every live slot is referenced by a key-index entry.
    pub open spec fn keys_cover(self) -> bool {
        forall|k: int|
            #[trigger] self.live(k) ==> exists|j: int|
                0 <= j < self.keys.len() && (#[trigger] self.keys[j]) == (
                self.at(k).spec_keyv(),
                k as usize,
                )
    }

    /// The free list holds exactly the empty slots, each once.
    pub open spec fn free_ok(self) -> bool {
        &&& forall|j: int|
            0 <= j < self.free.len() ==> (#[trigger] self.free[j]) < self.slots.len()
                && self.slots[self.free[j] as int] is None
        &&& self.free.no_duplicates()
        &&& forall|k: int|
            0 <= k < self.slots.len() && (#[trigger] self.slots[k]) is None
                ==> self.free.contains(k as usize)
    }

    /// Well-formedness of the whole store: indices and free list are exactly
    /// in step with the slot table, and no id or key view occurs twice.
    pub open spec fn wf(self) -> bool {
        &&& self.ids_ok()
        &&& self.keys_ok()
        &&& self.ids_inj()
        &&& self.keys_inj()
        &&& self.ids_cover()
        &&& self.keys_cover()
        &&& self.free_ok()
        &&& self.slots.len() <= usize::MAX
    }

    /// The live records, keyed by the view of their id.
    pub open spec fn entries(self) -> Map<<D::Id as SousARCId>::V, D> {
        Map::new(
            |iv: <D::Id as SousARCId>::V| index_lookup(self.ids, iv) is Some,
            |iv: <D::Id as SousARCId>::V| self.at(index_lookup(self.ids, iv).unwrap() as int),
        )
    }

    /// The number of live records.
    pub open spec fn live_count(self) -> nat {
        self.ids.len()
    }
}

/// In a well-formed store, an id view at position `j` of the id index is
/// found by `index_pos` exactly there.
pub proof fn lemma_index_pos_unique<V>(s: Seq<(V, usize)>, j: int)
    requires
        0 <= j < s.len(),
        forall|j1: int, j2: int|
            0 <= j1 < s.len() && 0 <= j2 < s.len() && j1 != j2 ==> (#[trigger] s[j1]).0 != (
            #[trigger] s[j2]).0,
    ensures
        index_pos(s, s[j].0) == Some(j),
{
    let v = s[j].0;
    assert(0 <= j < s.len() && s[j].0 == v);
    let j2 = choose|j2: int| 0 <= j2 < s.len() && (#[trigger] s[j2]).0 == v;
    assert(s[j2].0 == v);
    if j2 != j {
        assert(s[j].0 != s[j2].0);
        assert(false);
    }
}

/// In a well-formed store, a slot referenced at position `j` of an index is
/// found by `slot_pos` exactly there.
pub proof fn lemma_slot_pos_unique<V>(s: Seq<(V, usize)>, j: int)
    requires
        0 <= j < s.len(),
        forall|j1: int, j2: int|
            0 <= j1 < s.len() && 0 <= j2 < s.len() && j1 != j2 ==> (#[trigger] s[j1]).1 != (
            #[trigger] s[j2]).1,
    ensures
        slot_pos(s, s[j].1) == Some(j),
{
    let k = s[j].1;
    assert(0 <= j < s.len() && s[j].1 == k);
    let j2 = choose|j2: int| 0 <= j2 < s.len() && (#[trigger] s[j2]).1 == k;
    assert(s[j2].1 == k);
    if j2 != j {
        assert(s[j].1 != s[j2].1);
        assert(false);
    }
}

/// The outcome of a store-level insert: a fresh record gets a slot, a record
/// with a live id replaces that entry's payload, and a key that is already
/// bound to a different id is rejected with the offered record handed back.
pub enum StoreInsert<D> {
    Inserted(usize),
    Replaced(D),
    KeyInUse(D),
}

/// Whether some key-index entry carries the view `v` but points at a slot
/// other than `k`.
pub open spec fn key_elsewhere<V>(keys: Seq<(V, usize)>, v: V, k: usize) -> bool {
    exists|j: int| 0 <= j < keys.len() && (#[trigger] keys[j]).0 == v && keys[j].1 != k
}

/// One insert step over the model.
///
/// If the record's id view is live, its slot's payload is overwritten and the
/// key index updated in place (the key may differ from the old one), unless
/// the new key is bound to a different live id, which is rejected. If the id
/// is fresh, a fresh key claims the front slot of the free list, or a newly
/// appended slot when no slot is free.
pub open spec fn spec_insert<D: SousARCData>(m: StoreModel<D>, d: D) -> (StoreModel<D>, StoreInsert<
    D,
>) {
    let iv = d.spec_idv();
    let kv = d.spec_keyv();
    match index_pos(m.ids, iv) {
        Some(j) => {
            let k = m.ids[j].1;
            if key_elsewhere(m.keys, kv, k) {
                (m, StoreInsert::KeyInUse(d))
            } else {
                let old_d = m.at(k as int);
                let m2 = StoreModel {
                    slots: m.slots.update(k as int, Some(d)),
                    keys: match slot_pos(m.keys, k) {
                        Some(kp) => m.keys.update(kp, (kv, k)),
                        None => m.keys,
                    },
                    ..m
                };
                (m2, StoreInsert::Replaced(old_d))
            }
        },
        None => {
            if index_pos(m.keys, kv) is Some {
                (m, StoreInsert::KeyInUse(d))
            } else if m.free.len() > 0 {
                let k = m.free[0];
                let m2 = StoreModel {
                    slots: m.slots.update(k as int, Some(d)),
                    free: m.free.drop_first(),
                    ids: m.ids.push((iv, k)),
                    keys: m.keys.push((kv, k)),
                };
                (m2, StoreInsert::Inserted(k))
            } else {
                let k = m.slots.len() as usize;
                let m2 = StoreModel {
                    slots: m.slots.push(Some(d)),
                    free: m.free,
                    ids: m.ids.push((iv, k)),
                    keys: m.keys.push((kv, k)),
                };
                (m2, StoreInsert::Inserted(k))
            }
        },
    }
}

/// One remove step over the model, keyed by slot: the slot is cleared, both
/// index entries disappear, and the slot index joins the back of the free
/// list.
pub open spec fn spec_remove_slot<D: SousARCData>(m: StoreModel<D>, k: usize) -> (StoreModel<D>, Option<
    D,
>) {
    if m.live(k as int) {
        let d = m.at(k as int);
        let m2 = StoreModel {
            slots: m.slots.update(k as int, None),
            free: m.free.push(k),
            ids: match slot_pos(m.ids, k) {
                Some(j) => m.ids.remove(j),
                None => m.ids,
            },
            keys: match slot_pos(m.keys, k) {
                Some(j) => m.keys.remove(j),
                None => m.keys,
            },
        };
        (m2, Some(d))
    } else {
        (m, None)
    }
}

/// One remove step over the model, keyed by id view: resolves the slot and
/// removes it.
pub open spec fn spec_remove_id<D: SousARCData>(
    m: StoreModel<D>,
    iv: <D::Id as SousARCId>::V,
) -> (StoreModel<D>, Option<D>) {
    match index_lookup(m.ids, iv) {
        Some(k) => spec_remove_slot(m, k),
        None => (m, None),
    }
}

/// An insert step preserves well-formedness, and its outcome is pinned down:
/// `Inserted` means the id and key views were fresh and the record now lives
/// in the first free slot (or a newly appended one); `Replaced` means the id
/// view was live and only that slot's payload and key entry changed;
/// `KeyInUse` means the key view was bound to another id and nothing
/// changed.
pub proof fn lemma_insert_wf<D: SousARCData>(m: StoreModel<D>, d: D)
    requires
        m.wf(),
        m.slots.len() < usize::MAX,
    ensures
        spec_insert(m, d).0.wf(),
        match spec_insert(m, d).1 {
            StoreInsert::Inserted(k) => {
                &&& index_pos(m.ids, d.spec_idv()) is None
                &&& index_pos(m.keys, d.spec_keyv()) is None
                &&& !m.live(k as int)
                &&& spec_insert(m, d).0.live(k as int)
                &&& spec_insert(m, d).0.at(k as int) == d
                &&& (m.free.len() > 0 ==> k == m.free[0] && spec_insert(m, d).0.slots.len()
                    == m.slots.len())
                &&& (m.free.len() == 0 ==> k == m.slots.len())
                &&& forall|k2: int|
                    #[trigger] spec_insert(m, d).0.live(k2) <==> (m.live(k2) || k2 == k as int)
                &&& forall|k2: int|
                    m.live(k2) ==> #[trigger] spec_insert(m, d).0.at(k2) == m.at(k2)
            },
            StoreInsert::Replaced(old_d) => {
                &&& index_lookup(m.ids, d.spec_idv()) is Some
                &&& {
                    let k = index_lookup(m.ids, d.spec_idv()).unwrap();
                    &&& m.live(k as int)
                    &&& old_d == m.at(k as int)
                    &&& spec_insert(m, d).0.live(k as int)
                    &&& spec_insert(m, d).0.at(k as int) == d
                    &&& spec_insert(m, d).0.slots.len() == m.slots.len()
                    &&& spec_insert(m, d).0.free == m.free
                    &&& forall|k2: int|
                        #[trigger] spec_insert(m, d).0.live(k2) <==> m.live(k2)
                    &&& forall|k2: int|
                        m.live(k2) && k2 != k as int ==> #[trigger] spec_insert(m, d).0.at(k2)
                            == m.at(k2)
                }
            },
            StoreInsert::KeyInUse(_) => spec_insert(m, d).0 == m,
        },
{
    let iv = d.spec_idv();
    let kv = d.spec_keyv();
    let m2 = spec_insert(m, d).0;
    match index_pos(m.ids, iv) {
        Some(j) => {
            assert(m.ids[j].0 == iv);
            let k = m.ids[j].1;
            assert(m.live(k as int) && m.at(k as int).spec_idv() == iv);
            if !key_elsewhere(m.keys, kv, k) {
                // the old key entry for slot k exists by coverage
                assert(m.live(k as int));
                let witness_j = choose|j2: int|
                    0 <= j2 < m.keys.len() && (#[trigger] m.keys[j2]) == (
                    m.at(k as int).spec_keyv(),
                    k,
                    );
                assert(0 <= witness_j < m.keys.len() && m.keys[witness_j].1 == k);
                let kp = slot_pos(m.keys, k)->Some_0;
                assert(slot_pos(m.keys, k) is Some);
                assert(m.keys[kp].1 == k);
                lemma_index_pos_unique(m.ids, j);
                assert(index_lookup(m.ids, iv) == Some(k));
                // well-formedness of the updated model
                assert forall|j2: int| 0 <= j2 < m2.ids.len() implies m2.live(
                    (#[trigger] m2.ids[j2]).1 as int,
                ) && m2.at(m2.ids[j2].1 as int).spec_idv() == m2.ids[j2].0 by {
                    assert(m2.ids[j2] == m.ids[j2]);
                    if m.ids[j2].1 == k {
                        assert(j2 == j);
                    }
                };
                assert forall|j2: int| 0 <= j2 < m2.keys.len() implies m2.live(
                    (#[trigger] m2.keys[j2]).1 as int,
                ) && m2.at(m2.keys[j2].1 as int).spec_keyv() == m2.keys[j2].0 by {
                    if j2 == kp {
                        assert(m2.keys[j2] == (kv, k));
                    } else {
                        assert(m2.keys[j2] == m.keys[j2]);
                        if m.keys[j2].1 == k {
                            assert(false);
                        }
                    }
                };
                assert forall|j1: int, j2: int|
                    0 <= j1 < m2.keys.len() && 0 <= j2 < m2.keys.len() && j1 != j2 implies (
                #[trigger] m2.keys[j1]).0 != (#[trigger] m2.keys[j2]).0 && m2.keys[j1].1
                    != m2.keys[j2].1 by {
                    if j1 == kp {
                        assert(m2.keys[j2] == m.keys[j2]);
                        if m.keys[j2].0 == kv {
                            assert(m.keys[j2].1 != k);
                            assert(key_elsewhere(m.keys, kv, k));
                        }
                    } else if j2 == kp {
                        assert(m2.keys[j1] == m.keys[j1]);
                        if m.keys[j1].0 == kv {
                            assert(m.keys[j1].1 != k);
                            assert(key_elsewhere(m.keys, kv, k));
                        }
                    } else {
                        assert(m2.keys[j1] == m.keys[j1]);
                        assert(m2.keys[j2] == m.keys[j2]);
                    }
                };
                assert forall|k2: int| #[trigger] m2.live(k2) implies exists|j2: int|
                    0 <= j2 < m2.ids.len() && (#[trigger] m2.ids[j2]) == (
                    m2.at(k2).spec_idv(),
                    k2 as usize,
                    ) by {
                    assert(m.live(k2));
                    if k2 == k as int {
                        assert(m2.ids[j] == (m2.at(k2).spec_idv(), k2 as usize));
                    } else {
                        let j2 = choose|j2: int|
                            0 <= j2 < m.ids.len() && (#[trigger] m.ids[j2]) == (
                            m.at(k2).spec_idv(),
                            k2 as usize,
                            );
                        assert(m2.ids[j2] == (m2.at(k2).spec_idv(), k2 as usize));
                    }
                };
                assert forall|k2: int| #[trigger] m2.live(k2) implies exists|j2: int|
                    0 <= j2 < m2.keys.len() && (#[trigger] m2.keys[j2]) == (
                    m2.at(k2).spec_keyv(),
                    k2 as usize,
                    ) by {
                    assert(m.live(k2));
                    if k2 == k as int {
                        assert(m2.keys[kp] == (m2.at(k2).spec_keyv(), k2 as usize));
                    } else {
                        let j2 = choose|j2: int|
                            0 <= j2 < m.keys.len() && (#[trigger] m.keys[j2]) == (
                            m.at(k2).spec_keyv(),
                            k2 as usize,
                            );
                        assert(m.keys[j2].1 == k2 as usize);
                        assert(m.keys[kp].1 == k);
                        assert(k2 as usize != k);
                        assert(j2 != kp);
                        assert(m2.keys[j2] == (m2.at(k2).spec_keyv(), k2 as usize));
                    }
                };
                assert forall|k2: int|
                    0 <= k2 < m2.slots.len() && (#[trigger] m2.slots[k2]) is None implies m2.free.contains(
                    k2 as usize,
                ) by {
                    assert(m2.slots[k2] == m.slots[k2]);
                };
                assert(m2.wf());
            }
        },
        None => {
            assert forall|j2: int| 0 <= j2 < m.ids.len() implies (#[trigger] m.ids[j2]).0
                != iv by {}
            if index_pos(m.keys, kv) is Some {
            } else {
                assert forall|j2: int| 0 <= j2 < m.keys.len() implies (#[trigger] m.keys[j2]).0
                    != kv by {
                    if m.keys[j2].0 == kv {
                        assert(0 <= j2 < m.keys.len() && (#[trigger] m.keys[j2]).0 == kv);
                        assert(index_pos(m.keys, kv) is Some);
                    }
                };
                if m.free.len() > 0 {
                    let k = m.free[0];
                    assert(m.free.contains(k));
                    assert(k < m.slots.len() && m.slots[k as int] is None);
                    lemma_fresh_slot_wf(m, d, k, true);
                } else {
                    let k = m.slots.len() as usize;
                    assert(!m.live(k as int));
                    lemma_fresh_slot_wf(m, d, k, false);
                }
            }
        },
    }
}

/// The fresh-slot half of the insert proof: claiming the first free slot or
/// appending a new one yields a well-formed store.
proof fn lemma_fresh_slot_wf<D: SousARCData>(m: StoreModel<D>, d: D, k: usize, from_free: bool)
    requires
        m.wf(),
        m.slots.len() < usize::MAX,
        index_pos(m.ids, d.spec_idv()) is None,
        index_pos(m.keys, d.spec_keyv()) is None,
        from_free ==> m.free.len() > 0 && k == m.free[0],
        !from_free ==> m.free.len() == 0 && k == m.slots.len(),
    ensures
        spec_insert(m, d).0.wf(),
        spec_insert(m, d).1 == StoreInsert::<D>::Inserted(k),
        spec_insert(m, d).0.live(k as int),
        spec_insert(m, d).0.at(k as int) == d,
        !m.live(k as int),
        forall|k2: int| #[trigger] spec_insert(m, d).0.live(k2) <==> (m.live(k2) || k2 == k as int),
        forall|k2: int| m.live(k2) ==> #[trigger] spec_insert(m, d).0.at(k2) == m.at(k2),
{
    let iv = d.spec_idv();
    let kv = d.spec_keyv();
    let m2 = spec_insert(m, d).0;
    assert forall|j: int| 0 <= j < m.ids.len() implies (#[trigger] m.ids[j]).0 != iv by {
        if m.ids[j].0 == iv {
            assert(0 <= j < m.ids.len() && (#[trigger] m.ids[j]).0 == iv);
            assert(index_pos(m.ids, iv) is Some);
        }
    };
    assert forall|j: int| 0 <= j < m.keys.len() implies (#[trigger] m.keys[j]).0 != kv by {
        if m.keys[j].0 == kv {
            assert(0 <= j < m.keys.len() && (#[trigger] m.keys[j]).0 == kv);
            assert(index_pos(m.keys, kv) is Some);
        }
    };
    if from_free {
        assert(m.free.contains(m.free[0]));
        assert(k < m.slots.len() && m.slots[k as int] is None);
    }
    assert(!m.live(k as int));
    // no old index entry points at k, since k is not live
    assert forall|j: int| 0 <= j < m.ids.len() implies (#[trigger] m.ids[j]).1 != k by {
        if m.ids[j].1 == k {
            assert(m.live(k as int));
        }
    };
    assert forall|j: int| 0 <= j < m.keys.len() implies (#[trigger] m.keys[j]).1 != k by {
        if m.keys[j].1 == k {
            assert(m.live(k as int));
        }
    };
    assert(m2.ids == m.ids.push((iv, k)));
    assert(m2.keys == m.keys.push((kv, k)));
    assert(m2.live(k as int) && m2.at(k as int) == d);
    assert forall|k2: int| #[trigger] m2.live(k2) implies (m.live(k2) || k2 == k as int) by {};
    // ids_ok
    assert forall|j: int| 0 <= j < m2.ids.len() implies m2.live((#[trigger] m2.ids[j]).1 as int)
        && m2.at(m2.ids[j].1 as int).spec_idv() == m2.ids[j].0 by {
        if j < m.ids.len() {
            assert(m2.ids[j] == m.ids[j]);
            assert(m.live(m.ids[j].1 as int));
            assert(m.ids[j].1 != k);
        } else {
            assert(m2.ids[j] == (iv, k));
        }
    };
    // keys_ok
    assert forall|j: int| 0 <= j < m2.keys.len() implies m2.live((#[trigger] m2.keys[j]).1 as int)
        && m2.at(m2.keys[j].1 as int).spec_keyv() == m2.keys[j].0 by {
        if j < m.keys.len() {
            assert(m2.keys[j] == m.keys[j]);
            assert(m.live(m.keys[j].1 as int));
            assert(m.keys[j].1 != k);
        } else {
            assert(m2.keys[j] == (kv, k));
        }
    };
    // injectivity
    assert forall|j1: int, j2: int|
        0 <= j1 < m2.ids.len() && 0 <= j2 < m2.ids.len() && j1 != j2 implies (
    #[trigger] m2.ids[j1]).0 != (#[trigger] m2.ids[j2]).0 && m2.ids[j1].1 != m2.ids[j2].1 by {
        if j1 < m.ids.len() && j2 < m.ids.len() {
            assert(m2.ids[j1] == m.ids[j1]);
            assert(m2.ids[j2] == m.ids[j2]);
        } else if j1 < m.ids.len() {
            assert(m2.ids[j1] == m.ids[j1]);
            assert(m2.ids[j2] == (iv, k));
        } else {
            assert(m2.ids[j1] == (iv, k));
            assert(m2.ids[j2] == m.ids[j2]);
        }
    };
    assert forall|j1: int, j2: int|
        0 <= j1 < m2.keys.len() && 0 <= j2 < m2.keys.len() && j1 != j2 implies (
    #[trigger] m2.keys[j1]).0 != (#[trigger] m2.keys[j2]).0 && m2.keys[j1].1 != m2.keys[j2].1 by {
        if j1 < m.keys.len() && j2 < m.keys.len() {
            assert(m2.keys[j1] == m.keys[j1]);
            assert(m2.keys[j2] == m.keys[j2]);
        } else if j1 < m.keys.len() {
            assert(m2.keys[j1] == m.keys[j1]);
            assert(m2.keys[j2] == (kv, k));
        } else {
            assert(m2.keys[j1] == (kv, k));
            assert(m2.keys[j2] == m.keys[j2]);
        }
    };
    // coverage
    assert forall|k2: int| #[trigger] m2.live(k2) implies exists|j: int|
        0 <= j < m2.ids.len() && (#[trigger] m2.ids[j]) == (m2.at(k2).spec_idv(), k2 as usize) by {
        if k2 == k as int {
            assert(m2.ids[m.ids.len() as int] == (m2.at(k2).spec_idv(), k2 as usize));
        } else {
            assert(m.live(k2));
            let j = choose|j: int|
                0 <= j < m.ids.len() && (#[trigger] m.ids[j]) == (m.at(k2).spec_idv(), k2 as usize);
            assert(m2.ids[j] == (m2.at(k2).spec_idv(), k2 as usize));
        }
    };
    assert forall|k2: int| #[trigger] m2.live(k2) implies exists|j: int|
        0 <= j < m2.keys.len() && (#[trigger] m2.keys[j]) == (m2.at(k2).spec_keyv(), k2 as usize) by {
        if k2 == k as int {
            assert(m2.keys[m.keys.len() as int] == (m2.at(k2).spec_keyv(), k2 as usize));
        } else {
            assert(m.live(k2));
            let j = choose|j: int|
                0 <= j < m.keys.len() && (#[trigger] m.keys[j]) == (
                m.at(k2).spec_keyv(),
                k2 as usize,
                );
            assert(m2.keys[j] == (m2.at(k2).spec_keyv(), k2 as usize));
        }
    };
    // free list
    if from_free {
        assert forall|j: int| 0 <= j < m2.free.len() implies (#[trigger] m2.free[j])
            < m2.slots.len() && m2.slots[m2.free[j] as int] is None by {
            assert(m2.free[j] == m.free[j + 1]);
            assert(m.free[j + 1] != k);
        };
        assert forall|j1: int, j2: int|
            0 <= j1 < m2.free.len() && 0 <= j2 < m2.free.len() && j1 != j2 implies m2.free[j1]
            != m2.free[j2] by {
            assert(m2.free[j1] == m.free[j1 + 1]);
            assert(m2.free[j2] == m.free[j2 + 1]);
        };
        assert forall|k2: int|
            0 <= k2 < m2.slots.len() && (#[trigger] m2.slots[k2]) is None implies m2.free.contains(
            k2 as usize,
        ) by {
            assert(m2.slots[k as int] is Some);
            assert(k2 != k as int);
            assert(m.slots[k2] is None);
            assert(m.free.contains(k2 as usize));
            let j = choose|j: int| 0 <= j < m.free.len() && m.free[j] == k2 as usize;
            assert(m.free[j] == k2 as usize);
            assert(m.free[0] == k);
            assert(k2 as usize != k);
            assert(j != 0);
            assert(m2.free[j - 1] == k2 as usize);
        };
    } else {
        assert forall|k2: int|
            0 <= k2 < m2.slots.len() && (#[trigger] m2.slots[k2]) is None implies m2.free.contains(
            k2 as usize,
        ) by {
            assert(k2 < m.slots.len());
            assert(m.slots[k2] is None);
        };
    }
    assert(m2.wf());
}

/// A remove-by-slot step preserves well-formedness: the slot's record leaves
/// both indices, the slot is cleared, and its index joins the back of the
/// free list. Removing a dead slot changes nothing.
pub proof fn lemma_remove_slot_wf<D: SousARCData>(m: StoreModel<D>, k: usize)
    requires
        m.wf(),
    ensures
        spec_remove_slot(m, k).0.wf(),
        spec_remove_slot(m, k).1 == (if m.live(k as int) {
            Some(m.at(k as int))
        } else {
            Option::<D>::None
        }),
        spec_remove_slot(m, k).0.slots.len() == m.slots.len(),
        forall|k2: int|
            #[trigger] spec_remove_slot(m, k).0.live(k2) <==> (m.live(k2) && k2 != k as int),
        forall|k2: int|
            m.live(k2) && k2 != k as int ==> #[trigger] spec_remove_slot(m, k).0.at(k2) == m.at(k2),
        m.live(k as int) ==> spec_remove_slot(m, k).0.free == m.free.push(k),
        !m.live(k as int) ==> spec_remove_slot(m, k).0 == m,
{
    if m.live(k as int) {
        let m2 = spec_remove_slot(m, k).0;
        // both indices have exactly one entry for slot k
        let ji = choose|j: int|
            0 <= j < m.ids.len() && (#[trigger] m.ids[j]) == (m.at(k as int).spec_idv(), k);
        assert(0 <= ji < m.ids.len() && m.ids[ji].1 == k);
        assert(slot_pos(m.ids, k) is Some);
        let jp = slot_pos(m.ids, k)->Some_0;
        assert(m.ids[jp].1 == k);
        let wk = choose|j: int|
            0 <= j < m.keys.len() && (#[trigger] m.keys[j]) == (m.at(k as int).spec_keyv(), k);
        assert(0 <= wk < m.keys.len() && m.keys[wk].1 == k);
        assert(slot_pos(m.keys, k) is Some);
        let kp = slot_pos(m.keys, k)->Some_0;
        assert(m.keys[kp].1 == k);
        assert(m2.ids == m.ids.remove(jp));
        assert(m2.keys == m.keys.remove(kp));
        m.ids.remove_ensures(jp);
        m.keys.remove_ensures(kp);
        // ids_ok
        assert forall|j: int| 0 <= j < m2.ids.len() implies m2.live((#[trigger] m2.ids[j]).1 as int)
            && m2.at(m2.ids[j].1 as int).spec_idv() == m2.ids[j].0 by {
            let oj: int = if j < jp {
                j
            } else {
                j + 1
            };
            assert(m2.ids[j] == m.ids[oj]);
            assert(oj != jp);
            assert(m.ids[oj].1 != k);
        };
        // keys_ok
        assert forall|j: int| 0 <= j < m2.keys.len() implies m2.live(
            (#[trigger] m2.keys[j]).1 as int,
        ) && m2.at(m2.keys[j].1 as int).spec_keyv() == m2.keys[j].0 by {
            let oj: int = if j < kp {
                j
            } else {
                j + 1
            };
            assert(m2.keys[j] == m.keys[oj]);
            assert(oj != kp);
            assert(m.keys[oj].1 != k);
        };
        // injectivity survives taking a sub-sequence
        assert forall|j1: int, j2: int|
            0 <= j1 < m2.ids.len() && 0 <= j2 < m2.ids.len() && j1 != j2 implies (
        #[trigger] m2.ids[j1]).0 != (#[trigger] m2.ids[j2]).0 && m2.ids[j1].1 != m2.ids[j2].1 by {
            let o1: int = if j1 < jp {
                j1
            } else {
                j1 + 1
            };
            let o2: int = if j2 < jp {
                j2
            } else {
                j2 + 1
            };
            assert(m2.ids[j1] == m.ids[o1]);
            assert(m2.ids[j2] == m.ids[o2]);
        };
        assert forall|j1: int, j2: int|
            0 <= j1 < m2.keys.len() && 0 <= j2 < m2.keys.len() && j1 != j2 implies (
        #[trigger] m2.keys[j1]).0 != (#[trigger] m2.keys[j2]).0 && m2.keys[j1].1
            != m2.keys[j2].1 by {
            let o1: int = if j1 < kp {
                j1
            } else {
                j1 + 1
            };
            let o2: int = if j2 < kp {
                j2
            } else {
                j2 + 1
            };
            assert(m2.keys[j1] == m.keys[o1]);
            assert(m2.keys[j2] == m.keys[o2]);
        };
        // coverage
        assert forall|k2: int| #[trigger] m2.live(k2) implies exists|j: int|
            0 <= j < m2.ids.len() && (#[trigger] m2.ids[j]) == (m2.at(k2).spec_idv(), k2 as usize) by {
            assert(m.live(k2) && k2 != k as int);
            let j = choose|j: int|
                0 <= j < m.ids.len() && (#[trigger] m.ids[j]) == (m.at(k2).spec_idv(), k2 as usize);
            assert(m.ids[j].1 == k2 as usize);
            assert(m.ids[jp].1 == k);
            assert(k2 as usize != k);
            assert(j != jp);
            let nj: int = if j < jp {
                j
            } else {
                j - 1
            };
            assert(m2.ids[nj] == m.ids[j]);
        };
        assert forall|k2: int| #[trigger] m2.live(k2) implies exists|j: int|
            0 <= j < m2.keys.len() && (#[trigger] m2.keys[j]) == (
            m2.at(k2).spec_keyv(),
            k2 as usize,
            ) by {
            assert(m.live(k2) && k2 != k as int);
            let j = choose|j: int|
                0 <= j < m.keys.len() && (#[trigger] m.keys[j]) == (
                m.at(k2).spec_keyv(),
                k2 as usize,
                );
            assert(m.keys[j].1 == k2 as usize);
            assert(m.keys[kp].1 == k);
            assert(k2 as usize != k);
            assert(j != kp);
            let nj: int = if j < kp {
                j
            } else {
                j - 1
            };
            assert(m2.keys[nj] == m.keys[j]);
        };
        // free list: k joins the back, everything else stays
        assert forall|j: int| 0 <= j < m2.free.len() implies (#[trigger] m2.free[j])
            < m2.slots.len() && m2.slots[m2.free[j] as int] is None by {
            if j < m.free.len() {
                assert(m2.free[j] == m.free[j]);
                assert(m.slots[m.free[j] as int] is None);
                assert(m.free[j] != k);
            } else {
                assert(m2.free[j] == k);
            }
        };
        assert forall|j1: int, j2: int|
            0 <= j1 < m2.free.len() && 0 <= j2 < m2.free.len() && j1 != j2 implies m2.free[j1]
            != m2.free[j2] by {
            if j1 < m.free.len() && j2 < m.free.len() {
            } else if j1 < m.free.len() {
                assert(m2.free[j2] == k);
                assert(m.slots[m.free[j1] as int] is None);
            } else {
                assert(m2.free[j1] == k);
                assert(m.slots[m.free[j2] as int] is None);
            }
        };
        assert forall|k2: int|
            0 <= k2 < m2.slots.len() && (#[trigger] m2.slots[k2]) is None implies m2.free.contains(
            k2 as usize,
        ) by {
            if k2 == k as int {
                assert(m2.free[m.free.len() as int] == k);
            } else {
                assert(m.slots[k2] is None);
                assert(m.free.contains(k2 as usize));
                let j = choose|j: int| 0 <= j < m.free.len() && m.free[j] == k2 as usize;
                assert(m2.free[j] == k2 as usize);
            }
        };
        assert(m2.wf());
    }
}

/// A remove-by-id step resolves the id to its slot, if live, and removes
/// that slot.
pub proof fn lemma_remove_id_wf<D: SousARCData>(m: StoreModel<D>, iv: <D::Id as SousARCId>::V)
    requires
        m.wf(),
    ensures
        spec_remove_id(m, iv).0.wf(),
        match index_lookup(m.ids, iv) {
            Some(k) => m.live(k as int) && m.at(k as int).spec_idv() == iv && spec_remove_id(m, iv)
                == spec_remove_slot(m, k),
            None => spec_remove_id(m, iv).0 == m && spec_remove_id(m, iv).1 is None,
        },
{
    match index_pos(m.ids, iv) {
        Some(j) => {
            assert(m.ids[j].0 == iv);
            let k = m.ids[j].1;
            assert(m.live(k as int));
            lemma_remove_slot_wf(m, k);
        },
        None => {},
    }
}

/// The live records of a slot table, in slot order.
pub open spec fn live_records<D>(slots: Seq<Option<D>>) -> Seq<D>
    decreases slots.len(),
{
    if slots.len() == 0 {
        Seq::empty()
    } else {
        let rest = live_records(slots.drop_last());
        match slots.last() {
            Some(d) => rest.push(d),
            None => rest,
        }
    }
}

/// Rewriting a live slot's payload with a record of the same id view and key
/// view preserves well-formedness.
pub proof fn lemma_payload_update_wf<D: SousARCData>(m: StoreModel<D>, k: usize, d2: D)
    requires
        m.wf(),
        m.live(k as int),
        d2.spec_idv() == m.at(k as int).spec_idv(),
        d2.spec_keyv() == m.at(k as int).spec_keyv(),
    ensures
        (StoreModel { slots: m.slots.update(k as int, Some(d2)), ..m }).wf(),
{
    let m2 = StoreModel { slots: m.slots.update(k as int, Some(d2)), ..m };
    assert forall|j: int| 0 <= j < m2.ids.len() implies m2.live((#[trigger] m2.ids[j]).1 as int)
        && m2.at(m2.ids[j].1 as int).spec_idv() == m2.ids[j].0 by {
        assert(m.live(m.ids[j].1 as int));
    };
    assert forall|j: int| 0 <= j < m2.keys.len() implies m2.live((#[trigger] m2.keys[j]).1 as int)
        && m2.at(m2.keys[j].1 as int).spec_keyv() == m2.keys[j].0 by {
        assert(m.live(m.keys[j].1 as int));
    };
    assert forall|k2: int| #[trigger] m2.live(k2) implies exists|j: int|
        0 <= j < m2.ids.len() && (#[trigger] m2.ids[j]) == (m2.at(k2).spec_idv(), k2 as usize) by {
        assert(m.live(k2));
        let j = choose|j: int|
            0 <= j < m.ids.len() && (#[trigger] m.ids[j]) == (m.at(k2).spec_idv(), k2 as usize);
        assert(m2.ids[j] == (m2.at(k2).spec_idv(), k2 as usize));
    };
    assert forall|k2: int| #[trigger] m2.live(k2) implies exists|j: int|
        0 <= j < m2.keys.len() && (#[trigger] m2.keys[j]) == (m2.at(k2).spec_keyv(), k2 as usize) by {
        assert(m.live(k2));
        let j = choose|j: int|
            0 <= j < m.keys.len() && (#[trigger] m.keys[j]) == (m.at(k2).spec_keyv(), k2 as usize);
        assert(m2.keys[j] == (m2.at(k2).spec_keyv(), k2 as usize));
    };
    assert forall|k2: int|
        0 <= k2 < m2.slots.len() && (#[trigger] m2.slots[k2]) is None implies m2.free.contains(
        k2 as usize,
    ) by {
        assert(m.slots[k2] is None);
    };
}

/// Uniqueness of live entries: in a well-formed store, no two live slots
/// hold records sharing an id view or a key view. This holds after any
/// sequence of inserts (and removes), since every operation starts and ends
/// in a well-formed store.
pub proof fn lemma_live_entries_unique<D: SousARCData>(m: StoreModel<D>)
    requires
        m.wf(),
    ensures
        forall|k1: int, k2: int|
            #![trigger m.live(k1), m.live(k2)]
            m.live(k1) && m.live(k2) && k1 != k2 ==> m.at(k1).spec_idv() != m.at(k2).spec_idv()
                && m.at(k1).spec_keyv() != m.at(k2).spec_keyv(),
{
    assert forall|k1: int, k2: int|
        #![trigger m.live(k1), m.live(k2)]
        m.live(k1) && m.live(k2) && k1 != k2 implies m.at(k1).spec_idv() != m.at(k2).spec_idv()
        && m.at(k1).spec_keyv() != m.at(k2).spec_keyv() by {
        let j1 = choose|j: int|
            0 <= j < m.ids.len() && (#[trigger] m.ids[j]) == (m.at(k1).spec_idv(), k1 as usize);
        let j2 = choose|j: int|
            0 <= j < m.ids.len() && (#[trigger] m.ids[j]) == (m.at(k2).spec_idv(), k2 as usize);
        assert(m.ids[j1].1 == k1 as usize);
        assert(m.ids[j2].1 == k2 as usize);
        assert(j1 != j2);
        assert(m.ids[j1].0 != m.ids[j2].0);
        let w1 = choose|j: int|
            0 <= j < m.keys.len() && (#[trigger] m.keys[j]) == (m.at(k1).spec_keyv(), k1 as usize);
        let w2 = choose|j: int|
            0 <= j < m.keys.len() && (#[trigger] m.keys[j]) == (m.at(k2).spec_keyv(), k2 as usize);
        assert(m.keys[w1].1 == k1 as usize);
        assert(m.keys[w2].1 == k2 as usize);
        assert(w1 != w2);
        assert(m.keys[w1].0 != m.keys[w2].0);
    };
}

/// Index consistency: in a well-formed store, every live slot is referenced
/// by exactly one id-index entry and exactly one key-index entry, both
/// carrying its record's views, and every index entry points at a live slot
/// whose record carries the entry's view. This holds after any sequence of
/// insert, remove and evict operations, since each starts and ends in a
/// well-formed store.
pub proof fn lemma_index_consistency<D: SousARCData>(m: StoreModel<D>)
    requires
        m.wf(),
    ensures
        forall|k: int|
            #[trigger] m.live(k) ==> exists|j: int|
                0 <= j < m.ids.len() && (#[trigger] m.ids[j]) == (m.at(k).spec_idv(), k as usize),
        forall|k: int|
            #[trigger] m.live(k) ==> exists|j: int|
                0 <= j < m.keys.len() && (#[trigger] m.keys[j]) == (m.at(k).spec_keyv(), k as usize),
        forall|j1: int, j2: int|
            0 <= j1 < m.ids.len() && 0 <= j2 < m.ids.len() && j1 != j2 ==> (
            #[trigger] m.ids[j1]).1 != (#[trigger] m.ids[j2]).1,
        forall|j1: int, j2: int|
            0 <= j1 < m.keys.len() && 0 <= j2 < m.keys.len() && j1 != j2 ==> (
            #[trigger] m.keys[j1]).1 != (#[trigger] m.keys[j2]).1,
        forall|j: int|
            0 <= j < m.ids.len() ==> m.live((#[trigger] m.ids[j]).1 as int) && m.at(
                m.ids[j].1 as int,
            ).spec_idv() == m.ids[j].0,
        forall|j: int|
            0 <= j < m.keys.len() ==> m.live((#[trigger] m.keys[j]).1 as int) && m.at(
                m.keys[j].1 as int,
            ).spec_keyv() == m.keys[j].0,
{
}

/// Slot reuse: removing the entry at slot `k` from a store whose free list
/// is empty, and then inserting a fresh record with no other insert in
/// between, places the new record in slot `k` again. (A non-empty free list
/// would hand out its oldest slot first instead.)
pub proof fn lemma_slot_reuse<D: SousARCData>(m: StoreModel<D>, iv: <D::Id as SousARCId>::V, d2: D)
    requires
        m.wf(),
        m.free.len() == 0,
        index_lookup(m.ids, iv) is Some,
    ensures
        ({
            let k = index_lookup(m.ids, iv).unwrap();
            let m1 = spec_remove_id(m, iv).0;
            index_lookup(m1.ids, d2.spec_idv()) is None && index_lookup(m1.keys, d2.spec_keyv())
                is None ==> spec_insert(m1, d2).1 == StoreInsert::<D>::Inserted(k)
        }),
{
    let k = index_lookup(m.ids, iv).unwrap();
    lemma_remove_id_wf(m, iv);
    let m1 = spec_remove_id(m, iv).0;
    lemma_remove_slot_wf(m, k);
    assert(m1.free == m.free.push(k));
    assert(m1.free.len() == 1);
    assert(m1.free[0] == k);
    if index_lookup(m1.ids, d2.spec_idv()) is None && index_lookup(m1.keys, d2.spec_keyv())
        is None {
        assert(index_pos(m1.ids, d2.spec_idv()) is None);
        assert(index_pos(m1.keys, d2.spec_keyv()) is None);
        assert(spec_insert(m1, d2).1 == StoreInsert::<D>::Inserted(k));
    }
}

/// In a well-formed store, a live slot's record is the entry of its id view
/// in the entries map.
pub proof fn lemma_entries_at<D: SousARCData>(m: StoreModel<D>, k: usize)
    requires
        m.wf(),
        m.live(k as int),
    ensures
        index_lookup(m.ids, m.at(k as int).spec_idv()) == Some(k),
        m.entries().contains_key(m.at(k as int).spec_idv()),
        m.entries()[m.at(k as int).spec_idv()] == m.at(k as int),
{
    let iv = m.at(k as int).spec_idv();
    let j = choose|j: int| 0 <= j < m.ids.len() && (#[trigger] m.ids[j]) == (iv, k);
    lemma_index_pos_unique(m.ids, j);
    assert(index_pos(m.ids, iv) == Some(j));
}

/// In a well-formed store, a live id view resolves to a live slot whose
/// record carries it.
pub proof fn lemma_lookup_live<D: SousARCData>(m: StoreModel<D>, iv: <D::Id as SousARCId>::V)
    requires
        m.wf(),
        index_lookup(m.ids, iv) is Some,
    ensures
        ({
            let k = index_lookup(m.ids, iv).unwrap();
            &&& m.live(k as int)
            &&& m.at(k as int).spec_idv() == iv
            &&& m.entries().contains_key(iv)
            &&& m.entries()[iv] == m.at(k as int)
        }),
{
    let j = index_pos(m.ids, iv)->Some_0;
    assert(m.ids[j].0 == iv);
    assert(m.live(m.ids[j].1 as int));
}

/// Rewriting a live slot's payload rewrites exactly that id view's entry in
/// the entries map.
pub proof fn lemma_entries_payload_update<D: SousARCData>(m: StoreModel<D>, k: usize, d2: D)
    requires
        m.wf(),
        m.live(k as int),
    ensures
        (StoreModel { slots: m.slots.update(k as int, Some(d2)), ..m }).entries() == m.entries().insert(
            m.at(k as int).spec_idv(),
            d2,
        ),
{
    let iv = m.at(k as int).spec_idv();
    let m2 = StoreModel { slots: m.slots.update(k as int, Some(d2)), ..m };
    lemma_entries_at(m, k);
    assert forall|iv2: <D::Id as SousARCId>::V| #![auto]
        m2.entries().contains_key(iv2) == m.entries().insert(iv, d2).contains_key(iv2) && (
        m2.entries().contains_key(iv2) ==> m2.entries()[iv2] == m.entries().insert(iv, d2)[iv2]) by {
        if index_lookup(m.ids, iv2) is Some {
            let j = index_pos(m.ids, iv2)->Some_0;
            assert(m.ids[j].0 == iv2);
            let k2 = m.ids[j].1;
            assert(m.live(k2 as int));
            if iv2 == iv {
                assert(index_lookup(m.ids, iv) == Some(k));
                assert(m2.entries()[iv2] == m2.at(k as int));
                assert(m2.at(k as int) == d2);
            } else {
                assert(m.at(k2 as int).spec_idv() == iv2);
                assert(k2 != k);
                assert(m2.at(k2 as int) == m.at(k2 as int));
            }
        }
    };
    assert((StoreModel { slots: m.slots.update(k as int, Some(d2)), ..m }).entries()
        =~= m.entries().insert(iv, d2));
}

/// In a well-formed store, the entries map is finite and has exactly one
/// entry per id-index position.
pub proof fn lemma_entries_dom<D: SousARCData>(m: StoreModel<D>)
    requires
        m.wf(),
    ensures
        m.entries().dom().finite(),
        m.entries().dom().len() == m.ids.len(),
{
    let ivs = m.ids.map_values(|p: (<D::Id as SousARCId>::V, usize)| p.0);
    assert forall|iv: <D::Id as SousARCId>::V| #![auto]
        m.entries().dom().contains(iv) == ivs.contains(iv) by {
        if m.entries().dom().contains(iv) {
            let j = index_pos(m.ids, iv)->Some_0;
            assert(m.ids[j].0 == iv);
            assert(ivs[j] == iv);
        }
        if ivs.contains(iv) {
            let j = choose|j: int| 0 <= j < ivs.len() && ivs[j] == iv;
            assert(m.ids[j].0 == iv);
            assert(index_pos(m.ids, iv) is Some);
        }
    };
    assert(m.entries().dom() =~= ivs.to_set());
    assert forall|j1: int, j2: int|
        0 <= j1 < ivs.len() && 0 <= j2 < ivs.len() && j1 != j2 implies ivs[j1] != ivs[j2] by {
        assert(ivs[j1] == m.ids[j1].0);
        assert(ivs[j2] == m.ids[j2].0);
    };
    ivs.unique_seq_to_set();
    seq_to_set_is_finite(ivs);
}

impl<D: SousARCData> crate::traits::SousARCStorage<D> for StandardStorage<D> {
    open spec fn entries(&self) -> Map<<D::Id as SousARCId>::V, D> {
        self@.entries()
    }

    open spec fn valid(&self) -> bool {
        self@.wf()
    }

    proof fn valid_implies_distinct_keys(&self) {
        let m = self@;
        let ivs = m.ids.map_values(|p: (<D::Id as SousARCId>::V, usize)| p.0);
        assert forall|iv: <D::Id as SousARCId>::V| #![auto]
            m.entries().dom().contains(iv) == ivs.contains(iv) by {
            if m.entries().dom().contains(iv) {
                let j = index_pos(m.ids, iv)->Some_0;
                assert(m.ids[j].0 == iv);
                assert(ivs[j] == iv);
            }
            if ivs.contains(iv) {
                let j = choose|j: int| 0 <= j < ivs.len() && ivs[j] == iv;
                assert(m.ids[j].0 == iv);
                assert(index_pos(m.ids, iv) is Some);
            }
        };
        assert(m.entries().dom() =~= ivs.to_set());
        seq_to_set_is_finite(ivs);
        assert forall|i1: <D::Id as SousARCId>::V, i2: <D::Id as SousARCId>::V|
            m.entries().contains_key(i1) && m.entries().contains_key(i2) && i1 != i2 implies (
        #[trigger] m.entries()[i1].spec_keyv()) != (#[trigger] m.entries()[i2].spec_keyv()) by {
            lemma_lookup_live(m, i1);
            lemma_lookup_live(m, i2);
            let k1 = index_lookup(m.ids, i1).unwrap();
            let k2 = index_lookup(m.ids, i2).unwrap();
            assert(k1 != k2);
            lemma_live_entries_unique(m);
            assert(m.live(k1 as int) && m.live(k2 as int));
        };
        assert forall|i: <D::Id as SousARCId>::V| #[trigger]
            m.entries().contains_key(i) implies m.entries()[i].spec_idv() == i by {
            lemma_lookup_live(m, i);
        };
    }

    fn count(&self) -> (r: usize) {
        proof {
            lemma_entries_dom(self@);
        }
        self.idmap.len()
    }

    fn get(&self, id: D::Id) -> (r: Option<&D>) {
        let ghost m = self@;
        match self.find_slot(&id) {
            Some(k) => {
                proof {
                    lemma_lookup_live(m, id.idv());
                }
                self.get_slot(k)
            },
            None => None,
        }
    }

    fn get_by_key(&self, key: &D::Key) -> (r: Option<&D>) {
        let ghost m = self@;
        match self.find_slot_by_key(key) {
            Some(k) => {
                proof {
                    lemma_entries_at(m, k);
                }
                self.get_slot(k)
            },
            None => {
                proof {
                    assert forall|iv: <D::Id as SousARCId>::V| #[trigger]
                        m.entries().contains_key(iv) implies m.entries()[iv].spec_keyv()
                        != key.keyv() by {
                        lemma_lookup_live(m, iv);
                        let k2 = index_lookup(m.ids, iv).unwrap();
                        let wj = choose|j: int|
                            0 <= j < m.keys.len() && (#[trigger] m.keys[j]) == (
                            m.at(k2 as int).spec_keyv(),
                            k2,
                            );
                        if m.at(k2 as int).spec_keyv() == key.keyv() {
                            assert(m.keys[wj].0 == key.keyv());
                            assert(index_pos(m.keys, key.keyv()) is Some);
                        }
                    };
                }
                None
            },
        }
    }

    fn id(&self, key: &D::Key) -> (r: Option<D::Id>) {
        let ghost m = self@;
        match self.find_slot_by_key(key) {
            Some(k) => {
                proof {
                    lemma_entries_at(m, k);
                }
                match self.get_slot(k) {
                    Some(d) => Some(d.id()),
                    None => vstd::pervasive::unreached(),
                }
            },
            None => {
                proof {
                    assert forall|iv: <D::Id as SousARCId>::V| #[trigger]
                        m.entries().contains_key(iv) implies m.entries()[iv].spec_keyv()
                        != key.keyv() by {
                        lemma_lookup_live(m, iv);
                        let k2 = index_lookup(m.ids, iv).unwrap();
                        let wj = choose|j: int|
                            0 <= j < m.keys.len() && (#[trigger] m.keys[j]) == (
                            m.at(k2 as int).spec_keyv(),
                            k2,
                            );
                        if m.at(k2 as int).spec_keyv() == key.keyv() {
                            assert(m.keys[wj].0 == key.keyv());
                            assert(index_pos(m.keys, key.keyv()) is Some);
                        }
                    };
                }
                None
            },
        }
    }

    fn key(&self, id: D::Id) -> (r: Option<&D::Key>) {
        let ghost m = self@;
        match self.find_slot(&id) {
            Some(k) => {
                proof {
                    lemma_lookup_live(m, id.idv());
                }
                match self.get_slot(k) {
                    Some(d) => Some(d.key()),
                    None => vstd::pervasive::unreached(),
                }
            },
            None => None,
        }
    }
}

impl<D: SousARCData> crate::traits::SousARCStorageMut<D> for StandardStorage<D> {
    fn get_mut(&mut self, id: D::Id) -> (r: Option<&mut D>) {
        let ghost m = self@;
        match StandardStorage::get_mut(self, id) {
            Some(d) => {
                proof {
                    lemma_lookup_live(m, id.idv());
                    let k = index_lookup(m.ids, id.idv()).unwrap();
                    assert forall|d2: D|
                        (StoreModel { slots: m.slots.update(k as int, Some(d2)), ..m }).entries()
                            == #[trigger] m.entries().insert(id.idv(), d2) by {
                        lemma_entries_payload_update(m, k, d2);
                    };
                }
                Some(d)
            },
            None => None,
        }
    }
}

/// The free-list-backed slot table with an id index and an
/// insertion-ordered key index.
pub struct StandardStorage<D: SousARCData> {
    data: Vec<Option<D>>,
    empty_slot: VecDeque<usize>,
    keymap: Vec<(D::Key, usize)>,
    idmap: Vec<(D::Id, usize)>,
}

impl<D: SousARCData> View for StandardStorage<D> {
    type V = StoreModel<D>;

    closed spec fn view(&self) -> StoreModel<D> {
        StoreModel {
            slots: self.data@,
            free: self.empty_slot@,
            ids: self.idmap@.map_values(|p: (D::Id, usize)| (p.0.idv(), p.1)),
            keys: self.keymap@.map_values(|p: (D::Key, usize)| (p.0.keyv(), p.1)),
        }
    }
}

impl<D: SousARCData> StandardStorage<D> {
    /// An empty store: no slots, no free indices, empty indices.
    pub fn new() -> (r: Self)
        ensures
            r@.slots =~= Seq::<Option<D>>::empty(),
            r@.free =~= Seq::<usize>::empty(),
            r@.ids =~= Seq::<(<D::Id as SousARCId>::V, usize)>::empty(),
            r@.keys =~= Seq::<(<D::Key as SousARCKey>::V, usize)>::empty(),
            r@.wf(),
    {
        let r = StandardStorage {
            data: Vec::new(),
            empty_slot: VecDeque::new(),
            keymap: Vec::new(),
            idmap: Vec::new(),
        };
        proof {
            assert(r@.ids =~= Seq::<(<D::Id as SousARCId>::V, usize)>::empty());
            assert(r@.keys =~= Seq::<(<D::Key as SousARCKey>::V, usize)>::empty());
        }
        r
    }

    /// The slot table itself, for read-only inspection.
    pub fn get_data(&self) -> (r: &Vec<Option<D>>)
        ensures
            r@ == self@.slots,
    {
        &self.data
    }

    /// Scans the id index for the first entry whose view matches `id`.
    fn idmap_pos(&self, id: &D::Id) -> (r: Option<usize>)
        ensures
            match r {
                Some(j) => j < self@.ids.len() && self@.ids[j as int].0 == id.idv(),
                None => forall|j: int| 0 <= j < self@.ids.len() ==> (#[trigger] self@.ids[j]).0 != id.idv(),
            },
    {
        let n: usize = self.idmap.len();
        let mut i: usize = 0;
        while i < n
            invariant
                n == self.idmap@.len(),
                self@.ids.len() == n,
                i <= n,
                forall|j: int| 0 <= j < i ==> (#[trigger] self@.ids[j]).0 != id.idv(),
            decreases n - i,
        {
            let p = &self.idmap[i];
            if p.0.eq_id(id) {
                proof {
                    assert(self@.ids[i as int].0 == self.idmap@[i as int].0.idv());
                }
                return Some(i);
            }
            proof {
                assert(self@.ids[i as int].0 == self.idmap@[i as int].0.idv());
            }
            i += 1;
        }
        None
    }

    /// Scans the key index for the first entry whose view matches `key`.
    fn keymap_pos(&self, key: &D::Key) -> (r: Option<usize>)
        ensures
            match r {
                Some(j) => j < self@.keys.len() && self@.keys[j as int].0 == key.keyv(),
                None => forall|j: int| 0 <= j < self@.keys.len() ==> (#[trigger] self@.keys[j]).0 != key.keyv(),
            },
    {
        let n: usize = self.keymap.len();
        let mut i: usize = 0;
        while i < n
            invariant
                n == self.keymap@.len(),
                self@.keys.len() == n,
                i <= n,
                forall|j: int| 0 <= j < i ==> (#[trigger] self@.keys[j]).0 != key.keyv(),
            decreases n - i,
        {
            let p = &self.keymap[i];
            if p.0.eq_key(key) {
                proof {
                    assert(self@.keys[i as int].0 == self.keymap@[i as int].0.keyv());
                }
                return Some(i);
            }
            proof {
                assert(self@.keys[i as int].0 == self.keymap@[i as int].0.keyv());
            }
            i += 1;
        }
        None
    }

    /// Scans the key index for the first entry pointing at slot `k`.
    fn keymap_slot_pos(&self, k: usize) -> (r: Option<usize>)
        ensures
            match r {
                Some(j) => j < self@.keys.len() && self@.keys[j as int].1 == k,
                None => forall|j: int| 0 <= j < self@.keys.len() ==> (#[trigger] self@.keys[j]).1 != k,
            },
    {
        let n: usize = self.keymap.len();
        let mut i: usize = 0;
        while i < n
            invariant
                n == self.keymap@.len(),
                self@.keys.len() == n,
                i <= n,
                forall|j: int| 0 <= j < i ==> (#[trigger] self@.keys[j]).1 != k,
            decreases n - i,
        {
            let p = &self.keymap[i];
            if p.1 == k {
                proof {
                    assert(self@.keys[i as int].1 == self.keymap@[i as int].1);
                }
                return Some(i);
            }
            proof {
                assert(self@.keys[i as int].1 == self.keymap@[i as int].1);
            }
            i += 1;
        }
        None
    }

    /// Scans the id index for the first entry pointing at slot `k`.
    fn idmap_slot_pos(&self, k: usize) -> (r: Option<usize>)
        ensures
            match r {
                Some(j) => j < self@.ids.len() && self@.ids[j as int].1 == k,
                None => forall|j: int| 0 <= j < self@.ids.len() ==> (#[trigger] self@.ids[j]).1 != k,
            },
    {
        let n: usize = self.idmap.len();
        let mut i: usize = 0;
        while i < n
            invariant
                n == self.idmap@.len(),
                self@.ids.len() == n,
                i <= n,
                forall|j: int| 0 <= j < i ==> (#[trigger] self@.ids[j]).1 != k,
            decreases n - i,
        {
            let p = &self.idmap[i];
            if p.1 == k {
                proof {
                    assert(self@.ids[i as int].1 == self.idmap@[i as int].1);
                }
                return Some(i);
            }
            proof {
                assert(self@.ids[i as int].1 == self.idmap@[i as int].1);
            }
            i += 1;
        }
        None
    }

    /// The number of live records.
    pub fn len(&self) -> (r: usize)
        ensures
            r == self@.live_count(),
    {
        self.idmap.len()
    }

    /// Inserts a record: a live id replaces that entry's payload (and key),
    /// a fresh id and key claim the first free slot or a newly appended one,
    /// and a key that is bound to a different live id is rejected with the
    /// record handed back.
    pub fn insert(&mut self, data: D) -> (r: StoreInsert<D>)
        requires
            old(self)@.wf(),
            old(self)@.slots.len() < usize::MAX,
        ensures
            final(self)@ == spec_insert(old(self)@, data).0,
            r == spec_insert(old(self)@, data).1,
            final(self)@.wf(),
    {
        proof {
            lemma_insert_wf(old(self)@, data);
        }
        let ghost m = self@;
        let ghost dsnap = data;
        let id_val = data.id();
        match self.idmap_pos(&id_val) {
            Some(j) => {
                proof {
                    lemma_index_pos_unique(m.ids, j as int);
                    assert(index_pos(m.ids, dsnap.spec_idv()) == Some(j as int));
                }
                let k = self.idmap[j].1;
                proof {
                    assert(m.ids[j as int].1 == k);
                    assert(m.live(k as int));
                }
                let kpos = self.keymap_pos(data.key());
                let conflict = match kpos {
                    Some(j2) => self.keymap[j2].1 != k,
                    None => false,
                };
                if conflict {
                    proof {
                        let j2 = kpos.unwrap() as int;
                        assert(m.keys[j2].0 == dsnap.spec_keyv() && m.keys[j2].1 != k);
                        assert(key_elsewhere(m.keys, dsnap.spec_keyv(), k));
                    }
                    return StoreInsert::KeyInUse(data);
                }
                proof {
                    if key_elsewhere(m.keys, dsnap.spec_keyv(), k) {
                        let j2 = choose|j2: int|
                            0 <= j2 < m.keys.len() && (#[trigger] m.keys[j2]).0
                                == dsnap.spec_keyv() && m.keys[j2].1 != k;
                        match kpos {
                            Some(jf) => {
                                assert(m.keys[jf as int].0 == dsnap.spec_keyv());
                                assert(m.keys[jf as int].1 == k);
                                assert(j2 != jf as int);
                                assert(m.keys[j2].0 != m.keys[jf as int].0);
                            },
                            None => {
                                assert(m.keys[j2].0 != dsnap.spec_keyv());
                            },
                        }
                        assert(false);
                    }
                }
                let kp = match self.keymap_slot_pos(k) {
                    Some(kp) => kp,
                    None => {
                        proof {
                            assert(m.live(k as int));
                            let wj = choose|wj: int|
                                0 <= wj < m.keys.len() && (#[trigger] m.keys[wj]) == (
                                m.at(k as int).spec_keyv(),
                                k,
                                );
                            assert(m.keys[wj].1 == k);
                            assert(false);
                        }
                        vstd::pervasive::unreached()
                    },
                };
                let new_key = data.key().clone_key();
                proof {
                    assert(k < self.data@.len());
                }
                let slot_ref = &mut self.data[k];
                let old_opt = slot_ref.take();
                *slot_ref = Some(data);
                let entry_ref = &mut self.keymap[kp];
                *entry_ref = (new_key, k);
                proof {
                    assert(slot_pos(m.keys, k) == Some(kp as int)) by {
                        lemma_slot_pos_unique(m.keys, kp as int);
                    };
                    assert(self@.slots =~= m.slots.update(k as int, Some(dsnap)));
                    assert(self@.ids =~= m.ids);
                    assert(self@.keys =~= m.keys.update(kp as int, (dsnap.spec_keyv(), k)));
                    assert(self@.free =~= m.free);
                    assert(self@ == spec_insert(m, dsnap).0);
                }
                match old_opt {
                    Some(od) => {
                        proof {
                            assert(od == m.at(k as int));
                        }
                        StoreInsert::Replaced(od)
                    },
                    None => {
                        proof {
                            assert(m.live(k as int));
                            assert(false);
                        }
                        vstd::pervasive::unreached()
                    },
                }
            },
            None => {
                proof {
                    if index_pos(m.ids, dsnap.spec_idv()) is Some {
                        let j2 = index_pos(m.ids, dsnap.spec_idv())->Some_0;
                        assert(m.ids[j2].0 == dsnap.spec_idv());
                        assert(false);
                    }
                }
                match self.keymap_pos(data.key()) {
                    Some(jf) => {
                        proof {
                            assert(m.keys[jf as int].0 == dsnap.spec_keyv());
                            assert(index_pos(m.keys, dsnap.spec_keyv()) is Some);
                        }
                        return StoreInsert::KeyInUse(data);
                    },
                    None => {},
                }
                proof {
                    if index_pos(m.keys, dsnap.spec_keyv()) is Some {
                        let j2 = index_pos(m.keys, dsnap.spec_keyv())->Some_0;
                        assert(m.keys[j2].0 == dsnap.spec_keyv());
                        assert(false);
                    }
                }
                let new_key = data.key().clone_key();
                match self.empty_slot.pop_front() {
                    Some(k) => {
                        proof {
                            assert(m.free[0] == k);
                            assert(m.free.contains(k));
                            assert(k < self.data@.len());
                        }
                        let slot_ref = &mut self.data[k];
                        *slot_ref = Some(data);
                        self.idmap.push((id_val, k));
                        self.keymap.push((new_key, k));
                        proof {
                            assert(self@.slots =~= m.slots.update(k as int, Some(dsnap)));
                            assert(self@.free =~= m.free.drop_first());
                            assert(self@.ids =~= m.ids.push((dsnap.spec_idv(), k)));
                            assert(self@.keys =~= m.keys.push((dsnap.spec_keyv(), k)));
                            assert(self@ == spec_insert(m, dsnap).0);
                        }
                        StoreInsert::Inserted(k)
                    },
                    None => {
                        let k = self.data.len();
                        self.data.push(Some(data));
                        self.idmap.push((id_val, k));
                        self.keymap.push((new_key, k));
                        proof {
                            assert(self@.slots =~= m.slots.push(Some(dsnap)));
                            assert(self@.free =~= m.free);
                            assert(self@.ids =~= m.ids.push((dsnap.spec_idv(), k)));
                            assert(self@.keys =~= m.keys.push((dsnap.spec_keyv(), k)));
                            assert(self@ == spec_insert(m, dsnap).0);
                        }
                        StoreInsert::Inserted(k)
                    },
                }
            },
        }
    }

    /// Removes the record at slot `k`, if live: the slot is cleared, both
    /// index entries disappear, and `k` joins the back of the free list.
    pub fn remove_by_slot(&mut self, k: usize) -> (r: Option<D>)
        requires
            old(self)@.wf(),
        ensures
            final(self)@ == spec_remove_slot(old(self)@, k).0,
            r == spec_remove_slot(old(self)@, k).1,
            final(self)@.wf(),
    {
        proof {
            lemma_remove_slot_wf(old(self)@, k);
        }
        let ghost m = self@;
        if k >= self.data.len() {
            return None;
        }
        let live = self.data[k].is_some();
        if !live {
            return None;
        }
        let jp = match self.idmap_slot_pos(k) {
            Some(j) => j,
            None => {
                proof {
                    assert(m.live(k as int));
                    let wj = choose|wj: int|
                        0 <= wj < m.ids.len() && (#[trigger] m.ids[wj]) == (
                        m.at(k as int).spec_idv(),
                        k,
                        );
                    assert(m.ids[wj].1 == k);
                    assert(false);
                }
                vstd::pervasive::unreached()
            },
        };
        let kp = match self.keymap_slot_pos(k) {
            Some(j) => j,
            None => {
                proof {
                    assert(m.live(k as int));
                    let wj = choose|wj: int|
                        0 <= wj < m.keys.len() && (#[trigger] m.keys[wj]) == (
                        m.at(k as int).spec_keyv(),
                        k,
                        );
                    assert(m.keys[wj].1 == k);
                    assert(false);
                }
                vstd::pervasive::unreached()
            },
        };
        self.idmap.remove(jp);
        self.keymap.remove(kp);
        let slot_ref = &mut self.data[k];
        let old_opt = slot_ref.take();
        self.empty_slot.push_back(k);
        proof {
            assert(slot_pos(m.ids, k) == Some(jp as int)) by {
                lemma_slot_pos_unique(m.ids, jp as int);
            };
            assert(slot_pos(m.keys, k) == Some(kp as int)) by {
                lemma_slot_pos_unique(m.keys, kp as int);
            };
            assert(self@.slots =~= m.slots.update(k as int, None));
            assert(self@.free =~= m.free.push(k));
            assert(self@.ids =~= m.ids.remove(jp as int));
            assert(self@.keys =~= m.keys.remove(kp as int));
            assert(self@ == spec_remove_slot(m, k).0);
        }
        match old_opt {
            Some(od) => Some(od),
            None => {
                proof {
                    assert(m.live(k as int));
                    assert(false);
                }
                vstd::pervasive::unreached()
            },
        }
    }

    /// The slot holding the record with the given id, if live.
    pub fn find_slot(&self, id: &D::Id) -> (r: Option<usize>)
        requires
            self@.wf(),
        ensures
            r == index_lookup(self@.ids, id.idv()),
            match r {
                Some(k) => self@.live(k as int) && self@.at(k as int).spec_idv() == id.idv(),
                None => true,
            },
    {
        let ghost m = self@;
        match self.idmap_pos(id) {
            Some(j) => {
                proof {
                    lemma_index_pos_unique(m.ids, j as int);
                }
                Some(self.idmap[j].1)
            },
            None => {
                proof {
                    if index_pos(m.ids, id.idv()) is Some {
                        let j2 = index_pos(m.ids, id.idv())->Some_0;
                        assert(m.ids[j2].0 == id.idv());
                        assert(false);
                    }
                }
                None
            },
        }
    }

    /// The slot holding the record with the given key, if live.
    pub fn find_slot_by_key(&self, key: &D::Key) -> (r: Option<usize>)
        requires
            self@.wf(),
        ensures
            r == index_lookup(self@.keys, key.keyv()),
            match r {
                Some(k) => self@.live(k as int) && self@.at(k as int).spec_keyv() == key.keyv(),
                None => true,
            },
    {
        let ghost m = self@;
        match self.keymap_pos(key) {
            Some(j) => {
                proof {
                    lemma_index_pos_unique(m.keys, j as int);
                }
                Some(self.keymap[j].1)
            },
            None => {
                proof {
                    if index_pos(m.keys, key.keyv()) is Some {
                        let j2 = index_pos(m.keys, key.keyv())->Some_0;
                        assert(m.keys[j2].0 == key.keyv());
                        assert(false);
                    }
                }
                None
            },
        }
    }

    /// The record at slot `k`, if live. Out-of-range or empty slots are
    /// reported as absent, never as a fault.
    pub fn get_slot(&self, k: usize) -> (r: Option<&D>)
        ensures
            match r {
                Some(d) => self@.live(k as int) && *d == self@.at(k as int),
                None => !self@.live(k as int),
            },
    {
        if k >= self.data.len() {
            return None;
        }
        match &self.data[k] {
            Some(d) => Some(d),
            None => None,
        }
    }

    /// All live records, in slot order; empty slots are skipped.
    pub fn iterate(&self) -> (r: Vec<&D>)
        ensures
            r@.map_values(|d: &D| *d) == live_records(self@.slots),
    {
        let ghost m = self@;
        let mut acc: Vec<&D> = Vec::new();
        let n: usize = self.data.len();
        let mut i: usize = 0;
        while i < n
            invariant
                n == self.data@.len(),
                m.slots == self.data@,
                i <= n,
                acc@.map_values(|d: &D| *d) == live_records(m.slots.take(i as int)),
            decreases n - i,
        {
            proof {
                assert(m.slots.take(i + 1).drop_last() =~= m.slots.take(i as int));
                assert(m.slots.take(i + 1).last() == m.slots[i as int]);
            }
            match &self.data[i] {
                Some(d) => {
                    acc.push(d);
                    proof {
                        assert(acc@.map_values(|d: &D| *d) =~= live_records(
                            m.slots.take(i as int),
                        ).push(m.slots[i as int].unwrap()));
                    }
                },
                None => {},
            }
            i += 1;
        }
        proof {
            assert(m.slots.take(n as int) =~= m.slots);
        }
        acc
    }

    /// A mutable borrow of the record with the given id, if live. The store
    /// stays well-formed provided the caller leaves the record's id view and
    /// key view unchanged.
    pub fn get_mut(&mut self, id: D::Id) -> (r: Option<&mut D>)
        requires
            old(self)@.wf(),
        ensures
            match r {
                Some(d) => {
                    let k = index_lookup(old(self)@.ids, id.idv()).unwrap();
                    &&& index_lookup(old(self)@.ids, id.idv()) is Some
                    &&& old(self)@.live(k as int)
                    &&& *d == old(self)@.at(k as int)
                    &&& final(self)@.slots == old(self)@.slots.update(k as int, Some(*final(d)))
                    &&& final(self)@.free == old(self)@.free
                    &&& final(self)@.ids == old(self)@.ids
                    &&& final(self)@.keys == old(self)@.keys
                    &&& ((*final(d)).spec_idv() == id.idv() && (*final(d)).spec_keyv() == old(
                        self,
                    )@.at(k as int).spec_keyv() ==> final(self)@.wf())
                },
                None => {
                    &&& index_lookup(old(self)@.ids, id.idv()) is None
                    &&& *final(self) == *old(self)
                },
            },
    {
        let ghost m = self@;
        match self.idmap_pos(&id) {
            Some(j) => {
                proof {
                    lemma_index_pos_unique(m.ids, j as int);
                }
                let k = self.idmap[j].1;
                proof {
                    assert(m.live(k as int));
                    assert(k < self.data@.len());
                }
                let slot_ref = &mut self.data[k];
                match slot_ref {
                    Some(d) => {
                        proof {
                            assert forall|d2: D|
                                d2.spec_idv() == id.idv() && d2.spec_keyv() == m.at(
                                    k as int,
                                ).spec_keyv() implies (StoreModel {
                                slots: m.slots.update(k as int, Some(d2)),
                                ..m
                            }).wf() by {
                                lemma_payload_update_wf(m, k, d2);
                            };
                        }
                        Some(d)
                    },
                    None => {
                        proof {
                            assert(false);
                        }
                        vstd::pervasive::unreached()
                    },
                }
            },
            None => {
                proof {
                    if index_pos(m.ids, id.idv()) is Some {
                        let j2 = index_pos(m.ids, id.idv())->Some_0;
                        assert(m.ids[j2].0 == id.idv());
                        assert(false);
                    }
                }
                None
            },
        }
    }

    /// Removes the record with the given id, if live.
    pub fn remove(&mut self, id: D::Id) -> (r: Option<D>)
        requires
            old(self)@.wf(),
        ensures
            final(self)@ == spec_remove_id(old(self)@, id.idv()).0,
            r == spec_remove_id(old(self)@, id.idv()).1,
            final(self)@.wf(),
    {
        proof {
            lemma_remove_id_wf(old(self)@, id.idv());
        }
        let ghost m = self@;
        match self.idmap_pos(&id) {
            Some(j) => {
                proof {
                    lemma_index_pos_unique(m.ids, j as int);
                    assert(index_pos(m.ids, id.idv()) == Some(j as int));
                }
                let k = self.idmap[j].1;
                self.remove_by_slot(k)
            },
            None => {
                proof {
                    if index_pos(m.ids, id.idv()) is Some {
                        let j2 = index_pos(m.ids, id.idv())->Some_0;
                        assert(m.ids[j2].0 == id.idv());
                        assert(false);
                    }
                }
                None
            },
        }
    }
}

} // verus!
