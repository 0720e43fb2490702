//! Parent/child topology: marker and accessor traits that wire a child
//! `Data` type, its parent's `Data` and `Id` types, and the child's `Key`
//! type together. Declaring one side demands the other sides, so a
//! hierarchy cannot be assembled half-wired.

use vstd::prelude::*;
use crate::traits::{SousARCData, SousARCId, SousARCKey, SousARCStorage};

verus! {

/// The key views of the given ids that are live in `entries`, in id order;
/// ids the map does not know are skipped.
pub open spec fn live_key_views<D: SousARCData>(
    ids: Seq<<D as SousARCData>::Id>,
    entries: Map<<<D as SousARCData>::Id as SousARCId>::V, D>,
) -> Seq<<<D as SousARCData>::Key as SousARCKey>::V>
    decreases ids.len(),
{
    if ids.len() == 0 {
        Seq::empty()
    } else {
        let rest = live_key_views(ids.drop_last(), entries);
        if entries.contains_key(ids.last().idv()) {
            rest.push(entries[ids.last().idv()].spec_keyv())
        } else {
            rest
        }
    }
}

/// A record type whose values own children of type `C`. `Pi` is this (the
/// parent) type's id, `Ck` the child's key type, which can enumerate parent
/// ids.
pub trait SousARCDataHasChild<C, Pi, Ck> where
    Self: SousARCData<Id = Pi>,
    C: SousARCData<Key = Ck>,
    Pi: SousARCIdHasChild<Self, C, Ck>,
    Ck: SousARCKeyHasParent<Self, C, Pi>,
 {
    /// The ids of this record's children.
    spec fn spec_children(&self) -> Seq<<C as SousARCData>::Id>;

    /// The ids of this record's children.
    fn children(&self) -> (r: Vec<<C as SousARCData>::Id>)
        ensures
            r@ == self.spec_children(),
    ;

    /// The keys of those children that are live in the given storage, in
    /// child order; children the storage does not know are skipped.
    fn children_key<'a, S: SousARCStorage<C>>(&self, storage: &'a S) -> (r: Vec<
        &'a <C as SousARCData>::Key,
    >)
        requires
            storage.valid(),
        ensures
            r@.map_values(|k: &<C as SousARCData>::Key| k.keyv()) == live_key_views(
                self.spec_children(),
                storage.entries(),
            ),
    {
        let ids = self.children();
        let mut out: Vec<&'a <C as SousARCData>::Key> = Vec::new();
        let n: usize = ids.len();
        let mut i: usize = 0;
        while i < n
            invariant
                storage.valid(),
                n == ids@.len(),
                ids@ == self.spec_children(),
                i <= n,
                out@.map_values(|k: &<C as SousARCData>::Key| k.keyv()) == live_key_views(
                    ids@.take(i as int),
                    storage.entries(),
                ),
            decreases n - i,
        {
            proof {
                assert(ids@.take(i + 1).drop_last() =~= ids@.take(i as int));
                assert(ids@.take(i + 1).last() == ids@[i as int]);
            }
            match storage.key(ids[i]) {
                Some(k) => {
                    out.push(k);
                    proof {
                        assert(out@.map_values(|k: &<C as SousARCData>::Key| k.keyv())
                            =~= live_key_views(ids@.take(i as int), storage.entries()).push(
                            storage.entries()[ids@[i as int].idv()].spec_keyv(),
                        ));
                    }
                },
                None => {},
            }
            i += 1;
        }
        proof {
            assert(ids@.take(n as int) =~= ids@);
        }
        out
    }
}

/// The id type of a parent record type `P` whose values own children of
/// type `C`.
pub trait SousARCIdHasChild<P, C, Ck> where
    Self: SousARCId,
    P: SousARCData<Id = Self>,
    C: SousARCData<Key = Ck>,
    Ck: SousARCKeyHasParent<P, C, Self>,
 {

}

/// A record type whose values hang under a parent of type `P`. Implemented
/// automatically whenever the child side, the id side and the key side are
/// all declared.
pub trait SousARCDataHasParent<P, Pi, Ck> where
    Self: SousARCData<Key = Ck>,
    P: SousARCData<Id = Pi> + SousARCDataHasChild<Self, Pi, Ck>,
    Pi: SousARCIdHasChild<P, Self, Ck>,
    Ck: SousARCKeyHasParent<P, Self, Pi>,
 {

}

impl<P, C, Pi, Ck> SousARCDataHasParent<P, Pi, Ck> for C where
    C: SousARCData<Key = Ck>,
    P: SousARCData<Id = Pi> + SousARCDataHasChild<C, Pi, Ck>,
    Pi: SousARCIdHasChild<P, C, Ck>,
    Ck: SousARCKeyHasParent<P, C, Pi>,
 {

}

/// The key type of a child record type `C`: it can enumerate the ids of the
/// parents (of type `P`) it hangs under.
pub trait SousARCKeyHasParent<P, C, Pi> where
    Self: SousARCKey,
    C: SousARCData<Key = Self>,
    P: SousARCData<Id = Pi>,
    Pi: SousARCId,
 {
    /// The parent ids this key embeds.
    spec fn spec_parent_ids(&self) -> Seq<Pi>;

    /// The parent ids this key embeds.
    fn parent_id(&self) -> (r: Vec<Pi>)
        ensures
            r@ == self.spec_parent_ids(),
    ;

    /// The keys of those parents that are live in the given storage, in
    /// order; parents the storage does not know are skipped.
    fn parent_key<'a, S: SousARCStorage<P>>(&self, storage: &'a S) -> (r: Vec<
        &'a <P as SousARCData>::Key,
    >)
        requires
            storage.valid(),
        ensures
            r@.map_values(|k: &<P as SousARCData>::Key| k.keyv()) == live_key_views(
                self.spec_parent_ids(),
                storage.entries(),
            ),
    {
        let ids = self.parent_id();
        let mut out: Vec<&'a <P as SousARCData>::Key> = Vec::new();
        let n: usize = ids.len();
        let mut i: usize = 0;
        while i < n
            invariant
                storage.valid(),
                n == ids@.len(),
                ids@ == self.spec_parent_ids(),
                i <= n,
                out@.map_values(|k: &<P as SousARCData>::Key| k.keyv()) == live_key_views(
                    ids@.take(i as int),
                    storage.entries(),
                ),
            decreases n - i,
        {
            proof {
                assert(ids@.take(i + 1).drop_last() =~= ids@.take(i as int));
                assert(ids@.take(i + 1).last() == ids@[i as int]);
            }
            match storage.key(ids[i]) {
                Some(k) => {
                    out.push(k);
                    proof {
                        assert(out@.map_values(|k: &<P as SousARCData>::Key| k.keyv())
                            =~= live_key_views(ids@.take(i as int), storage.entries()).push(
                            storage.entries()[ids@[i as int].idv()].spec_keyv(),
                        ));
                    }
                },
                None => {},
            }
            i += 1;
        }
        proof {
            assert(ids@.take(n as int) =~= ids@);
        }
        out
    }
}

} // verus!
