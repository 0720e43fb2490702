//! The identity model: contracts for an `Id`, a `Key`, and a `Data` record,
//! and the binding between them.
//!
//! Every id and key carries a mathematical view (`idv` / `keyv`); all storage
//! contracts are stated over those views, so that two handles are "the same"
//! exactly when their views coincide.

use vstd::prelude::*;

verus! {

/// A unique, copyable identity handle for one record.
pub trait SousARCId: Sized + Copy {
    /// The mathematical content of the id.
    type V;

    /// The view of this id value.
    spec fn idv(&self) -> Self::V;

    /// Decides whether two ids have the same view.
    fn eq_id(&self, other: &Self) -> (r: bool)
        ensures
            r == (self.idv() == other.idv()),
    ;
}

/// A unique, cloneable lookup/display handle for one record; it may embed a
/// parent id.
pub trait SousARCKey: Sized {
    /// The mathematical content of the key.
    type V;

    /// The view of this key value.
    spec fn keyv(&self) -> Self::V;

    /// Decides whether two keys have the same view.
    fn eq_key(&self, other: &Self) -> (r: bool)
        ensures
            r == (self.keyv() == other.keyv()),
    ;

    /// A copy of this key, with the same view.
    fn clone_key(&self) -> (r: Self)
        ensures
            r.keyv() == self.keyv(),
    ;
}

/// The bound id/key pair of one record. A record never changes its identity
/// after creation, so the pair is immutable once built.
#[derive(Debug)]
pub struct IdKeySet<I: SousARCId, K: SousARCKey> {
    id: I,
    key: K,
}

impl<I: SousARCId, K: SousARCKey> IdKeySet<I, K> {
    /// The view of the bound id.
    pub closed spec fn spec_idv(&self) -> I::V {
        self.id.idv()
    }

    /// The view of the bound key.
    pub closed spec fn spec_keyv(&self) -> K::V {
        self.key.keyv()
    }

    /// Binds an id and a key together.
    pub fn new(id: I, key: K) -> (r: Self)
        ensures
            r.spec_idv() == id.idv(),
            r.spec_keyv() == key.keyv(),
    {
        IdKeySet { id, key }
    }

    /// The bound id.
    pub fn id(&self) -> (r: I)
        ensures
            r.idv() == self.spec_idv(),
    {
        self.id
    }

    /// The bound key.
    pub fn key(&self) -> (r: &K)
        ensures
            r.keyv() == self.spec_keyv(),
    {
        &self.key
    }
}

/// A record: a payload together with its bound id/key pair.
pub trait SousARCData: Sized {
    /// The record's id type.
    type Id: SousARCId;

    /// The record's key type.
    type Key: SousARCKey;

    /// The view of the record's id.
    spec fn spec_idv(&self) -> <Self::Id as SousARCId>::V;

    /// The view of the record's key.
    spec fn spec_keyv(&self) -> <Self::Key as SousARCKey>::V;

    /// The record's bound id/key pair.
    fn id_key_set(&self) -> (r: &IdKeySet<Self::Id, Self::Key>)
        ensures
            r.spec_idv() == self.spec_idv(),
            r.spec_keyv() == self.spec_keyv(),
    ;

    /// The record's id, read off the bound pair.
    fn id(&self) -> (r: Self::Id)
        ensures
            r.idv() == self.spec_idv(),
    {
        let iks = self.id_key_set();
        iks.id()
    }

    /// The record's key, read off the bound pair.
    fn key(&self) -> (r: &Self::Key)
        ensures
            r.keyv() == self.spec_keyv(),
    {
        let iks = self.id_key_set();
        iks.key()
    }
}

/// Read access to a storage of `D` records, modelled as a finite map from id
/// views to records.
pub trait SousARCStorage<D: SousARCData> {
    /// The live records, keyed by the view of their id.
    spec fn entries(&self) -> Map<<D::Id as SousARCId>::V, D>;

    /// The implementation's internal invariant; every method needs it. It
    /// includes that the entries form a finite map in which no two records
    /// share a key view.
    spec fn valid(&self) -> bool;

    /// Key uniqueness across the live entries, implied by `valid`.
    proof fn valid_implies_distinct_keys(&self)
        requires
            self.valid(),
        ensures
            self.entries().dom().finite(),
            forall|i1: <D::Id as SousARCId>::V, i2: <D::Id as SousARCId>::V|
                self.entries().contains_key(i1) && self.entries().contains_key(i2) && i1 != i2
                    ==> (#[trigger] self.entries()[i1].spec_keyv()) != (
                #[trigger] self.entries()[i2].spec_keyv()),
            forall|i: <D::Id as SousARCId>::V| #[trigger]
                self.entries().contains_key(i) ==> self.entries()[i].spec_idv() == i,
    ;

    /// The number of live records.
    fn count(&self) -> (r: usize)
        requires
            self.valid(),
        ensures
            r == self.entries().dom().len(),
    ;

    /// The record with the given id, if live.
    fn get(&self, id: D::Id) -> (r: Option<&D>)
        requires
            self.valid(),
        ensures
            match r {
                Some(d) => self.entries().contains_key(id.idv()) && *d == self.entries()[id.idv()],
                None => !self.entries().contains_key(id.idv()),
            },
    ;

    /// The record with the given key, if live.
    fn get_by_key(&self, key: &D::Key) -> (r: Option<&D>)
        requires
            self.valid(),
        ensures
            match r {
                Some(d) => self.entries().contains_key(d.spec_idv()) && *d == self.entries()[d.spec_idv()]
                    && d.spec_keyv() == key.keyv(),
                None => forall|i: <D::Id as SousARCId>::V| #[trigger]
                    self.entries().contains_key(i) ==> self.entries()[i].spec_keyv() != key.keyv(),
            },
    ;

    /// Reverse lookup: the id owning the given key, if live.
    fn id(&self, key: &D::Key) -> (r: Option<D::Id>)
        requires
            self.valid(),
        ensures
            match r {
                Some(id) => self.entries().contains_key(id.idv()) && self.entries()[id.idv()].spec_keyv()
                    == key.keyv(),
                None => forall|i: <D::Id as SousARCId>::V| #[trigger]
                    self.entries().contains_key(i) ==> self.entries()[i].spec_keyv() != key.keyv(),
            },
    ;

    /// The key bound to the given id, if live.
    fn key(&self, id: D::Id) -> (r: Option<&D::Key>)
        requires
            self.valid(),
        ensures
            match r {
                Some(k) => self.entries().contains_key(id.idv()) && k.keyv() == self.entries()[id.idv()].spec_keyv(),
                None => !self.entries().contains_key(id.idv()),
            },
    ;
}

/// Mutable access to a storage of `D` records. The caller may rewrite a
/// record's payload in place; validity of the storage is owed back only if
/// the record keeps its identity (same id view and key view).
pub trait SousARCStorageMut<D: SousARCData>: SousARCStorage<D> {
    /// A mutable borrow of the record with the given id, if live.
    fn get_mut(&mut self, id: D::Id) -> (r: Option<&mut D>)
        requires
            old(self).valid(),
        ensures
            match r {
                Some(d) => {
                    &&& old(self).entries().contains_key(id.idv())
                    &&& *d == old(self).entries()[id.idv()]
                    &&& final(self).entries() == old(self).entries().insert(
                        id.idv(),
                        *final(d),
                    )
                    &&& ((*final(d)).spec_idv() == id.idv() && (*final(d)).spec_keyv() == old(
                        self,
                    ).entries()[id.idv()].spec_keyv() ==> final(self).valid())
                },
                None => {
                    &&& !old(self).entries().contains_key(id.idv())
                    &&& final(self).entries() == old(self).entries()
                    &&& final(self).valid()
                },
            },
    ;
}

} // verus!
