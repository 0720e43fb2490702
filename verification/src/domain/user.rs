//! Users: the root of the content hierarchy.

use vstd::prelude::*;
use crate::idgen::fresh_ulid_bits;
use crate::traits::{IdKeySet, SousARCData, SousARCId, SousARCKey};
use crate::domain::work::{WorkData, WorkId};

verus! {

/// A user's unique identity handle.
#[derive(Debug, Clone, Copy, PartialEq, Eq, PartialOrd, Ord, Hash)]
pub struct UserId(u128);

impl UserId {
    /// A fresh identifier.
    pub fn new() -> (r: Self) {
        UserId(fresh_ulid_bits())
    }

    /// The identifier's raw bits, for callers that persist records.
    pub fn bits(&self) -> (r: u128)
        ensures
            r == self.idv(),
    {
        self.0
    }

    /// An identifier with the given bits, for callers that allocate ids
    /// themselves.
    pub fn from_bits(bits: u128) -> (r: Self)
        ensures
            r.idv() == bits,
    {
        UserId(bits)
    }
}

impl SousARCId for UserId {
    type V = u128;

    closed spec fn idv(&self) -> u128 {
        self.0
    }

    fn eq_id(&self, other: &Self) -> (r: bool) {
        self.0 == other.0
    }
}

/// A user's lookup key: the account name.
#[derive(Debug, Clone, PartialEq, Eq, PartialOrd, Ord, Hash)]
pub struct UserKey {
    name: String,
}

impl UserKey {
    /// A key carrying the given account name.
    pub fn new(name: String) -> (r: Self)
        ensures
            r.keyv() == name@,
    {
        UserKey { name }
    }

    /// The account name.
    pub fn as_str(&self) -> (r: &str)
        ensures
            r@ == self.keyv(),
    {
        self.name.as_str()
    }
}

impl SousARCKey for UserKey {
    type V = Seq<char>;

    closed spec fn keyv(&self) -> Seq<char> {
        self.name@
    }

    fn eq_key(&self, other: &Self) -> (r: bool) {
        self.name == other.name
    }

    fn clone_key(&self) -> (r: Self) {
        UserKey { name: self.name.clone() }
    }
}

/// A user record: identity plus profile fields and the ids of the works the
/// user owns.
#[derive(Debug)]
pub struct UserData {
    pub id_key: IdKeySet<UserId, UserKey>,
    pub works: Vec<WorkId>,
    pub display_name: String,
    pub introduction: String,
    pub email: String,
}

impl SousARCData for UserData {
    type Id = UserId;

    type Key = UserKey;

    closed spec fn spec_idv(&self) -> u128 {
        self.id_key.spec_idv()
    }

    closed spec fn spec_keyv(&self) -> Seq<char> {
        self.id_key.spec_keyv()
    }

    fn id_key_set(&self) -> (r: &IdKeySet<UserId, UserKey>) {
        let r = &self.id_key;
        proof {
            assert(r.spec_idv() == self.spec_idv());
            assert(r.spec_keyv() == self.spec_keyv());
        }
        r
    }
}

impl UserData {
    /// A new user keyed by the given account name, with a fresh id and
    /// empty profile fields.
    pub fn new(name: String) -> (r: Self)
        ensures
            r.spec_keyv() == name@,
            r.works@ =~= Seq::<WorkId>::empty(),
    {
        let id = UserId::new();
        let key = UserKey::new(name);
        UserData {
            id_key: IdKeySet::new(id, key),
            works: Vec::new(),
            display_name: String::new(),
            introduction: String::new(),
            email: String::new(),
        }
    }

    /// The ids of the user's works.
    fn copy_children(&self) -> (r: Vec<WorkId>)
        ensures
            r@ == self.works@,
    {
        let mut out: Vec<WorkId> = Vec::new();
        let n: usize = self.works.len();
        let mut i: usize = 0;
        while i < n
            invariant
                n == self.works@.len(),
                i <= n,
                out@ == self.works@.take(i as int),
            decreases n - i,
        {
            out.push(self.works[i]);
            proof {
                assert(self.works@.take(i + 1) =~= self.works@.take(i as int).push(
                    self.works@[i as int],
                ));
            }
            i += 1;
        }
        proof {
            assert(self.works@.take(n as int) =~= self.works@);
        }
        out
    }

    /// Creates a new work owned by this user, registering it as a child.
    /// The user's identity is untouched.
    pub fn spawn(&mut self, work_name: String) -> (r: WorkData)
        ensures
            final(self).spec_idv() == old(self).spec_idv(),
            final(self).spec_keyv() == old(self).spec_keyv(),
            final(self).works@.len() == old(self).works@.len() + 1,
            forall|i: int|
                0 <= i < old(self).works@.len() ==> #[trigger] final(self).works@[i] == old(
                    self,
                ).works@[i],
            r.spec_keyv() == (old(self).spec_idv(), work_name@),
            final(self).works@.last().idv() == r.spec_idv(),
            final(self).display_name == old(self).display_name,
            final(self).introduction == old(self).introduction,
            final(self).email == old(self).email,
    {
        let work_id = WorkId::new();
        self.works.push(work_id);
        WorkData::new(work_id, self.id_key.id(), work_name)
    }
}

impl crate::topology::SousARCDataHasChild<WorkData, UserId, crate::domain::work::WorkKey> for UserData {
    open spec fn spec_children(&self) -> Seq<WorkId> {
        self.works@
    }

    fn children(&self) -> (r: Vec<WorkId>) {
        self.copy_children()
    }
}

impl crate::topology::SousARCIdHasChild<UserData, WorkData, crate::domain::work::WorkKey> for UserId {

}

} // verus!
