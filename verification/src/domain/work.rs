//! Works: creative projects owned by a user, holding elements.

use vstd::prelude::*;
use vstd::string::StringExecFns;
use crate::idgen::fresh_ulid_bits;
use crate::traits::{IdKeySet, SousARCData, SousARCId, SousARCKey, SousARCStorage};
use crate::domain::element::{ElementData, ElementId, ElementParent};
use crate::domain::user::{UserData, UserId};

verus! {

/// The `::` separator between the segments of a fully-qualified name.
pub open spec fn sep() -> Seq<char> {
    seq![':', ':']
}

/// A work's unique identity handle.
#[derive(Debug, Clone, Copy, PartialEq, Eq, PartialOrd, Ord, Hash)]
pub struct WorkId(u128);

impl WorkId {
    /// A fresh identifier.
    pub fn new() -> (r: Self) {
        WorkId(fresh_ulid_bits())
    }

    /// The identifier's raw bits, for callers that persist records.
    pub fn bits(&self) -> (r: u128)
        ensures
            r == self.idv(),
    {
        self.0
    }

    /// An identifier with the given bits.
    pub fn from_bits(bits: u128) -> (r: Self)
        ensures
            r.idv() == bits,
    {
        WorkId(bits)
    }
}

impl SousARCId for WorkId {
    type V = u128;

    closed spec fn idv(&self) -> u128 {
        self.0
    }

    fn eq_id(&self, other: &Self) -> (r: bool) {
        self.0 == other.0
    }
}

/// A work's lookup key: the owning user's id together with the work's name,
/// which scopes name uniqueness to that user and orders works by owner.
#[derive(Debug, Clone, PartialEq, Eq, PartialOrd, Ord, Hash)]
pub struct WorkKey {
    user_id: UserId,
    work_name: String,
}

/// The fully-qualified name of a work key: the owning user's own segment,
/// `::`, then the work's name — or only the work's name when the owner is
/// not in the given user storage (an ancestor miss degrades gracefully, it
/// is no error).
pub open spec fn work_fq(kv: (u128, Seq<char>), users: Map<u128, UserData>) -> Seq<char> {
    if users.contains_key(kv.0) {
        users[kv.0].spec_keyv() + sep() + kv.1
    } else {
        kv.1
    }
}

impl WorkKey {
    /// A key scoping `work_name` under the given owner.
    pub fn new(user_id: UserId, work_name: String) -> (r: Self)
        ensures
            r.keyv() == (user_id.idv(), work_name@),
    {
        WorkKey { user_id, work_name }
    }

    /// The owning user's id.
    pub fn parent_user(&self) -> (r: UserId)
        ensures
            r.idv() == self.keyv().0,
    {
        self.user_id
    }

    /// The work's own name segment.
    pub fn as_str(&self) -> (r: &str)
        ensures
            r@ == self.keyv().1,
    {
        self.work_name.as_str()
    }

    /// Resolves the fully-qualified `user::work` name against a user
    /// storage. A missing owner record yields only the work's own segment.
    pub fn fq_name<S: SousARCStorage<UserData>>(&self, users: &S) -> (r: String)
        requires
            users.valid(),
        ensures
            r@ == work_fq(self.keyv(), users.entries()),
    {
        let mut out = String::new();
        match users.key(self.user_id) {
            Some(uk) => {
                out.append(uk.as_str());
                out.append("::");
                proof {
                    reveal_strlit("::");
                    assert("::"@ =~= sep());
                }
            },
            None => {},
        }
        out.append(self.work_name.as_str());
        out
    }
}

impl SousARCKey for WorkKey {
    type V = (u128, Seq<char>);

    closed spec fn keyv(&self) -> (u128, Seq<char>) {
        (self.user_id.idv(), self.work_name@)
    }

    fn eq_key(&self, other: &Self) -> (r: bool) {
        self.user_id.eq_id(&other.user_id) && self.work_name == other.work_name
    }

    fn clone_key(&self) -> (r: Self) {
        WorkKey { user_id: self.user_id, work_name: self.work_name.clone() }
    }
}

/// Generated metadata attached to a work.
#[derive(Debug)]
pub struct GeneratedWorkMeta {
    pub summary: String,
    pub keywords: Vec<String>,
    pub theme: String,
    pub genre: String,
}

impl GeneratedWorkMeta {
    /// Empty metadata.
    pub fn empty() -> (r: Self)
        ensures
            r.summary@ =~= Seq::<char>::empty(),
    {
        GeneratedWorkMeta {
            summary: String::new(),
            keywords: Vec::new(),
            theme: String::new(),
            genre: String::new(),
        }
    }
}

/// A work record: identity plus content fields and the ids of its elements.
#[derive(Debug)]
pub struct WorkData {
    pub id_key: IdKeySet<WorkId, WorkKey>,
    pub elements: Vec<ElementId>,
    pub display_name: String,
    pub description: String,
    pub history: Vec<String>,
    pub gen_meta: GeneratedWorkMeta,
}

impl SousARCData for WorkData {
    type Id = WorkId;

    type Key = WorkKey;

    closed spec fn spec_idv(&self) -> u128 {
        self.id_key.spec_idv()
    }

    closed spec fn spec_keyv(&self) -> (u128, Seq<char>) {
        self.id_key.spec_keyv()
    }

    fn id_key_set(&self) -> (r: &IdKeySet<WorkId, WorkKey>) {
        let r = &self.id_key;
        proof {
            assert(r.spec_idv() == self.spec_idv());
            assert(r.spec_keyv() == self.spec_keyv());
        }
        r
    }
}

impl WorkData {
    /// A new work with the given id, owner and name, and empty content.
    pub fn new(id: WorkId, user_id: UserId, work_name: String) -> (r: Self)
        ensures
            r.spec_idv() == id.idv(),
            r.spec_keyv() == (user_id.idv(), work_name@),
            r.elements@ =~= Seq::<ElementId>::empty(),
    {
        let key = WorkKey::new(user_id, work_name);
        WorkData {
            id_key: IdKeySet::new(id, key),
            elements: Vec::new(),
            display_name: String::new(),
            description: String::new(),
            history: Vec::new(),
            gen_meta: GeneratedWorkMeta::empty(),
        }
    }

    /// The ids of the work's elements.
    fn copy_children(&self) -> (r: Vec<ElementId>)
        ensures
            r@ == self.elements@,
    {
        let mut out: Vec<ElementId> = Vec::new();
        let n: usize = self.elements.len();
        let mut i: usize = 0;
        while i < n
            invariant
                n == self.elements@.len(),
                i <= n,
                out@ == self.elements@.take(i as int),
            decreases n - i,
        {
            out.push(self.elements[i]);
            proof {
                assert(self.elements@.take(i + 1) =~= self.elements@.take(i as int).push(
                    self.elements@[i as int],
                ));
            }
            i += 1;
        }
        proof {
            assert(self.elements@.take(n as int) =~= self.elements@);
        }
        out
    }

    /// Creates a new top-level element under this work, registering it as a
    /// child. The work's identity is untouched.
    pub fn spawn(&mut self, element_name: String) -> (r: ElementData)
        ensures
            final(self).spec_idv() == old(self).spec_idv(),
            final(self).spec_keyv() == old(self).spec_keyv(),
            final(self).elements@.len() == old(self).elements@.len() + 1,
            forall|i: int|
                0 <= i < old(self).elements@.len() ==> #[trigger] final(self).elements@[i] == old(
                    self,
                ).elements@[i],
            final(self).elements@.last().idv() == r.spec_idv(),
            r.spec_keyv().0 == crate::domain::element::ElementParentV::Root(old(self).spec_idv()),
            r.spec_keyv().1 == element_name@,
    {
        let element_id = ElementId::new();
        self.elements.push(element_id);
        ElementData::new(element_id, ElementParent::Root(self.id_key.id()), element_name)
    }
}

impl crate::topology::SousARCKeyHasParent<UserData, WorkData, UserId> for WorkKey {
    closed spec fn spec_parent_ids(&self) -> Seq<UserId> {
        seq![self.user_id]
    }

    fn parent_id(&self) -> (r: Vec<UserId>) {
        let mut out: Vec<UserId> = Vec::new();
        out.push(self.user_id);
        proof {
            assert(out@ =~= seq![self.user_id]);
        }
        out
    }
}

impl crate::topology::SousARCDataHasChild<ElementData, WorkId, crate::domain::element::ElementKey> for WorkData {
    open spec fn spec_children(&self) -> Seq<ElementId> {
        self.elements@
    }

    fn children(&self) -> (r: Vec<ElementId>) {
        self.copy_children()
    }
}

impl crate::topology::SousARCIdHasChild<WorkData, ElementData, crate::domain::element::ElementKey> for WorkId {

}

/// Graceful ancestor miss: resolving a work key whose owning user is not in
/// the user storage — in particular right after that user record was
/// removed — yields the work's own segment, not an error.
pub proof fn lemma_graceful_ancestor_miss(kv: (u128, Seq<char>), users: Map<u128, UserData>)
    ensures
        !users.contains_key(kv.0) ==> work_fq(kv, users) == kv.1,
        work_fq(kv, users.remove(kv.0)) == kv.1,
{
}

} // verus!
