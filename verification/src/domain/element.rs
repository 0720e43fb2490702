//! Elements: world-building entries under a work, nesting freely under one
//! another.

use vstd::prelude::*;
use vstd::string::StringExecFns;
use crate::idgen::fresh_ulid_bits;
use crate::traits::{IdKeySet, SousARCData, SousARCId, SousARCKey, SousARCStorage};
use crate::domain::user::UserData;
use crate::domain::work::{sep, work_fq, WorkData, WorkId};

verus! {

/// An element's unique identity handle.
#[derive(Debug, Clone, Copy, PartialEq, Eq, PartialOrd, Ord, Hash)]
pub struct ElementId(u128);

impl ElementId {
    /// A fresh identifier.
    pub fn new() -> (r: Self) {
        ElementId(fresh_ulid_bits())
    }

    /// The identifier's raw bits, for callers that persist records.
    pub fn bits(&self) -> (r: u128)
        ensures
            r == self.idv(),
    {
        self.0
    }

    /// An identifier with the given bits.
    pub fn from_bits(bits: u128) -> (r: Self)
        ensures
            r.idv() == bits,
    {
        ElementId(bits)
    }
}

impl SousARCId for ElementId {
    type V = u128;

    closed spec fn idv(&self) -> u128 {
        self.0
    }

    fn eq_id(&self, other: &Self) -> (r: bool) {
        self.0 == other.0
    }
}

/// An element's parent: either a work (top-level) or another element
/// (nested) — a type may be its own parent kind.
#[derive(Debug, Clone, Copy, PartialEq, Eq, PartialOrd, Ord, Hash)]
pub enum ElementParent {
    Root(WorkId),
    Nest(ElementId),
}

/// The mathematical view of an element parent.
pub ghost enum ElementParentV {
    Root(u128),
    Nest(u128),
}

impl ElementParent {
    /// The view of this parent handle.
    pub open spec fn pv(self) -> ElementParentV {
        match self {
            ElementParent::Root(w) => ElementParentV::Root(w.idv()),
            ElementParent::Nest(e) => ElementParentV::Nest(e.idv()),
        }
    }
}

/// An element's lookup key: its parent handle together with its name, which
/// scopes name uniqueness to the parent.
#[derive(Debug, Clone, PartialEq, Eq, PartialOrd, Ord, Hash)]
pub struct ElementKey {
    parent: ElementParent,
    name: String,
}

/// The fully-qualified name of an element key, resolved through the user,
/// work and element storages with at most `fuel` nested-parent hops. Any
/// ancestor miss — a parent id no storage knows, or a parent chain longer
/// than the fuel (which live data cannot produce unless it cycles) — stops
/// the ancestor prefix there and keeps the locally known suffix.
pub open spec fn elem_fq(
    kv: (ElementParentV, Seq<char>),
    users: Map<u128, UserData>,
    works: Map<u128, WorkData>,
    elems: Map<u128, ElementData>,
    fuel: nat,
) -> Seq<char>
    decreases fuel,
{
    match kv.0 {
        ElementParentV::Root(wid) => {
            if works.contains_key(wid) {
                work_fq(works[wid].spec_keyv(), users) + sep() + kv.1
            } else {
                kv.1
            }
        },
        ElementParentV::Nest(eid) => {
            if fuel > 0 && elems.contains_key(eid) {
                elem_fq(elems[eid].spec_keyv(), users, works, elems, (fuel - 1) as nat) + sep()
                    + kv.1
            } else {
                kv.1
            }
        },
    }
}

impl ElementKey {
    /// A key for a top-level element under the given work.
    pub fn new_root(parent: WorkId, name: String) -> (r: Self)
        ensures
            r.keyv() == (ElementParentV::Root(parent.idv()), name@),
    {
        ElementKey { parent: ElementParent::Root(parent), name }
    }

    /// A key for an element nested under another element.
    pub fn new_nest(parent: ElementId, name: String) -> (r: Self)
        ensures
            r.keyv() == (ElementParentV::Nest(parent.idv()), name@),
    {
        ElementKey { parent: ElementParent::Nest(parent), name }
    }

    /// The parent handle.
    pub fn parent(&self) -> (r: ElementParent)
        ensures
            r.pv() == self.keyv().0,
    {
        self.parent
    }

    /// The element's own name segment.
    pub fn as_str(&self) -> (r: &str)
        ensures
            r@ == self.keyv().1,
    {
        self.name.as_str()
    }

    /// Resolves the fully-qualified name with an explicit bound on
    /// nested-parent hops.
    pub fn fq_name_bounded<SU: SousARCStorage<UserData>, SW: SousARCStorage<WorkData>, SE: SousARCStorage<ElementData>>(
        &self,
        users: &SU,
        works: &SW,
        elements: &SE,
        fuel: usize,
    ) -> (r: String)
        requires
            users.valid(),
            works.valid(),
            elements.valid(),
        ensures
            r@ == elem_fq(
                self.keyv(),
                users.entries(),
                works.entries(),
                elements.entries(),
                fuel as nat,
            ),
        decreases fuel,
    {
        match &self.parent {
            ElementParent::Root(work_id) => {
                let mut out = String::new();
                match works.key(*work_id) {
                    Some(wk) => {
                        let prefix = wk.fq_name(users);
                        out.append(prefix.as_str());
                        out.append("::");
                        proof {
                            reveal_strlit("::");
                            assert("::"@ =~= sep());
                        }
                    },
                    None => {},
                }
                out.append(self.name.as_str());
                out
            },
            ElementParent::Nest(element_id) => {
                let mut out = String::new();
                if fuel > 0 {
                    match elements.key(*element_id) {
                        Some(ek) => {
                            let prefix = ek.fq_name_bounded(users, works, elements, fuel - 1);
                            out.append(prefix.as_str());
                            out.append("::");
                            proof {
                                reveal_strlit("::");
                                assert("::"@ =~= sep());
                            }
                        },
                        None => {},
                    }
                }
                out.append(self.name.as_str());
                out
            },
        }
    }

    /// Resolves the fully-qualified name from the root ancestor down to the
    /// element itself, `::`-joined. An ancestor miss stops the prefix there;
    /// the hop bound is the element count, which no parent chain of live,
    /// acyclic data can exceed.
    pub fn fq_name<SU: SousARCStorage<UserData>, SW: SousARCStorage<WorkData>, SE: SousARCStorage<ElementData>>(
        &self,
        users: &SU,
        works: &SW,
        elements: &SE,
    ) -> (r: String)
        requires
            users.valid(),
            works.valid(),
            elements.valid(),
        ensures
            r@ == elem_fq(
                self.keyv(),
                users.entries(),
                works.entries(),
                elements.entries(),
                elements.entries().dom().len(),
            ),
    {
        let fuel = elements.count();
        self.fq_name_bounded(users, works, elements, fuel)
    }
}

impl SousARCKey for ElementKey {
    type V = (ElementParentV, Seq<char>);

    closed spec fn keyv(&self) -> (ElementParentV, Seq<char>) {
        (self.parent.pv(), self.name@)
    }

    fn eq_key(&self, other: &Self) -> (r: bool) {
        let parents_match = match (&self.parent, &other.parent) {
            (ElementParent::Root(a), ElementParent::Root(b)) => a.eq_id(b),
            (ElementParent::Nest(a), ElementParent::Nest(b)) => a.eq_id(b),
            _ => false,
        };
        parents_match && self.name == other.name
    }

    fn clone_key(&self) -> (r: Self) {
        ElementKey { parent: self.parent, name: self.name.clone() }
    }
}

/// Generated metadata attached to an element.
#[derive(Debug)]
pub struct GeneratedElementMeta {
    pub summary: String,
    pub topics: String,
    pub keywords: String,
}

impl GeneratedElementMeta {
    /// Empty metadata.
    pub fn empty() -> (r: Self)
        ensures
            r.summary@ =~= Seq::<char>::empty(),
    {
        GeneratedElementMeta {
            summary: String::new(),
            topics: String::new(),
            keywords: String::new(),
        }
    }
}

/// An element record: identity plus content fields and the ids of its
/// nested elements.
#[derive(Debug)]
pub struct ElementData {
    pub id_key: IdKeySet<ElementId, ElementKey>,
    pub children: Vec<ElementId>,
    pub display_name: String,
    pub content: String,
    pub history: Vec<String>,
    pub gen_meta: GeneratedElementMeta,
}

impl SousARCData for ElementData {
    type Id = ElementId;

    type Key = ElementKey;

    closed spec fn spec_idv(&self) -> u128 {
        self.id_key.spec_idv()
    }

    closed spec fn spec_keyv(&self) -> (ElementParentV, Seq<char>) {
        self.id_key.spec_keyv()
    }

    fn id_key_set(&self) -> (r: &IdKeySet<ElementId, ElementKey>) {
        let r = &self.id_key;
        proof {
            assert(r.spec_idv() == self.spec_idv());
            assert(r.spec_keyv() == self.spec_keyv());
        }
        r
    }
}

impl ElementData {
    /// A new element with the given id, parent and name, and empty content.
    pub fn new(id: ElementId, parent: ElementParent, name: String) -> (r: Self)
        ensures
            r.spec_idv() == id.idv(),
            r.spec_keyv() == (parent.pv(), name@),
            r.children@ =~= Seq::<ElementId>::empty(),
    {
        let key = match parent {
            ElementParent::Root(work_id) => ElementKey::new_root(work_id, name),
            ElementParent::Nest(element_id) => ElementKey::new_nest(element_id, name),
        };
        ElementData {
            id_key: IdKeySet::new(id, key),
            children: Vec::new(),
            display_name: String::new(),
            content: String::new(),
            history: Vec::new(),
            gen_meta: GeneratedElementMeta::empty(),
        }
    }

    /// The ids of the nested elements.
    fn copy_children(&self) -> (r: Vec<ElementId>)
        ensures
            r@ == self.children@,
    {
        let mut out: Vec<ElementId> = Vec::new();
        let n: usize = self.children.len();
        let mut i: usize = 0;
        while i < n
            invariant
                n == self.children@.len(),
                i <= n,
                out@ == self.children@.take(i as int),
            decreases n - i,
        {
            out.push(self.children[i]);
            proof {
                assert(self.children@.take(i + 1) =~= self.children@.take(i as int).push(
                    self.children@[i as int],
                ));
            }
            i += 1;
        }
        proof {
            assert(self.children@.take(n as int) =~= self.children@);
        }
        out
    }

    /// Creates a new element nested under this one, registering it as a
    /// child. This element's identity is untouched.
    pub fn spawn(&mut self, name: String) -> (r: ElementData)
        ensures
            final(self).spec_idv() == old(self).spec_idv(),
            final(self).spec_keyv() == old(self).spec_keyv(),
            final(self).children@.len() == old(self).children@.len() + 1,
            forall|i: int|
                0 <= i < old(self).children@.len() ==> #[trigger] final(self).children@[i] == old(
                    self,
                ).children@[i],
            final(self).children@.last().idv() == r.spec_idv(),
            r.spec_keyv().0 == ElementParentV::Nest(old(self).spec_idv()),
            r.spec_keyv().1 == name@,
    {
        let element_id = ElementId::new();
        self.children.push(element_id);
        ElementData::new(element_id, ElementParent::Nest(self.id_key.id()), name)
    }
}

impl crate::topology::SousARCKeyHasParent<WorkData, ElementData, WorkId> for ElementKey {
    closed spec fn spec_parent_ids(&self) -> Seq<WorkId> {
        match self.parent {
            ElementParent::Root(w) => seq![w],
            ElementParent::Nest(_) => Seq::empty(),
        }
    }

    fn parent_id(&self) -> (r: Vec<WorkId>) {
        let mut out: Vec<WorkId> = Vec::new();
        match &self.parent {
            ElementParent::Root(w) => {
                out.push(*w);
                proof {
                    assert(out@ =~= seq![self.parent->Root_0]);
                }
            },
            ElementParent::Nest(_) => {},
        }
        out
    }
}

impl crate::topology::SousARCKeyHasParent<ElementData, ElementData, ElementId> for ElementKey {
    closed spec fn spec_parent_ids(&self) -> Seq<ElementId> {
        match self.parent {
            ElementParent::Root(_) => Seq::empty(),
            ElementParent::Nest(e) => seq![e],
        }
    }

    fn parent_id(&self) -> (r: Vec<ElementId>) {
        let mut out: Vec<ElementId> = Vec::new();
        match &self.parent {
            ElementParent::Root(_) => {},
            ElementParent::Nest(e) => {
                out.push(*e);
                proof {
                    assert(out@ =~= seq![self.parent->Nest_0]);
                }
            },
        }
        out
    }
}

impl crate::topology::SousARCDataHasChild<ElementData, ElementId, ElementKey> for ElementData {
    open spec fn spec_children(&self) -> Seq<ElementId> {
        self.children@
    }

    fn children(&self) -> (r: Vec<ElementId>) {
        self.copy_children()
    }
}

impl crate::topology::SousARCIdHasChild<ElementData, ElementData, ElementKey> for ElementId {

}

/// A global address of one element: the owning user, the work, and the
/// element itself.
#[derive(Debug, Clone, Copy, PartialEq, Eq, Hash)]
pub struct GlobalId {
    pub user: crate::domain::user::UserId,
    pub work: WorkId,
    pub element: ElementId,
}

} // verus!
