//! Folders, documents, genres and categories: auxiliary content on the same
//! identity framework. A folder's parent is polymorphic — a closed set of
//! parent kinds, each carrying that kind's id — and folders may nest.

use vstd::prelude::*;
use vstd::string::StringExecFns;
use crate::idgen::fresh_ulid_bits;
use crate::traits::{IdKeySet, SousARCData, SousARCId, SousARCKey, SousARCStorage};
use crate::domain::element::{elem_fq, ElementData, ElementId};
use crate::domain::user::{UserData, UserId};
use crate::domain::work::{sep, work_fq, WorkData, WorkId};

verus! {

/// A folder's unique identity handle.
#[derive(Debug, Clone, Copy, PartialEq, Eq, PartialOrd, Ord, Hash)]
pub struct FolderId(u128);

/// A document's unique identity handle.
#[derive(Debug, Clone, Copy, PartialEq, Eq, PartialOrd, Ord, Hash)]
pub struct DocumentId(u128);

/// A genre's unique identity handle.
#[derive(Debug, Clone, Copy, PartialEq, Eq, PartialOrd, Ord, Hash)]
pub struct GenreId(u128);

/// A category's unique identity handle.
#[derive(Debug, Clone, Copy, PartialEq, Eq, PartialOrd, Ord, Hash)]
pub struct CategoryId(u128);

impl FolderId {
    /// A fresh identifier.
    pub fn new() -> (r: Self) {
        FolderId(fresh_ulid_bits())
    }

    /// An identifier with the given bits.
    pub fn from_bits(bits: u128) -> (r: Self)
        ensures
            r.idv() == bits,
    {
        FolderId(bits)
    }
}

impl DocumentId {
    /// A fresh identifier.
    pub fn new() -> (r: Self) {
        DocumentId(fresh_ulid_bits())
    }

    /// An identifier with the given bits.
    pub fn from_bits(bits: u128) -> (r: Self)
        ensures
            r.idv() == bits,
    {
        DocumentId(bits)
    }
}

impl GenreId {
    /// A fresh identifier.
    pub fn new() -> (r: Self) {
        GenreId(fresh_ulid_bits())
    }

    /// An identifier with the given bits.
    pub fn from_bits(bits: u128) -> (r: Self)
        ensures
            r.idv() == bits,
    {
        GenreId(bits)
    }
}

impl CategoryId {
    /// A fresh identifier.
    pub fn new() -> (r: Self) {
        CategoryId(fresh_ulid_bits())
    }

    /// An identifier with the given bits.
    pub fn from_bits(bits: u128) -> (r: Self)
        ensures
            r.idv() == bits,
    {
        CategoryId(bits)
    }
}

impl SousARCId for FolderId {
    type V = u128;

    closed spec fn idv(&self) -> u128 {
        self.0
    }

    fn eq_id(&self, other: &Self) -> (r: bool) {
        self.0 == other.0
    }
}

impl SousARCId for DocumentId {
    type V = u128;

    closed spec fn idv(&self) -> u128 {
        self.0
    }

    fn eq_id(&self, other: &Self) -> (r: bool) {
        self.0 == other.0
    }
}

impl SousARCId for GenreId {
    type V = u128;

    closed spec fn idv(&self) -> u128 {
        self.0
    }

    fn eq_id(&self, other: &Self) -> (r: bool) {
        self.0 == other.0
    }
}

impl SousARCId for CategoryId {
    type V = u128;

    closed spec fn idv(&self) -> u128 {
        self.0
    }

    fn eq_id(&self, other: &Self) -> (r: bool) {
        self.0 == other.0
    }
}

/// The closed set of parent kinds a folder may hang under, each carrying
/// the parent's id.
#[derive(Debug, Clone, Copy, PartialEq, Eq, PartialOrd, Ord, Hash)]
pub enum FolderParent {
    User(UserId),
    Work(WorkId),
    Element(ElementId),
    Genre(GenreId),
    Category(CategoryId),
    Folder(FolderId),
}

/// The mathematical view of a folder parent.
pub ghost enum FolderParentV {
    User(u128),
    Work(u128),
    Element(u128),
    Genre(u128),
    Category(u128),
    Folder(u128),
}

impl FolderParent {
    /// The view of this parent handle.
    pub open spec fn pv(self) -> FolderParentV {
        match self {
            FolderParent::User(i) => FolderParentV::User(i.idv()),
            FolderParent::Work(i) => FolderParentV::Work(i.idv()),
            FolderParent::Element(i) => FolderParentV::Element(i.idv()),
            FolderParent::Genre(i) => FolderParentV::Genre(i.idv()),
            FolderParent::Category(i) => FolderParentV::Category(i.idv()),
            FolderParent::Folder(i) => FolderParentV::Folder(i.idv()),
        }
    }

    /// Decides whether two parent handles have the same view.
    pub fn eq_parent(&self, other: &Self) -> (r: bool)
        ensures
            r == (self.pv() == other.pv()),
    {
        match (self, other) {
            (FolderParent::User(a), FolderParent::User(b)) => a.eq_id(b),
            (FolderParent::Work(a), FolderParent::Work(b)) => a.eq_id(b),
            (FolderParent::Element(a), FolderParent::Element(b)) => a.eq_id(b),
            (FolderParent::Genre(a), FolderParent::Genre(b)) => a.eq_id(b),
            (FolderParent::Category(a), FolderParent::Category(b)) => a.eq_id(b),
            (FolderParent::Folder(a), FolderParent::Folder(b)) => a.eq_id(b),
            _ => false,
        }
    }
}

/// A folder child: a document or a nested folder.
#[derive(Debug, Clone, Copy, PartialEq, Eq, PartialOrd, Ord, Hash)]
pub enum FolderChild {
    Document(DocumentId),
    Folder(FolderId),
}

/// A folder's shape: a plain list of children, or a named list.
#[derive(Debug)]
pub enum FolderType {
    Simple(Vec<FolderChild>),
    List(Vec<(String, FolderChild)>),
}

/// A folder's lookup key: its polymorphic parent together with its name.
#[derive(Debug, Clone, PartialEq, Eq, PartialOrd, Ord, Hash)]
pub struct FolderKey {
    parent: FolderParent,
    name: String,
}

impl FolderKey {
    /// A key scoping `name` under the given parent.
    pub fn new(parent: FolderParent, name: String) -> (r: Self)
        ensures
            r.keyv() == (parent.pv(), name@),
    {
        FolderKey { parent, name }
    }

    /// The parent handle.
    pub fn parent(&self) -> (r: FolderParent)
        ensures
            r.pv() == self.keyv().0,
    {
        self.parent
    }

    /// The folder's own name segment.
    pub fn as_str(&self) -> (r: &str)
        ensures
            r@ == self.keyv().1,
    {
        self.name.as_str()
    }
}

impl SousARCKey for FolderKey {
    type V = (FolderParentV, Seq<char>);

    closed spec fn keyv(&self) -> (FolderParentV, Seq<char>) {
        (self.parent.pv(), self.name@)
    }

    fn eq_key(&self, other: &Self) -> (r: bool) {
        self.parent.eq_parent(&other.parent) && self.name == other.name
    }

    fn clone_key(&self) -> (r: Self) {
        FolderKey { parent: self.parent, name: self.name.clone() }
    }
}

/// A name-only lookup key, used by genres and categories.
#[derive(Debug, Clone, PartialEq, Eq, PartialOrd, Ord, Hash)]
pub struct TagKey {
    name: String,
}

impl TagKey {
    /// A key carrying the given name.
    pub fn new(name: String) -> (r: Self)
        ensures
            r.keyv() == name@,
    {
        TagKey { name }
    }

    /// The name.
    pub fn as_str(&self) -> (r: &str)
        ensures
            r@ == self.keyv(),
    {
        self.name.as_str()
    }
}

impl SousARCKey for TagKey {
    type V = Seq<char>;

    closed spec fn keyv(&self) -> Seq<char> {
        self.name@
    }

    fn eq_key(&self, other: &Self) -> (r: bool) {
        self.name == other.name
    }

    fn clone_key(&self) -> (r: Self) {
        TagKey { name: self.name.clone() }
    }
}

/// A document's lookup key: its parent folder together with its name.
#[derive(Debug, Clone, PartialEq, Eq, PartialOrd, Ord, Hash)]
pub struct DocumentKey {
    parent: FolderId,
    name: String,
}

impl DocumentKey {
    /// A key scoping `name` under the given folder.
    pub fn new(parent: FolderId, name: String) -> (r: Self)
        ensures
            r.keyv() == (parent.idv(), name@),
    {
        DocumentKey { parent, name }
    }

    /// The parent folder's id.
    pub fn parent_folder(&self) -> (r: FolderId)
        ensures
            r.idv() == self.keyv().0,
    {
        self.parent
    }
}

impl SousARCKey for DocumentKey {
    type V = (u128, Seq<char>);

    closed spec fn keyv(&self) -> (u128, Seq<char>) {
        (self.parent.idv(), self.name@)
    }

    fn eq_key(&self, other: &Self) -> (r: bool) {
        self.parent.eq_id(&other.parent) && self.name == other.name
    }

    fn clone_key(&self) -> (r: Self) {
        DocumentKey { parent: self.parent, name: self.name.clone() }
    }
}

/// A folder record.
#[derive(Debug)]
pub struct Folder {
    pub id_key: IdKeySet<FolderId, FolderKey>,
    pub display_name: String,
    pub index: DocumentId,
    pub children: FolderType,
}

impl SousARCData for Folder {
    type Id = FolderId;

    type Key = FolderKey;

    closed spec fn spec_idv(&self) -> u128 {
        self.id_key.spec_idv()
    }

    closed spec fn spec_keyv(&self) -> (FolderParentV, Seq<char>) {
        self.id_key.spec_keyv()
    }

    fn id_key_set(&self) -> (r: &IdKeySet<FolderId, FolderKey>) {
        let r = &self.id_key;
        proof {
            assert(r.spec_idv() == self.spec_idv());
            assert(r.spec_keyv() == self.spec_keyv());
        }
        r
    }
}

impl Folder {
    /// A new, empty folder under the given parent, indexed by the given
    /// document.
    pub fn new(id: FolderId, parent: FolderParent, name: String, index: DocumentId) -> (r: Self)
        ensures
            r.spec_idv() == id.idv(),
            r.spec_keyv() == (parent.pv(), name@),
    {
        Folder {
            id_key: IdKeySet::new(id, FolderKey::new(parent, name)),
            display_name: String::new(),
            index,
            children: FolderType::Simple(Vec::new()),
        }
    }
}

/// A document record.
#[derive(Debug)]
pub struct Document {
    pub id_key: IdKeySet<DocumentId, DocumentKey>,
    pub display_name: String,
    pub summary: String,
    pub topics: String,
    pub body: String,
}

impl SousARCData for Document {
    type Id = DocumentId;

    type Key = DocumentKey;

    closed spec fn spec_idv(&self) -> u128 {
        self.id_key.spec_idv()
    }

    closed spec fn spec_keyv(&self) -> (u128, Seq<char>) {
        self.id_key.spec_keyv()
    }

    fn id_key_set(&self) -> (r: &IdKeySet<DocumentId, DocumentKey>) {
        let r = &self.id_key;
        proof {
            assert(r.spec_idv() == self.spec_idv());
            assert(r.spec_keyv() == self.spec_keyv());
        }
        r
    }
}

impl Document {
    /// A new, empty document under the given folder.
    pub fn new(id: DocumentId, parent: FolderId, name: String) -> (r: Self)
        ensures
            r.spec_idv() == id.idv(),
            r.spec_keyv() == (parent.idv(), name@),
    {
        Document {
            id_key: IdKeySet::new(id, DocumentKey::new(parent, name)),
            display_name: String::new(),
            summary: String::new(),
            topics: String::new(),
            body: String::new(),
        }
    }
}

/// A genre record.
#[derive(Debug)]
pub struct Genre {
    pub id_key: IdKeySet<GenreId, TagKey>,
    pub display_name: String,
    pub summary: String,
    pub generated_summary: String,
}

impl SousARCData for Genre {
    type Id = GenreId;

    type Key = TagKey;

    closed spec fn spec_idv(&self) -> u128 {
        self.id_key.spec_idv()
    }

    closed spec fn spec_keyv(&self) -> Seq<char> {
        self.id_key.spec_keyv()
    }

    fn id_key_set(&self) -> (r: &IdKeySet<GenreId, TagKey>) {
        let r = &self.id_key;
        proof {
            assert(r.spec_idv() == self.spec_idv());
            assert(r.spec_keyv() == self.spec_keyv());
        }
        r
    }
}

impl Genre {
    /// A new genre keyed by the given name.
    pub fn new(id: GenreId, name: String) -> (r: Self)
        ensures
            r.spec_idv() == id.idv(),
            r.spec_keyv() == name@,
    {
        Genre {
            id_key: IdKeySet::new(id, TagKey::new(name)),
            display_name: String::new(),
            summary: String::new(),
            generated_summary: String::new(),
        }
    }
}

/// A category record.
#[derive(Debug)]
pub struct Category {
    pub id_key: IdKeySet<CategoryId, TagKey>,
    pub display_name: String,
    pub folder: FolderId,
}

impl SousARCData for Category {
    type Id = CategoryId;

    type Key = TagKey;

    closed spec fn spec_idv(&self) -> u128 {
        self.id_key.spec_idv()
    }

    closed spec fn spec_keyv(&self) -> Seq<char> {
        self.id_key.spec_keyv()
    }

    fn id_key_set(&self) -> (r: &IdKeySet<CategoryId, TagKey>) {
        let r = &self.id_key;
        proof {
            assert(r.spec_idv() == self.spec_idv());
            assert(r.spec_keyv() == self.spec_keyv());
        }
        r
    }
}

impl Category {
    /// A new category keyed by the given name, with its document folder.
    pub fn new(id: CategoryId, name: String, folder: FolderId) -> (r: Self)
        ensures
            r.spec_idv() == id.idv(),
            r.spec_keyv() == name@,
    {
        Category {
            id_key: IdKeySet::new(id, TagKey::new(name)),
            display_name: String::new(),
            folder,
        }
    }
}

/// The fully-qualified name of a folder key: the parent kind is matched
/// exhaustively, its record's own fully-qualified prefix is resolved in the
/// matching storage, and the folder's own segment comes last. Any ancestor
/// miss stops the prefix there. Nested folder parents consume `fuel`.
pub open spec fn folder_fq(
    kv: (FolderParentV, Seq<char>),
    users: Map<u128, UserData>,
    works: Map<u128, WorkData>,
    elems: Map<u128, ElementData>,
    genres: Map<u128, Genre>,
    categories: Map<u128, Category>,
    folders: Map<u128, Folder>,
    fuel: nat,
) -> Seq<char>
    decreases fuel,
{
    match kv.0 {
        FolderParentV::User(uid) => {
            if users.contains_key(uid) {
                users[uid].spec_keyv() + sep() + kv.1
            } else {
                kv.1
            }
        },
        FolderParentV::Work(wid) => {
            if works.contains_key(wid) {
                work_fq(works[wid].spec_keyv(), users) + sep() + kv.1
            } else {
                kv.1
            }
        },
        FolderParentV::Element(eid) => {
            if elems.contains_key(eid) {
                elem_fq(elems[eid].spec_keyv(), users, works, elems, elems.dom().len()) + sep()
                    + kv.1
            } else {
                kv.1
            }
        },
        FolderParentV::Genre(gid) => {
            if genres.contains_key(gid) {
                genres[gid].spec_keyv() + sep() + kv.1
            } else {
                kv.1
            }
        },
        FolderParentV::Category(cid) => {
            if categories.contains_key(cid) {
                categories[cid].spec_keyv() + sep() + kv.1
            } else {
                kv.1
            }
        },
        FolderParentV::Folder(fid) => {
            if fuel > 0 && folders.contains_key(fid) {
                folder_fq(
                    folders[fid].spec_keyv(),
                    users,
                    works,
                    elems,
                    genres,
                    categories,
                    folders,
                    (fuel - 1) as nat,
                ) + sep() + kv.1
            } else {
                kv.1
            }
        },
    }
}

impl FolderKey {
    /// Resolves the fully-qualified name with an explicit bound on
    /// nested-folder hops.
    pub fn fq_name_bounded<SU: SousARCStorage<UserData>, SW: SousARCStorage<WorkData>, SE: SousARCStorage<ElementData>, SG: SousARCStorage<Genre>, SC: SousARCStorage<Category>, SF: SousARCStorage<Folder>>(
        &self,
        users: &SU,
        works: &SW,
        elements: &SE,
        genres: &SG,
        categories: &SC,
        folders: &SF,
        fuel: usize,
    ) -> (r: String)
        requires
            users.valid(),
            works.valid(),
            elements.valid(),
            genres.valid(),
            categories.valid(),
            folders.valid(),
        ensures
            r@ == folder_fq(
                self.keyv(),
                users.entries(),
                works.entries(),
                elements.entries(),
                genres.entries(),
                categories.entries(),
                folders.entries(),
                fuel as nat,
            ),
        decreases fuel,
    {
        let mut out = String::new();
        match &self.parent {
            FolderParent::User(uid) => {
                match users.key(*uid) {
                    Some(k) => {
                        out.append(k.as_str());
                        out.append("::");
                        proof {
                            reveal_strlit("::");
                            assert("::"@ =~= sep());
                        }
                    },
                    None => {},
                }
            },
            FolderParent::Work(wid) => {
                match works.key(*wid) {
                    Some(k) => {
                        let prefix = k.fq_name(users);
                        out.append(prefix.as_str());
                        out.append("::");
                        proof {
                            reveal_strlit("::");
                            assert("::"@ =~= sep());
                        }
                    },
                    None => {},
                }
            },
            FolderParent::Element(eid) => {
                match elements.key(*eid) {
                    Some(k) => {
                        let prefix = k.fq_name(users, works, elements);
                        out.append(prefix.as_str());
                        out.append("::");
                        proof {
                            reveal_strlit("::");
                            assert("::"@ =~= sep());
                        }
                    },
                    None => {},
                }
            },
            FolderParent::Genre(gid) => {
                match genres.key(*gid) {
                    Some(k) => {
                        out.append(k.as_str());
                        out.append("::");
                        proof {
                            reveal_strlit("::");
                            assert("::"@ =~= sep());
                        }
                    },
                    None => {},
                }
            },
            FolderParent::Category(cid) => {
                match categories.key(*cid) {
                    Some(k) => {
                        out.append(k.as_str());
                        out.append("::");
                        proof {
                            reveal_strlit("::");
                            assert("::"@ =~= sep());
                        }
                    },
                    None => {},
                }
            },
            FolderParent::Folder(fid) => {
                if fuel > 0 {
                    match folders.key(*fid) {
                        Some(k) => {
                            let prefix = k.fq_name_bounded(
                                users,
                                works,
                                elements,
                                genres,
                                categories,
                                folders,
                                fuel - 1,
                            );
                            out.append(prefix.as_str());
                            out.append("::");
                            proof {
                                reveal_strlit("::");
                                assert("::"@ =~= sep());
                            }
                        },
                        None => {},
                    }
                }
            },
        }
        out.append(self.name.as_str());
        out
    }

    /// Resolves the fully-qualified name from the root ancestor down to the
    /// folder itself, `::`-joined, with the parent kind matched
    /// exhaustively. The nested-folder hop bound is the folder count, which
    /// no parent chain of live, acyclic data can exceed.
    pub fn fq_name<SU: SousARCStorage<UserData>, SW: SousARCStorage<WorkData>, SE: SousARCStorage<ElementData>, SG: SousARCStorage<Genre>, SC: SousARCStorage<Category>, SF: SousARCStorage<Folder>>(
        &self,
        users: &SU,
        works: &SW,
        elements: &SE,
        genres: &SG,
        categories: &SC,
        folders: &SF,
    ) -> (r: String)
        requires
            users.valid(),
            works.valid(),
            elements.valid(),
            genres.valid(),
            categories.valid(),
            folders.valid(),
        ensures
            r@ == folder_fq(
                self.keyv(),
                users.entries(),
                works.entries(),
                elements.entries(),
                genres.entries(),
                categories.entries(),
                folders.entries(),
                folders.entries().dom().len(),
            ),
    {
        let fuel = folders.count();
        self.fq_name_bounded(users, works, elements, genres, categories, folders, fuel)
    }
}

} // verus!
