//! Fully-qualified name resolution across storages, the parent/child
//! accessors, roles, and configuration defaults.

use sousarc::config::{DashBoardConfig, LoggerConfig, RateLimiterConfig};
use sousarc::domain::element::{ElementData, ElementKey};
use sousarc::domain::folder::{DocumentId, Folder, FolderId, FolderKey, FolderParent};
use sousarc::domain::user::UserData;
use sousarc::domain::work::{WorkData, WorkKey};
use sousarc::roles::{AdminUserRole, AdminUserRoleSet};
use sousarc::store::StandardStorage;
use sousarc::topology::{SousARCDataHasChild, SousARCKeyHasParent};
use sousarc::traits::{SousARCData, SousARCStorage};

#[test]
fn fully_qualified_name_end_to_end() {
    let user = UserData::new("tunamayo".to_string());
    let user_id = user.id();
    let mut user_storage: StandardStorage<UserData> = StandardStorage::new();
    user_storage.insert(user);

    let work = user_storage.get_mut(user_id).unwrap().spawn("test_work".to_string());
    let work_id = work.id();
    let mut work_storage: StandardStorage<WorkData> = StandardStorage::new();
    work_storage.insert(work);

    let element = work_storage.get_mut(work_id).unwrap().spawn("test_element".to_string());
    let element_id = element.id();
    let mut element_storage: StandardStorage<ElementData> = StandardStorage::new();
    element_storage.insert(element);

    let element_2 = element_storage.get_mut(element_id).unwrap().spawn(
        "test_element_2".to_string(),
    );
    let element_id_2 = element_2.id();
    element_storage.insert(element_2);

    let wk = work_storage.key(work_id).unwrap();
    assert_eq!(wk.fq_name(&user_storage), "tunamayo::test_work");

    let ek = element_storage.key(element_id).unwrap();
    assert_eq!(
        ek.fq_name(&user_storage, &work_storage, &element_storage),
        "tunamayo::test_work::test_element",
    );

    let ek2 = element_storage.key(element_id_2).unwrap();
    assert_eq!(
        ek2.fq_name(&user_storage, &work_storage, &element_storage),
        "tunamayo::test_work::test_element::test_element_2",
    );
}

#[test]
fn graceful_ancestor_miss_keeps_local_suffix() {
    let user = UserData::new("tunamayo".to_string());
    let user_id = user.id();
    let mut user_storage: StandardStorage<UserData> = StandardStorage::new();
    user_storage.insert(user);
    let work = user_storage.get_mut(user_id).unwrap().spawn("test_work".to_string());
    let wk = work.key().clone();
    let work_id = work.id();
    let mut work_storage: StandardStorage<WorkData> = StandardStorage::new();
    work_storage.insert(work);
    let element = work_storage.get_mut(work_id).unwrap().spawn("test_element".to_string());
    let ek = element.key().clone();
    let mut element_storage: StandardStorage<ElementData> = StandardStorage::new();
    element_storage.insert(element);

    // removing the user record leaves the work resolving to its own segment
    user_storage.remove(user_id);
    assert_eq!(wk.fq_name(&user_storage), "test_work");
    // the element still sees its work ancestor, whose own prefix is gone
    assert_eq!(
        ek.fq_name(&user_storage, &work_storage, &element_storage),
        "test_work::test_element",
    );
    // with the work gone too, only the element's own segment remains
    work_storage.remove(work_id);
    assert_eq!(ek.fq_name(&user_storage, &work_storage, &element_storage), "test_element");
}

#[test]
fn folder_parent_kinds_resolve_exhaustively() {
    let user = UserData::new("tunamayo".to_string());
    let user_id = user.id();
    let mut user_storage: StandardStorage<UserData> = StandardStorage::new();
    user_storage.insert(user);
    let work_storage: StandardStorage<WorkData> = StandardStorage::new();
    let element_storage: StandardStorage<ElementData> = StandardStorage::new();
    let genre_storage: StandardStorage<sousarc::domain::folder::Genre> = StandardStorage::new();
    let category_storage: StandardStorage<sousarc::domain::folder::Category> =
        StandardStorage::new();
    let mut folder_storage: StandardStorage<Folder> = StandardStorage::new();

    let top = Folder::new(
        FolderId::new(),
        FolderParent::User(user_id),
        "docs".to_string(),
        DocumentId::new(),
    );
    let top_id = top.id();
    folder_storage.insert(top);

    let nested_key = FolderKey::new(FolderParent::Folder(top_id), "drafts".to_string());
    assert_eq!(
        nested_key.fq_name(
            &user_storage,
            &work_storage,
            &element_storage,
            &genre_storage,
            &category_storage,
            &folder_storage,
        ),
        "tunamayo::docs::drafts",
    );

    // a parent kind nobody stored degrades to the local segment
    let orphan_key = FolderKey::new(FolderParent::Work(sousarc::domain::work::WorkId::new()),
        "loose".to_string());
    assert_eq!(
        orphan_key.fq_name(
            &user_storage,
            &work_storage,
            &element_storage,
            &genre_storage,
            &category_storage,
            &folder_storage,
        ),
        "loose",
    );
}

#[test]
fn children_and_parent_accessors() {
    let mut user = UserData::new("owner".to_string());
    let w1 = user.spawn("w1".to_string());
    let w2 = user.spawn("w2".to_string());
    let kids = SousARCDataHasChild::children(&user);
    assert_eq!(kids, vec![w1.id(), w2.id()]);

    let mut work_storage: StandardStorage<WorkData> = StandardStorage::new();
    let w1_id = w1.id();
    work_storage.insert(w1);
    work_storage.insert(w2);
    let kid_keys = SousARCDataHasChild::children_key(&user, &work_storage);
    assert_eq!(kid_keys.len(), 2);
    assert_eq!(kid_keys[0].as_str(), "w1");

    let wk = work_storage.key(w1_id).unwrap();
    let parents: Vec<sousarc::domain::user::UserId> = SousARCKeyHasParent::<
        UserData,
        WorkData,
        sousarc::domain::user::UserId,
    >::parent_id(wk);
    assert_eq!(parents, vec![user.id()]);
}

#[test]
fn element_parent_enumeration_per_kind() {
    let work_id = sousarc::domain::work::WorkId::new();
    let elem_id = sousarc::domain::element::ElementId::new();
    let root_key = ElementKey::new_root(work_id, "top".to_string());
    let nest_key = ElementKey::new_nest(elem_id, "deep".to_string());

    let work_parents = SousARCKeyHasParent::<
        WorkData,
        ElementData,
        sousarc::domain::work::WorkId,
    >::parent_id(&root_key);
    assert_eq!(work_parents, vec![work_id]);
    let no_work_parents = SousARCKeyHasParent::<
        WorkData,
        ElementData,
        sousarc::domain::work::WorkId,
    >::parent_id(&nest_key);
    assert!(no_work_parents.is_empty());

    let elem_parents = SousARCKeyHasParent::<
        ElementData,
        ElementData,
        sousarc::domain::element::ElementId,
    >::parent_id(&nest_key);
    assert_eq!(elem_parents, vec![elem_id]);
}

#[test]
fn role_set_add_remove_has() {
    let mut roles = AdminUserRoleSet::new();
    assert!(!roles.has(AdminUserRole::ReadSystemConfig));
    roles.add(AdminUserRole::ReadSystemConfig);
    roles.add(AdminUserRole::ModifySecurityConfig);
    assert!(roles.has(AdminUserRole::ReadSystemConfig));
    assert!(roles.has(AdminUserRole::ModifySecurityConfig));
    assert!(!roles.has(AdminUserRole::ModifySystemConfig));
    roles.remove(AdminUserRole::ReadSystemConfig);
    assert!(!roles.has(AdminUserRole::ReadSystemConfig));
    assert!(roles.has(AdminUserRole::ModifySecurityConfig));
}

#[test]
fn full_access_covers_every_role() {
    let mut roles = AdminUserRoleSet::new();
    roles.add(AdminUserRole::FullAccess);
    assert!(roles.has(AdminUserRole::ReadSecurityConfig));
    assert!(roles.has(AdminUserRole::ModifySecurityConfig));
    assert!(roles.has(AdminUserRole::ReadSystemConfig));
    assert!(roles.has(AdminUserRole::ModifySystemConfig));
    assert!(roles.has(AdminUserRole::FullAccess));
    // the empty role is never present
    assert!(!roles.has(AdminUserRole::Nothing));
    roles.remove(AdminUserRole::FullAccess);
    assert!(!roles.has(AdminUserRole::ReadSecurityConfig));
}

#[test]
fn config_defaults() {
    let log = LoggerConfig::default();
    assert_eq!(log.dir, "log");
    assert_eq!(log.filename_prefix, "log-soursarc_");
    assert_eq!(log.max_rolling_count, 14);
    let limiter = RateLimiterConfig::default();
    assert_eq!(limiter.expire_duration, 300);
    assert_eq!(limiter.limit_per_dur, 100);
    assert_eq!(limiter.cleanup_interval, 60);
    let dash = DashBoardConfig::default();
    assert_eq!(dash.csv_keep_count, 10);
    assert_eq!(dash.argon2_m_cost, 32768);
    assert_eq!(dash.argon2_t_cost, 2);
    assert_eq!(dash.argon2_p_cost, 4);
    assert_eq!(dash.user_list_dir, "user_list");
    assert_eq!(dash.access_limiter_config.limit_per_dur, 100);
}

#[test]
fn role_names_are_stable() {
    assert_eq!(AdminUserRole::Nothing.name(), "nothing");
    assert_eq!(AdminUserRole::ReadSecurityConfig.name(), "read_secure_config");
    assert_eq!(AdminUserRole::ModifySecurityConfig.name(), "mod_secure_config");
    assert_eq!(AdminUserRole::ReadSystemConfig.name(), "read_system_config");
    assert_eq!(AdminUserRole::ModifySystemConfig.name(), "mod_system_config");
    assert_eq!(AdminUserRole::FullAccess.name(), "full_access");
}

#[test]
fn role_bits_round_trip() {
    let mut roles = AdminUserRoleSet::new();
    roles.add(AdminUserRole::ReadSystemConfig);
    roles.add(AdminUserRole::ModifySystemConfig);
    let restored = AdminUserRoleSet::from_bits(roles.bits());
    assert!(restored.has(AdminUserRole::ReadSystemConfig));
    assert!(restored.has(AdminUserRole::ModifySystemConfig));
    assert!(!restored.has(AdminUserRole::ReadSecurityConfig));
}
