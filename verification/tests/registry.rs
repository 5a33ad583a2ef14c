use cw_repo::error::ContractError;
use cw_repo::models::{AddressTag, IndexSlotName, IndexSlotValue, IndexBounds};
use cw_repo::msg::{InstantiateMsg, Since, Target};
use cw_repo::state::{Registry, ValueKind};

fn base_msg() -> InstantiateMsg {
    InstantiateMsg {
        acl_address: None,
        default_label: Some("managed".to_string()),
        default_code_id: Some(7),
        code_ids: vec![7, 9],
        indices: Some(vec![
            IndexSlotName::Uint64 { slot: 0, name: Some("points".to_string()) },
            IndexSlotName::Uint64 { slot: 1, name: None },
            IndexSlotName::Uint128 { slot: 0, name: Some("wide".to_string()) },
            IndexSlotName::Text { slot: 0, name: Some("word".to_string()) },
            IndexSlotName::Timestamp { slot: 0, name: None },
            IndexSlotName::Boolean { slot: 0, name: None },
        ]),
    }
}

fn fresh_registry() -> Registry {
    Registry::initialize("alice".to_string(), &base_msg()).unwrap()
}

/// Creates one item with a slot-0 integer value and registers its
/// address; returns its id.
fn add_item(reg: &mut Registry, addr: &str, value: u64, tags: Option<Vec<String>>) -> u64 {
    let indices = Some(vec![IndexSlotValue::Uint64 { slot: 0, value }]);
    let out = reg
        .create(
            &"alice".to_string(),
            None,
            Some(7),
            &b"{}".to_vec(),
            &None,
            &Some(format!("item-{}", addr)),
            &indices,
            &None,
            &tags,
            &None,
            &"repo".to_string(),
            1_000,
        )
        .unwrap();
    reg.register_created(out.contract_id, &addr.to_string(), out.code_id, 5, 1_000).unwrap();
    out.contract_id
}

fn addresses(page: &cw_repo::msg::Page) -> Vec<String> {
    page.page.iter().map(|e| e.address.clone()).collect()
}

#[test]
fn initialize_rejects_empty_code_ids() {
    let mut msg = base_msg();
    msg.code_ids = vec![];
    assert!(matches!(
        Registry::initialize("alice".to_string(), &msg),
        Err(ContractError::NoAllowedCodeIds)
    ));
}

#[test]
fn initialize_rejects_empty_default_label() {
    let mut msg = base_msg();
    msg.default_label = Some(String::new());
    assert!(matches!(
        Registry::initialize("alice".to_string(), &msg),
        Err(ContractError::InvalidLabel)
    ));
}

#[test]
fn initialize_rejects_unlisted_default_code_id() {
    let mut msg = base_msg();
    msg.default_code_id = Some(12);
    assert!(matches!(
        Registry::initialize("alice".to_string(), &msg),
        Err(ContractError::CodeIdNotAllowed)
    ));
}

#[test]
fn initialize_rejects_out_of_range_slot() {
    let mut msg = base_msg();
    msg.indices = Some(vec![IndexSlotName::Uint64 { slot: 9, name: None }]);
    assert!(matches!(
        Registry::initialize("alice".to_string(), &msg),
        Err(ContractError::SlotOutOfBounds { slot: 9 })
    ));
}

#[test]
fn count_tracks_creates_and_removals() {
    let mut reg = fresh_registry();
    assert_eq!(reg.count().count, 0);
    add_item(&mut reg, "c1", 10, None);
    add_item(&mut reg, "c2", 20, None);
    assert_eq!(reg.count().count, 2);
    reg.remove(&"alice".to_string(), None).err();
    assert_eq!(reg.count().count, 2);
}

#[test]
fn between_scan_returns_only_matching_item() {
    // items with slot-0 values 10, 20, 30 in ascending insert order; a
    // between scan over (15, 25) ascending keeps only the middle one
    let mut reg = fresh_registry();
    add_item(&mut reg, "c1", 10, None);
    add_item(&mut reg, "c2", 20, None);
    add_item(&mut reg, "c3", 30, None);
    let target = Target::Index(IndexBounds::Uint64 {
        slot: 0,
        between: Some((Some(15), Some(25))),
        equals: None,
    });
    let page = reg.read(&target, None, Some(10), &None, None, &None).unwrap();
    assert_eq!(addresses(&page), vec!["c2".to_string()]);
    assert!(page.cursor.is_none());
}

#[test]
fn update_moves_item_between_equality_scans() {
    // updating the slot value from 20 to 25 moves the item from the
    // Equals(20) page to the Equals(25) page
    let mut reg = fresh_registry();
    add_item(&mut reg, "c1", 10, None);
    add_item(&mut reg, "c2", 20, None);
    add_item(&mut reg, "c3", 30, None);
    let updates = Some(vec![IndexSlotValue::Uint64 { slot: 0, value: 25 }]);
    reg.update(&"c2".to_string(), 2_000, &updates).unwrap();
    let eq20 = Target::Index(IndexBounds::Uint64 { slot: 0, between: None, equals: Some(20) });
    let page20 = reg.read(&eq20, None, Some(10), &None, None, &None).unwrap();
    assert!(page20.page.is_empty());
    let eq25 = Target::Index(IndexBounds::Uint64 { slot: 0, between: None, equals: Some(25) });
    let page25 = reg.read(&eq25, None, Some(10), &None, None, &None).unwrap();
    assert_eq!(addresses(&page25), vec!["c2".to_string()]);
}

#[test]
fn keyset_pagination_resumes_after_cursor() {
    // page size 2 over values 10/20/30: first page [10, 20] with a
    // cursor at (20, id), second page [30] with no cursor
    let mut reg = fresh_registry();
    let _i1 = add_item(&mut reg, "c1", 10, None);
    let i2 = add_item(&mut reg, "c2", 20, None);
    let _i3 = add_item(&mut reg, "c3", 30, None);
    let target = Target::Index(IndexBounds::Uint64 { slot: 0, between: None, equals: None });
    let first = reg.read(&target, None, Some(2), &None, None, &None).unwrap();
    assert_eq!(addresses(&first), vec!["c1".to_string(), "c2".to_string()]);
    let cursor = first.cursor.clone().unwrap();
    assert_eq!(cursor, (b"20".to_vec(), i2));
    let second = reg.read(&target, None, Some(2), &None, None, &Some(cursor)).unwrap();
    assert_eq!(addresses(&second), vec!["c3".to_string()]);
    assert!(second.cursor.is_none());
}

#[test]
fn descending_scan_reverses_order() {
    let mut reg = fresh_registry();
    add_item(&mut reg, "c1", 10, None);
    add_item(&mut reg, "c2", 20, None);
    add_item(&mut reg, "c3", 30, None);
    let target = Target::Index(IndexBounds::Uint64 { slot: 0, between: None, equals: None });
    let page = reg.read(&target, Some(true), Some(10), &None, None, &None).unwrap();
    assert_eq!(
        addresses(&page),
        vec!["c3".to_string(), "c2".to_string(), "c1".to_string()]
    );
}

#[test]
fn removal_clears_slot_and_tag_entries() {
    // an item indexed under slot-0 = 25 and tag "x": removing it leaves
    // the slot table and the tag table without its keys, and both
    // counters one lower
    let mut reg = fresh_registry();
    let id = add_item(&mut reg, "c1", 25, Some(vec!["x".to_string()]));
    add_item(&mut reg, "c2", 40, Some(vec!["y".to_string()]));
    let key25 = cw_repo::state::make_u64_key(25);
    assert!(reg.get_u64_index(0).unwrap().contains(&key25, id));
    let size_before = reg.tags_size;
    assert_eq!(size_before, 2);
    let slot_size_before = reg.u64_meta[0].as_ref().unwrap().size;
    assert_eq!(slot_size_before, 2);
    // the removal policy authorizes the registry creator
    let mut reg2 = reg;
    reg2.created_by = "c1".to_string();
    reg2.remove(&"c1".to_string(), None).unwrap();
    assert!(!reg2.get_u64_index(0).unwrap().contains(&key25, id));
    assert_eq!(reg2.tags_size, size_before - 1);
    // the slot's metadata record survives the removal, recounted
    let slot_meta_after = reg2.u64_meta[0].as_ref().unwrap();
    assert_eq!(slot_meta_after.size, slot_size_before - 1);
    let tag_target = Target::Tag("x".to_string());
    let page = reg2.read(&tag_target, None, Some(10), &None, None, &None).unwrap();
    assert!(page.page.is_empty());
}

#[test]
fn tag_scan_finds_tagged_items() {
    let mut reg = fresh_registry();
    add_item(&mut reg, "c1", 10, Some(vec!["x".to_string()]));
    add_item(&mut reg, "c2", 20, Some(vec!["y".to_string()]));
    let page = reg
        .read(&Target::Tag("x".to_string()), None, Some(10), &None, None, &None)
        .unwrap();
    assert_eq!(addresses(&page), vec!["c1".to_string()]);
}

#[test]
fn relationship_scan_finds_related_items() {
    let mut reg = fresh_registry();
    let rels = Some(vec![AddressTag { address: "wallet1".to_string(), tag: "owner".to_string() }]);
    let out = reg
        .create(
            &"alice".to_string(),
            None,
            None,
            &b"{}".to_vec(),
            &None,
            &None,
            &None,
            &None,
            &None,
            &rels,
            &"repo".to_string(),
            1_000,
        )
        .unwrap();
    reg.register_created(out.contract_id, &"c1".to_string(), out.code_id, 5, 1_000).unwrap();
    let target = Target::Relationship(("wallet1".to_string(), "owner".to_string()));
    let page = reg.read(&target, None, Some(10), &None, None, &None).unwrap();
    assert_eq!(addresses(&page), vec!["c1".to_string()]);
}

#[test]
fn update_rejects_out_of_range_slot() {
    let mut reg = fresh_registry();
    add_item(&mut reg, "c1", 10, None);
    let updates = Some(vec![IndexSlotValue::Uint64 { slot: 9, value: 1 }]);
    assert!(matches!(
        reg.update(&"c1".to_string(), 2_000, &updates),
        Err(ContractError::SlotOutOfBounds { slot: 9 })
    ));
}

#[test]
fn update_rejects_uninitialized_slot() {
    let mut reg = fresh_registry();
    add_item(&mut reg, "c1", 10, None);
    // boolean slot 1 was never named at initialization
    let updates = Some(vec![IndexSlotValue::Boolean { slot: 1, value: true }]);
    assert!(matches!(
        reg.update(&"c1".to_string(), 2_000, &updates),
        Err(ContractError::InvalidIndexSlot)
    ));
}

#[test]
fn update_rejects_unknown_sender() {
    let mut reg = fresh_registry();
    assert!(matches!(
        reg.update(&"ghost".to_string(), 2_000, &None),
        Err(ContractError::NotAuthorized)
    ));
}

#[test]
fn update_advances_revision_and_update_time() {
    let mut reg = fresh_registry();
    let id = add_item(&mut reg, "c1", 10, None);
    reg.update(&"c1".to_string(), 9_000, &None).unwrap();
    let meta = *reg.metadata.get(id).unwrap();
    assert_eq!(meta.rev, 1);
    assert_eq!(meta.updated_at, 9_000);
    let eq = Target::Index(IndexBounds::Rev { between: None, equals: Some(1) });
    let page = reg.read(&eq, None, Some(10), &None, None, &None).unwrap();
    assert_eq!(addresses(&page), vec!["c1".to_string()]);
}

#[test]
fn since_filter_drops_stale_items() {
    let mut reg = fresh_registry();
    add_item(&mut reg, "c1", 10, None);
    add_item(&mut reg, "c2", 20, None);
    reg.update(&"c2".to_string(), 9_000, &None).unwrap();
    let target = Target::Index(IndexBounds::Uint64 { slot: 0, between: None, equals: None });
    let page = reg
        .read(&target, None, Some(10), &Some(Since::Rev(0)), None, &None)
        .unwrap();
    assert_eq!(addresses(&page), vec!["c2".to_string()]);
}

#[test]
fn values_returns_current_record() {
    let mut reg = fresh_registry();
    add_item(&mut reg, "c1", 10, None);
    let values = reg.values(&"c1".to_string()).unwrap().values;
    assert_eq!(values.uint64[0], Some(10));
    assert_eq!(values.uint64[1], None);
    assert!(matches!(
        reg.values(&"ghost".to_string()),
        Err(ContractError::NotFound)
    ));
}

#[test]
fn remove_demands_authorization_and_a_known_item() {
    let mut reg = fresh_registry();
    add_item(&mut reg, "c1", 10, None);
    assert!(matches!(
        reg.remove(&"c1".to_string(), None),
        Err(ContractError::NotAuthorized)
    ));
    assert!(matches!(
        reg.remove(&"alice".to_string(), None),
        Err(ContractError::NotFound)
    ));
}

#[test]
fn rename_index_returns_old_and_new_names() {
    let mut reg = fresh_registry();
    let (old_name, new_name) = reg
        .rename_index(
            &"alice".to_string(),
            None,
            ValueKind::Uint64,
            0,
            &Some("score".to_string()),
        )
        .unwrap();
    assert_eq!(old_name, "points");
    assert_eq!(new_name, "score");
    assert!(matches!(
        reg.rename_index(&"alice".to_string(), None, ValueKind::Uint64, 9, &None),
        Err(ContractError::SlotOutOfBounds { slot: 9 })
    ));
    assert!(matches!(
        reg.rename_index(&"alice".to_string(), None, ValueKind::Boolean, 1, &None),
        Err(ContractError::InvalidIndexSlot)
    ));
}

#[test]
fn presets_round_trip_through_create() {
    let mut reg = fresh_registry();
    let out = reg
        .create(
            &"alice".to_string(),
            None,
            Some(9),
            &b"{\"a\":1}".to_vec(),
            &None,
            &Some("first".to_string()),
            &None,
            &Some("recipe".to_string()),
            &None,
            &None,
            &"repo".to_string(),
            1_000,
        )
        .unwrap();
    reg.register_created(out.contract_id, &"c1".to_string(), out.code_id, 5, 1_000).unwrap();
    // a second save under the same name is refused
    assert!(matches!(
        reg.create(
            &"alice".to_string(),
            None,
            Some(9),
            &b"{}".to_vec(),
            &None,
            &Some("again".to_string()),
            &None,
            &Some("recipe".to_string()),
            &None,
            &None,
            &"repo".to_string(),
            1_000,
        ),
        Err(ContractError::PresetExists)
    ));
    // the preset fills in the code id and payload
    let out2 = reg
        .create_from_preset(
            &"alice".to_string(),
            None,
            None,
            &None,
            &None,
            &None,
            &None,
            &Some("recipe".to_string()),
            &None,
            &None,
            &None,
            &"repo".to_string(),
            2_000,
        )
        .unwrap();
    assert_eq!(out2.code_id, 9);
    assert_eq!(out2.msg, b"{\"a\":1}".to_vec());
    assert_eq!(out2.label, "first");
    reg.remove_preset(&"alice".to_string(), &"recipe".to_string()).unwrap();
    assert!(matches!(
        reg.remove_preset(&"alice".to_string(), &"recipe".to_string()),
        Err(ContractError::NotAuthorized)
    ));
}

#[test]
fn create_without_label_or_default_is_refused() {
    let mut msg = base_msg();
    msg.default_label = None;
    let mut reg = Registry::initialize("alice".to_string(), &msg).unwrap();
    assert!(matches!(
        reg.create(
            &"alice".to_string(),
            None,
            None,
            &b"{}".to_vec(),
            &None,
            &None,
            &None,
            &None,
            &None,
            &None,
            &"repo".to_string(),
            1_000,
        ),
        Err(ContractError::LabelRequired)
    ));
}

#[test]
fn create_builds_default_label_from_id() {
    let mut reg = fresh_registry();
    let out = reg
        .create(
            &"alice".to_string(),
            None,
            None,
            &b"{}".to_vec(),
            &None,
            &None,
            &None,
            &None,
            &None,
            &None,
            &"repo".to_string(),
            1_000,
        )
        .unwrap();
    assert_eq!(out.label, "managed-0");
    assert_eq!(out.code_id, 7);
    assert_eq!(out.admin, Some("repo".to_string()));
}

#[test]
fn select_honours_the_field_filter() {
    let reg = fresh_registry();
    let all = reg.select(&None, &None);
    assert_eq!(all.count, Some(0));
    assert_eq!(all.created_by, Some("alice".to_string()));
    assert_eq!(all.default_code_id, Some(7));
    assert_eq!(all.code_ids, Some(vec![7, 9]));
    let indices = all.indices.unwrap();
    assert_eq!(indices.uint64.len(), 2);
    assert_eq!(indices.uint64[0].name, Some("points".to_string()));
    assert_eq!(indices.uint64[0].size, 0);
    let only_count = reg.select(&Some(vec!["count".to_string()]), &None);
    assert_eq!(only_count.count, Some(0));
    assert!(only_count.created_by.is_none());
    assert!(only_count.indices.is_none());
}

#[test]
fn set_acl_changes_the_policy() {
    let mut reg = fresh_registry();
    assert!(matches!(
        reg.set_acl(&"bob".to_string(), None, &"acl1".to_string()),
        Err(ContractError::NotAuthorized)
    ));
    reg.set_acl(&"alice".to_string(), None, &"acl1".to_string()).unwrap();
    // with an access-control contract configured, its answer decides
    assert!(reg.is_allowed(&"bob".to_string(), Some(true)));
    assert!(!reg.is_allowed(&"bob".to_string(), Some(false)));
    assert!(!reg.is_allowed(&"alice".to_string(), None));
}

#[test]
fn update_allowed_code_ids_replaces_the_list() {
    let mut reg = fresh_registry();
    reg.update_allowed_code_ids(&"alice".to_string(), None, &vec![3, 1, 3]).unwrap();
    assert!(reg.allowed_code_ids.contains(1));
    assert!(reg.allowed_code_ids.contains(3));
    assert!(!reg.allowed_code_ids.contains(7));
    assert_eq!(reg.allowed_code_ids.as_vec(), vec![1, 3]);
}

#[test]
fn boolean_and_text_slots_index_items() {
    let mut reg = fresh_registry();
    let indices = Some(vec![
        IndexSlotValue::Boolean { slot: 0, value: true },
        IndexSlotValue::Text { slot: 0, value: "apple".to_string() },
    ]);
    let out = reg
        .create(
            &"alice".to_string(),
            None,
            None,
            &b"{}".to_vec(),
            &None,
            &Some("one".to_string()),
            &indices,
            &None,
            &None,
            &None,
            &"repo".to_string(),
            1_000,
        )
        .unwrap();
    reg.register_created(out.contract_id, &"c1".to_string(), out.code_id, 5, 1_000).unwrap();
    let bool_page = reg
        .read(
            &Target::Index(IndexBounds::Boolean { slot: 0, start: Some(true), stop: None }),
            None,
            Some(10),
            &None,
            None,
            &None,
        )
        .unwrap();
    assert_eq!(addresses(&bool_page), vec!["c1".to_string()]);
    let text_page = reg
        .read(
            &Target::Index(IndexBounds::Text {
                slot: 0,
                between: None,
                equals: Some("apple".to_string()),
            }),
            None,
            Some(10),
            &None,
            None,
            &None,
        )
        .unwrap();
    assert_eq!(addresses(&text_page), vec!["c1".to_string()]);
}

#[test]
fn zero_limit_is_clamped_up_to_one() {
    let mut reg = fresh_registry();
    add_item(&mut reg, "c1", 10, None);
    add_item(&mut reg, "c2", 20, None);
    let target = Target::Index(IndexBounds::Uint64 { slot: 0, between: None, equals: None });
    let page = reg.read(&target, None, Some(0), &None, None, &None).unwrap();
    assert_eq!(addresses(&page), vec!["c1".to_string()]);
    assert!(page.cursor.is_some());
}

#[test]
fn empty_range_yields_empty_page_and_no_cursor() {
    let mut reg = fresh_registry();
    add_item(&mut reg, "c1", 10, None);
    let target = Target::Index(IndexBounds::Uint64 {
        slot: 0,
        between: Some((Some(100), Some(200))),
        equals: None,
    });
    let page = reg.read(&target, None, Some(10), &None, None, &None).unwrap();
    assert!(page.page.is_empty());
    assert!(page.cursor.is_none());
}

#[test]
fn descending_pagination_chains_through_cursors() {
    let mut reg = fresh_registry();
    add_item(&mut reg, "c1", 10, None);
    let i2 = add_item(&mut reg, "c2", 20, None);
    add_item(&mut reg, "c3", 30, None);
    let target = Target::Index(IndexBounds::Uint64 { slot: 0, between: None, equals: None });
    let first = reg.read(&target, Some(true), Some(2), &None, None, &None).unwrap();
    assert_eq!(addresses(&first), vec!["c3".to_string(), "c2".to_string()]);
    let cursor = first.cursor.clone().unwrap();
    assert_eq!(cursor, (b"20".to_vec(), i2));
    let second = reg
        .read(&target, Some(true), Some(2), &None, None, &Some(cursor))
        .unwrap();
    assert_eq!(addresses(&second), vec!["c1".to_string()]);
    assert!(second.cursor.is_none());
}

#[test]
fn read_with_metadata_attaches_item_metadata() {
    let mut reg = fresh_registry();
    add_item(&mut reg, "c1", 10, None);
    let target = Target::Index(IndexBounds::Uint64 { slot: 0, between: None, equals: None });
    let page = reg.read(&target, None, Some(10), &None, Some(true), &None).unwrap();
    let meta = page.page[0].meta.unwrap();
    assert_eq!(meta.rev, 0);
    assert_eq!(meta.height, 5);
    assert_eq!(meta.created_at, 1_000);
}
