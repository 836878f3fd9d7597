use cawala_node::addr::OctAddr;
use cawala_node::record::{
    ChildEntry, ChildKind, NodeRecord, ParentLink, RecordError, RecordStore,
};

const JOINED: u64 = 1700000000;

fn id(text: &str) -> String {
    text.to_string()
}

fn addr(text: &str) -> OctAddr {
    OctAddr::parse(text).unwrap()
}

fn store() -> RecordStore {
    RecordStore::open(None, &id("node-a")).unwrap()
}

/// Save a store and open what was saved.
fn reopen(store: &RecordStore) -> RecordStore {
    let saved = store.save().unwrap().copied();
    RecordStore::open(Some(saved), &id("node-a")).unwrap()
}

fn shown<T: std::fmt::Debug>(value: &T) -> String {
    format!("{value:?}")
}

fn address_of(store: &RecordStore) -> Option<String> {
    store.record().address.as_ref().map(|address| address.text())
}

#[test]
fn save_load_roundtrip() {
    let mut store = store();
    store.set_parent(id("parent-x"), 3).unwrap();
    store.attach_child(id("child-1"), ChildKind::Node, Some(0), JOINED).unwrap();
    store.attach_child(id("child-2"), ChildKind::User, Some(5), JOINED).unwrap();

    let loaded = reopen(&store);
    assert_eq!(shown(loaded.record()), shown(store.record()));
    assert_eq!(loaded.record().parent.as_ref().unwrap().parent_id, "parent-x");
    assert_eq!(loaded.record().children.len(), 2);
}

#[test]
fn save_replaces_existing_file_atomically() {
    let mut store = store();
    store.set_parent(id("parent-x"), 1).unwrap();
    let first = reopen(&store);
    assert_eq!(first.record().parent.as_ref().unwrap().parent_id, "parent-x");

    store.set_parent(id("parent-y"), 2).unwrap();
    store.attach_child(id("c1"), ChildKind::Node, Some(0), JOINED).unwrap();

    let loaded = reopen(&store);
    assert_eq!(shown(loaded.record()), shown(store.record()));
    assert_eq!(loaded.record().parent.as_ref().unwrap().parent_id, "parent-y");
    assert_eq!(loaded.record().children.len(), 1);
}

#[test]
fn attach_auto_slot_picks_lowest_free() {
    let mut store = store();
    store.attach_child(id("c1"), ChildKind::Node, Some(2), JOINED).unwrap();
    store.attach_child(id("c2"), ChildKind::Node, None, JOINED).unwrap();
    let c2 = store.record().children.iter().find(|c| c.child_id == "c2").unwrap();
    assert_eq!(c2.slot, 0);
}

#[test]
fn date_joined_recorded_and_persisted() {
    let mut store = store();
    store.attach_child(id("c1"), ChildKind::Node, Some(0), 1700000000).unwrap();
    let c1 = store.record().children.iter().find(|c| c.child_id == "c1").unwrap();
    assert_eq!(c1.date_joined, 1700000000);
    let loaded = reopen(&store);
    assert_eq!(shown(loaded.record()), shown(store.record()));
    let loaded_c1 = loaded.record().children.iter().find(|c| c.child_id == "c1").unwrap();
    assert_eq!(loaded_c1.date_joined, 1700000000);
}

#[test]
fn ninth_child_rejected() {
    let mut store = store();
    for i in 0..8 {
        store.attach_child(format!("c{i}"), ChildKind::Node, None, JOINED).unwrap();
    }
    assert_eq!(
        store.attach_child(id("c8"), ChildKind::Node, None, JOINED),
        Err(RecordError::CapExceeded)
    );
    assert_eq!(
        store.attach_child(id("c8"), ChildKind::Node, Some(4), JOINED),
        Err(RecordError::SlotTaken(4))
    );
    assert_eq!(store.record().children.len(), 8);
}

#[test]
fn duplicate_slot_rejected() {
    let mut store = store();
    store.attach_child(id("c1"), ChildKind::Node, Some(3), JOINED).unwrap();
    assert_eq!(
        store.attach_child(id("c2"), ChildKind::Node, Some(3), JOINED),
        Err(RecordError::SlotTaken(3))
    );
}

#[test]
fn duplicate_child_rejected() {
    let mut store = store();
    store.attach_child(id("c1"), ChildKind::Node, None, JOINED).unwrap();
    assert_eq!(
        store.attach_child(id("c1"), ChildKind::User, Some(1), JOINED),
        Err(RecordError::DuplicateChild("c1".into()))
    );
}

#[test]
fn slot_out_of_range_rejected() {
    let mut store = store();
    assert_eq!(
        store.attach_child(id("c1"), ChildKind::Node, Some(8), JOINED),
        Err(RecordError::SlotOutOfRange(8))
    );
    assert_eq!(store.set_parent(id("parent-x"), 9), Err(RecordError::SlotOutOfRange(9)));
    assert!(store.record().parent.is_none());
}

#[test]
fn self_reference_rejected() {
    let mut store = store();
    assert_eq!(
        store.set_parent(id("node-a"), 1),
        Err(RecordError::SelfReference("node-a".into()))
    );
    assert_eq!(
        store.attach_child(id("node-a"), ChildKind::Node, None, JOINED),
        Err(RecordError::SelfReference("node-a".into()))
    );
}

#[test]
fn detach_child() {
    let mut store = store();
    store.attach_child(id("c1"), ChildKind::Node, None, JOINED).unwrap();
    store.detach_child(&id("c1")).unwrap();
    assert!(store.record().children.is_empty());
    assert_eq!(
        store.detach_child(&id("c1")),
        Err(RecordError::ChildNotFound("c1".into()))
    );
}

#[test]
fn parent_link_roundtrip_via_json() {
    let mut store = store();
    store.set_parent(id("parent-x"), 5).unwrap();
    store.attach_child(id("c1"), ChildKind::User, Some(0), JOINED).unwrap();
    assert_eq!(store.record().children[0].kind.label(), "user");
    let loaded = reopen(&store);
    assert_eq!(shown(loaded.record()), shown(store.record()));
}

#[test]
fn bad_kind_rejected_on_load() {
    assert_eq!(ChildKind::from_label(&id("bogus")), None);
    assert_eq!(ChildKind::from_label(&id("node")), Some(ChildKind::Node));
    assert_eq!(ChildKind::from_label(&id("user")), Some(ChildKind::User));
}

#[test]
fn id_mismatch_rejected() {
    let mut store = store();
    store.attach_child(id("c1"), ChildKind::Node, None, JOINED).unwrap();
    let saved = store.save().unwrap().copied();
    assert_eq!(
        RecordStore::open(Some(saved), &id("some-other-id")).unwrap_err(),
        RecordError::IdMismatch { found: "node-a".into(), expected: "some-other-id".into() }
    );
}

fn stored_child(child: &str, slot: u8) -> ChildEntry {
    ChildEntry { child_id: id(child), kind: ChildKind::Node, slot, date_joined: 0 }
}

#[test]
fn validate_rejects_tampered_file() {
    let mut twice = NodeRecord::new(id("node-a"));
    twice.children = vec![stored_child("c1", 1), stored_child("c2", 1)];
    assert_eq!(
        RecordStore::open(Some(twice), &id("node-a")).unwrap_err(),
        RecordError::SlotTaken(1)
    );
    let mut high = NodeRecord::new(id("node-a"));
    high.parent = Some(ParentLink { parent_id: id("p"), slot: 8, generation: 0 });
    assert_eq!(
        RecordStore::open(Some(high), &id("node-a")).unwrap_err(),
        RecordError::SlotOutOfRange(8)
    );
}

#[test]
fn record_address_roundtrip() {
    let mut store = store();
    store.set_parent(id("parent-x"), 2).unwrap();
    store.set_address(addr("0.1.2")).unwrap();
    let loaded = reopen(&store);
    assert_eq!(shown(loaded.record()), shown(store.record()));
    assert_eq!(address_of(&loaded), Some(id("0.1.2")));
}

#[test]
fn record_rejects_address_without_parent() {
    let mut store = store();
    assert_eq!(
        store.set_address(addr("0.1.2")),
        Err(RecordError::AddressWithoutParent("0.1.2".into()))
    );
    store.set_address(addr("0")).unwrap();
    assert_eq!(address_of(&store), Some(id("0")));
}

#[test]
fn record_rejects_address_slot_mismatch() {
    let mut store = store();
    store.set_parent(id("parent-x"), 2).unwrap();
    assert_eq!(
        store.set_address(addr("0.1.5")),
        Err(RecordError::AddressSlotMismatch { address_slot: Some(5), parent_slot: 2 })
    );
}

#[test]
fn address_epoch_bumps_once_per_address_change() {
    let mut store = store();
    assert_eq!(store.address_epoch(), 0);

    store.set_parent(id("parent-x"), 2).unwrap();
    store.set_address(addr("0.1.2")).unwrap();
    assert_eq!(store.address_epoch(), 1);
    store.set_address(addr("0.1.2")).unwrap();
    assert_eq!(store.address_epoch(), 1);

    store.rebase_to_root().unwrap();
    assert_eq!(store.address_epoch(), 2);
    store.rebase_to_root().unwrap();
    assert_eq!(store.address_epoch(), 2);

    store.unset_address().unwrap();
    assert_eq!(store.address_epoch(), 3);
    store.unset_address().unwrap();
    assert_eq!(store.address_epoch(), 3);

    store.set_address(addr("0")).unwrap();
    assert_eq!(store.address_epoch(), 4);
    store.unset_parent().unwrap();
    assert_eq!(store.address_epoch(), 4);
}

#[test]
fn parent_generation_is_monotonic_and_resets_with_the_link() {
    let mut store = store();
    assert_eq!(store.parent_generation(), 0, "unattached");

    store.set_parent(id("parent-x"), 2).unwrap();
    assert_eq!(store.parent_generation(), 0, "a fresh link is unknown");

    store.set_parent_generation(3);
    assert_eq!(store.parent_generation(), 3);
    store.set_parent_generation(1);
    assert_eq!(store.parent_generation(), 3);

    store.set_parent(id("parent-y"), 2).unwrap();
    assert_eq!(store.parent_generation(), 0);
}

#[test]
fn old_node_json_without_new_fields_loads_with_defaults() {
    let fresh = NodeRecord::new(id("node-a"));
    let store = RecordStore::open(Some(fresh), &id("node-a")).unwrap();
    assert_eq!(store.address_epoch(), 0);
    assert_eq!(store.parent_generation(), 0);

    let mut linked = NodeRecord::new(id("node-a"));
    linked.address = Some(addr("0.3"));
    linked.parent = Some(ParentLink { parent_id: id("parent-x"), slot: 3, generation: 0 });
    let mut store = RecordStore::open(Some(linked), &id("node-a")).unwrap();
    assert_eq!(store.record().address_epoch(), 0);
    assert_eq!(store.parent_generation(), 0);
    store.unset_address().unwrap();
    assert_eq!(store.address_epoch(), 1);
}

#[test]
fn rebase_to_root_clears_parent_and_sets_root_in_one_op() {
    let mut store = store();
    store.set_parent(id("parent-x"), 2).unwrap();
    store.set_address(addr("0.1.2")).unwrap();
    store.attach_child(id("c1"), ChildKind::Node, Some(0), JOINED).unwrap();

    store.rebase_to_root().unwrap();
    assert!(store.record().parent.is_none());
    assert_eq!(address_of(&store), Some(id("0")));
    assert_eq!(store.record().children.len(), 1);
    store.record().validate().unwrap();

    store.rebase_to_root().unwrap();
    assert!(store.record().parent.is_none());
    assert_eq!(address_of(&store), Some(id("0")));

    let loaded = reopen(&store);
    assert_eq!(shown(loaded.record()), shown(store.record()));
}

#[test]
fn unset_parent_clears_nonroot_address() {
    let mut attached = store();
    attached.set_parent(id("parent-x"), 2).unwrap();
    attached.set_address(addr("0.1.2")).unwrap();
    attached.unset_parent().unwrap();
    assert!(attached.record().parent.is_none());
    assert!(attached.record().address.is_none());
    attached.record().validate().unwrap();

    let mut root = store();
    root.set_address(addr("0")).unwrap();
    root.unset_parent().unwrap();
    assert_eq!(address_of(&root), Some(id("0")));
    root.record().validate().unwrap();
}

#[test]
fn a_refused_change_leaves_the_record_as_it_was() {
    let mut store = store();
    store.set_parent(id("parent-x"), 2).unwrap();
    store.set_address(addr("0.1.2")).unwrap();
    let before = shown(store.record());
    assert!(store.set_parent(id("parent-y"), 3).is_err());
    assert!(store.set_address(addr("0.1.5")).is_err());
    assert!(store.attach_child(id("node-a"), ChildKind::Node, None, 1).is_err());
    assert_eq!(shown(store.record()), before);
}

#[test]
fn record_errors_have_their_messages() {
    let cases = vec![
        (RecordError::SelfReference(id("a")), "node 'a' cannot reference itself"),
        (RecordError::SlotOutOfRange(9), "slot 9 out of range (must be 0..=7)"),
        (RecordError::SlotTaken(3), "slot 3 is already taken"),
        (
            RecordError::AddressWithoutParent(id("0.1")),
            "address '0.1' set without a parent (only the root address \"0\" may have no parent)",
        ),
        (
            RecordError::AddressSlotMismatch { address_slot: Some(5), parent_slot: 2 },
            "address slot Some(5) does not match parent slot 2",
        ),
        (
            RecordError::AddressSlotMismatch { address_slot: None, parent_slot: 2 },
            "address slot None does not match parent slot 2",
        ),
        (RecordError::CapExceeded, "node already has 8 children (cap reached)"),
        (RecordError::DuplicateChild(id("c")), "child 'c' already present"),
        (RecordError::ChildNotFound(id("c")), "child 'c' not found"),
        (
            RecordError::IdMismatch { found: id("x"), expected: id("y") },
            "record node_id 'x' does not match this node's endpoint id 'y'",
        ),
        (
            RecordError::ReadFailed { path: id("p"), detail: id("d") },
            "could not read p: d",
        ),
        (
            RecordError::WriteFailed { path: id("p"), detail: id("d") },
            "could not write p: d",
        ),
        (
            RecordError::Corrupt { path: id("p"), detail: id("d") },
            "record file p is corrupt: d",
        ),
    ];
    for (error, message) in cases {
        assert_eq!(error.text(), message);
    }
}

#[test]
fn addresses_and_texts_belong_together() {
    for text in ["0", "0.1", "0.7.0.3"] {
        assert_eq!(OctAddr::parse(text).unwrap().text(), text);
    }
    for text in ["", "1", "0.", "0.8", "0.1.", ".0", "0,1", "00", "0.11"] {
        assert!(OctAddr::parse(text).is_none(), "{text}");
    }
}
