use cawala_node::control_store::{
    ControlStore, ControlStoreError, JoinRequest, OutboundJoin, StoredJoin,
};
use cawala_node::record::ChildKind;

fn id(text: &str) -> String {
    text.to_string()
}

fn join(node: &str, slot: Option<u8>) -> JoinRequest {
    JoinRequest {
        node: id(node),
        kind: ChildKind::Node,
        operator: [1u8; 32],
        ledger: Some([2u8; 32]),
        desired_slot: slot,
        location_hint: None,
        nonce: 7,
        expiry: 1000,
    }
}

fn sound(request: JoinRequest) -> StoredJoin {
    StoredJoin { request, fault: None }
}

fn empty() -> ControlStore {
    ControlStore::open(vec![], None, None).unwrap()
}

/// Open what a store holds.
fn reopen(store: &ControlStore) -> ControlStore {
    let stored = store.pending().iter().map(|request| sound(request.copied())).collect();
    let outbound: Option<OutboundJoin> = store.outbound().map(|join| join.copied());
    ControlStore::open(stored, outbound, None).unwrap()
}

#[test]
fn absent_files_are_empty() {
    let store = empty();
    assert!(store.pending().is_empty());
    assert!(store.outbound().is_none());
}

#[test]
fn round_trip_pending_and_outbound() {
    let mut store = empty();
    store.add_pending(join("applicant-a", Some(3)));
    store.add_pending(join("applicant-b", None));
    store.set_outbound(join("me", Some(1)), id("parent"), None);

    let loaded = reopen(&store);
    assert_eq!(loaded.pending().len(), 2);
    assert_eq!(loaded.pending_for(&id("applicant-a")).unwrap().desired_slot, Some(3));
    let out = loaded.outbound().expect("outbound present");
    assert_eq!(out.parent, "parent");
    assert_eq!(out.request.node, "me");
}

#[test]
fn pinned_operator_round_trips_through_json() {
    let mut store = empty();
    store.set_outbound(join("me", Some(1)), id("parent"), Some([9u8; 32]));
    let loaded = reopen(&store);
    assert_eq!(loaded.outbound().unwrap().pinned_operator, Some([9u8; 32]));

    store.set_outbound(join("me", Some(1)), id("parent"), None);
    let loaded = reopen(&store);
    assert_eq!(loaded.outbound().unwrap().pinned_operator, None);
}

#[test]
fn add_pending_is_idempotent() {
    let mut store = empty();
    store.add_pending(join("applicant-a", Some(3)));
    store.add_pending(join("applicant-a", Some(5)));
    assert_eq!(store.pending().len(), 1);
    assert_eq!(store.pending_for(&id("applicant-a")).unwrap().desired_slot, Some(3));
}

#[test]
fn remove_pending_returns_request() {
    let mut store = empty();
    store.add_pending(join("applicant-a", Some(3)));
    let removed = store.remove_pending(&id("applicant-a")).unwrap();
    assert_eq!(removed.node, "applicant-a");
    assert!(store.pending().is_empty());
    assert!(store.remove_pending(&id("applicant-a")).is_none());
}

#[test]
fn clear_outbound() {
    let mut store = empty();
    store.set_outbound(join("me", None), id("parent"), None);
    assert!(store.outbound().is_some());
    store.clear_outbound();
    assert!(store.outbound().is_none());
}

#[test]
fn structurally_invalid_pending_rejected() {
    let bad = StoredJoin { request: join("x", None), fault: Some(id("no ledger key")) };
    let err = ControlStore::open(vec![sound(join("y", None)), bad], None, None).unwrap_err();
    assert_eq!(err, ControlStoreError::InvalidPending(id("no ledger key")));
    assert_eq!(
        err.text(&id("pending_joins.json")),
        "pending_joins.json is corrupt: invalid join request: no ledger key"
    );
}

#[test]
fn duplicate_pending_node_rejected() {
    let stored = vec![sound(join("applicant-a", Some(3))), sound(join("applicant-a", Some(3)))];
    let err = ControlStore::open(stored, None, None).unwrap_err();
    assert_eq!(err, ControlStoreError::DuplicatePending(id("applicant-a")));
    assert_eq!(
        err.text(&id("pending_joins.json")),
        "pending_joins.json is corrupt: duplicate pending node 'applicant-a'"
    );
}

#[test]
fn structurally_invalid_outbound_rejected() {
    let out = OutboundJoin { request: join("me", None), parent: id("p"), pinned_operator: None };
    let err = ControlStore::open(vec![], Some(out), Some(id("bad slot"))).unwrap_err();
    assert_eq!(err, ControlStoreError::InvalidOutbound(id("bad slot")));
    assert_eq!(
        err.text(&id("outbound_join.json")),
        "outbound_join.json is corrupt: invalid outbound join request: bad slot"
    );
}
