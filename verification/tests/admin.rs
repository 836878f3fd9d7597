use cawala_node::admin_cli;
use cawala_node::admin_cli::AdminCliError;
use cawala_node::admin_store::{
    AdminGrant, AdminScope, AdminStore, AdminStoreDocument, AdminStoreError, SignedAdminGrant,
    ADMIN_STORE_VERSION, MAX_ADMIN_ENTRIES,
};

const NODE: &str = "node-a";
const GRANT_VERSION: u32 = 1;
const DEFAULT_ADMIN_TTL_SECS: u64 = 2_592_000;
const MAX_ADMIN_TTL_SECS: u64 = 31_536_000;

fn id(text: &str) -> String {
    text.to_string()
}

fn operator(seed: u8) -> [u8; 32] {
    [seed; 32]
}

fn grant(node: &str, admin_seed: u8, granted_at: u64, expiry: u64) -> AdminGrant {
    AdminGrant {
        version: GRANT_VERSION,
        node: id(node),
        admin: operator(admin_seed),
        scope: AdminScope::Admin,
        granted_at,
        expiry,
        label: Some(id("audit")),
    }
}

fn sign(grant: AdminGrant, signer: u8) -> SignedAdminGrant {
    SignedAdminGrant { grant, fault: None, valid_under: vec![operator(signer)] }
}

fn signed(node: &str, node_seed: u8, admin_seed: u8) -> SignedAdminGrant {
    sign(grant(node, admin_seed, 1_000, 1_000 + DEFAULT_ADMIN_TTL_SECS), node_seed)
}

fn document(admins: Vec<SignedAdminGrant>) -> Option<AdminStoreDocument> {
    Some(AdminStoreDocument { version: ADMIN_STORE_VERSION, admins })
}

fn load(admins: Vec<SignedAdminGrant>, node: &str, seed: u8) -> Result<AdminStore, AdminStoreError> {
    AdminStore::load(document(admins), &id(node), &operator(seed))
}

#[test]
fn admin_store_absent_file_is_empty() {
    let store = AdminStore::load(None, &id(NODE), &operator(1)).unwrap();
    assert!(store.is_empty());
}

#[test]
fn round_trip_and_active_scope() {
    let loaded = load(vec![signed(NODE, 1, 3), signed(NODE, 1, 4)], NODE, 1).unwrap();
    assert_eq!(loaded.len(), 2);
    assert_eq!(loaded.active_scope(&operator(3), 1_500), Some(AdminScope::Admin));
    let expiry = 1_000 + DEFAULT_ADMIN_TTL_SECS;
    assert_eq!(loaded.active_scope(&operator(3), expiry), Some(AdminScope::Admin));
    assert_eq!(loaded.active_scope(&operator(3), expiry + 1), None);
    assert_eq!(loaded.len(), 2, "expired grants are retained");
}

#[test]
fn grant_replaces_same_admin() {
    let mut store = AdminStore::empty();
    store.grant(signed(NODE, 1, 3));
    store.grant(sign(grant(NODE, 3, 2_000, 2_000 + MAX_ADMIN_TTL_SECS), 1));
    assert_eq!(store.len(), 1);
    assert_eq!(store.entries()[0].grant.granted_at, 2_000);
    assert_eq!(store.entries()[0].grant.expiry, 2_000 + MAX_ADMIN_TTL_SECS);
}

#[test]
fn revoke_returns_whether_present() {
    let mut store = AdminStore::empty();
    store.grant(signed(NODE, 1, 3));
    assert!(store.revoke(&operator(3)));
    assert!(!store.revoke(&operator(3)));
    assert!(store.is_empty());
}

#[test]
fn wrong_operator_signature_rejected_on_load() {
    let err = load(vec![signed(NODE, 1, 3)], NODE, 2).unwrap_err();
    assert_eq!(err, AdminStoreError::InvalidSignature);
}

#[test]
fn node_mismatch_rejected_on_load() {
    let err = load(vec![signed(NODE, 1, 3)], "node-b", 1).unwrap_err();
    assert_eq!(
        err,
        AdminStoreError::NodeMismatch { found: id("node-a"), expected: id("node-b") }
    );
}

#[test]
fn unsupported_version_rejected() {
    let stored = AdminStoreDocument { version: ADMIN_STORE_VERSION + 1, admins: vec![] };
    let err = AdminStore::load(Some(stored), &id(NODE), &operator(1)).unwrap_err();
    assert_eq!(err, AdminStoreError::UnsupportedVersion(2));
}

#[test]
fn duplicate_admin_rejected() {
    let err = load(vec![signed(NODE, 1, 3), signed(NODE, 1, 3)], NODE, 1).unwrap_err();
    assert_eq!(err, AdminStoreError::DuplicateAdmin);
}

#[test]
fn invalid_ttl_rejected() {
    let mut bad = sign(grant(NODE, 3, 1_000, 1_000), 9);
    bad.fault = Some(id("expiry is not after the grant"));
    let err = load(vec![bad], NODE, 1).unwrap_err();
    assert_eq!(err, AdminStoreError::InvalidGrant(id("expiry is not after the grant")));
}

#[test]
fn too_many_grants_are_refused() {
    let mut admins = Vec::new();
    for i in 0..=MAX_ADMIN_ENTRIES {
        let mut one = signed(NODE, 1, 3);
        one.grant.admin = [0u8; 32];
        one.grant.admin[0] = (i % 256) as u8;
        one.grant.admin[1] = (i / 256) as u8;
        admins.push(one);
    }
    let err = load(admins, NODE, 1).unwrap_err();
    assert_eq!(err, AdminStoreError::TooManyEntries { len: 257, max: 256 });
    assert_eq!(err.text(), "admin store holds 257 grants, max 256");
}

#[test]
fn admin_store_errors_have_their_messages() {
    assert_eq!(
        AdminStoreError::UnsupportedVersion(7).text(),
        "unsupported admin store version 7"
    );
    assert_eq!(
        AdminStoreError::InvalidGrant(id("x")).text(),
        "stored admin grant is invalid: x"
    );
    assert_eq!(
        AdminStoreError::NodeMismatch { found: id("a"), expected: id("b") }.text(),
        "admin grant is scoped to node 'a', expected 'b'"
    );
    assert_eq!(
        AdminStoreError::InvalidSignature.text(),
        "stored admin grant does not verify under this node's operator key"
    );
    assert_eq!(
        AdminStoreError::DuplicateAdmin.text(),
        "admin store contains a duplicate admin key"
    );
}

#[test]
fn a_reload_replaces_the_grants_and_a_failed_one_is_reported() {
    let mut store = AdminStore::empty();
    store.grant(signed(NODE, 1, 3));
    let err = store.reload(Err(AdminStoreError::DuplicateAdmin)).unwrap_err();
    assert_eq!(err.text(), AdminStoreError::DuplicateAdmin.text());
    assert_eq!(store.active_scope(&operator(3), 1_000), Some(AdminScope::Admin));
    assert!(store.reload(load(vec![signed(NODE, 1, 4)], NODE, 1)).is_ok());
    assert_eq!(store.active_scope(&operator(3), 1_000), None);
    assert_eq!(store.active_scope(&operator(4), 1_000), Some(AdminScope::Admin));
}

fn draw_up(
    admin: u8,
    expiry: Option<u64>,
    label: Option<String>,
) -> Result<AdminGrant, AdminCliError> {
    admin_cli::grant(
        &id(NODE),
        &operator(1),
        operator(admin),
        expiry,
        label,
        1_000,
        GRANT_VERSION,
        DEFAULT_ADMIN_TTL_SECS,
    )
}

#[test]
fn grant_round_trips_through_store() {
    let drawn = draw_up(3, None, Some(id("phone"))).unwrap();
    assert_eq!(drawn.admin, operator(3));
    assert_eq!(drawn.expiry, 1_000 + DEFAULT_ADMIN_TTL_SECS);

    let mut store = AdminStore::empty();
    admin_cli::store_grant(&mut store, sign(drawn, 1)).unwrap();
    let entries = admin_cli::list(&store);
    assert_eq!(entries.len(), 1);
    assert_eq!(entries[0].admin, operator(3));
    assert_eq!(entries[0].label.as_deref(), Some("phone"));
    assert_eq!(entries[0].expiry, 1_000 + DEFAULT_ADMIN_TTL_SECS);
    assert_eq!(
        entries[0].render(1_500),
        format!(
            "{} scope=admin granted=1000 expires={} label=phone status=active",
            "03".repeat(32),
            1_000 + DEFAULT_ADMIN_TTL_SECS
        )
    );
}

#[test]
fn grant_rejects_self_admin() {
    let err = draw_up(1, None, None).unwrap_err();
    assert_eq!(err, AdminCliError::SelfAdmin);
    assert_eq!(
        err.text(),
        "admin key equals this node's own operator key; refusing to grant self-administration"
    );
}

#[test]
fn grant_rejects_out_of_range_expiry() {
    let mut store = AdminStore::empty();
    for expiry in [1_000, 1_000 + MAX_ADMIN_TTL_SECS + 1] {
        let drawn = draw_up(3, Some(expiry), None).unwrap();
        assert_eq!(drawn.expiry, expiry);
        let mut bad = sign(drawn, 1);
        bad.fault = Some(id("out of range"));
        let err = admin_cli::store_grant(&mut store, bad).unwrap_err();
        assert_eq!(err, AdminCliError::InvalidGrant(id("out of range")));
        assert_eq!(err.text(), "invalid admin grant: out of range");
    }
    assert!(store.is_empty());
}

#[test]
fn grant_rejects_oversized_label() {
    let drawn = draw_up(3, None, Some("x".repeat(65))).unwrap();
    let mut bad = sign(drawn, 1);
    bad.fault = Some(id("label is too long"));
    let mut store = AdminStore::empty();
    let err = admin_cli::store_grant(&mut store, bad).unwrap_err();
    assert_eq!(err, AdminCliError::InvalidGrant(id("label is too long")));
}

#[test]
fn the_usual_expiry_does_not_overflow() {
    let drawn = admin_cli::grant(
        &id(NODE),
        &operator(1),
        operator(3),
        None,
        None,
        u64::MAX - 1,
        GRANT_VERSION,
        DEFAULT_ADMIN_TTL_SECS,
    )
    .unwrap();
    assert_eq!(drawn.expiry, u64::MAX);
}

#[test]
fn revoke_unknown_key_errors() {
    let mut store = AdminStore::empty();
    let err = admin_cli::revoke(&mut store, &operator(9)).unwrap_err();
    assert_eq!(err, AdminCliError::UnknownAdmin("09".repeat(32)));
    assert_eq!(err.text(), format!("admin '{}' is not registered", "09".repeat(32)));
}

#[test]
fn revoke_existing_removes_and_audits() {
    let mut store = AdminStore::empty();
    let drawn = draw_up(3, None, None).unwrap();
    admin_cli::store_grant(&mut store, sign(drawn, 1)).unwrap();
    admin_cli::revoke(&mut store, &operator(3)).unwrap();
    assert!(admin_cli::list(&store).is_empty());
}

#[test]
fn list_is_empty_when_no_file() {
    let store = AdminStore::load(None, &id(NODE), &operator(1)).unwrap();
    assert!(admin_cli::list(&store).is_empty());
}

#[test]
fn list_renders_active_and_expired() {
    let mut first = grant(NODE, 3, 100, 1_000);
    first.label = None;
    let mut second = grant(NODE, 4, 100, 200);
    second.label = None;
    let store = load(vec![sign(first, 1), sign(second, 1)], NODE, 1).unwrap();
    let entries = admin_cli::list(&store);
    assert_eq!(entries.len(), 2);
    let active = entries.iter().find(|entry| entry.admin == operator(3)).unwrap();
    let expired = entries.iter().find(|entry| entry.admin == operator(4)).unwrap();
    assert!(active.render(300).ends_with("label=- status=active"));
    assert!(expired.render(300).ends_with("label=- status=expired"));
    assert!(expired.render(200).ends_with("status=active"));
}

#[test]
fn store_errors_keep_their_message() {
    let err = AdminCliError::Store(AdminStoreError::DuplicateAdmin);
    assert_eq!(err.text(), "admin store: admin store contains a duplicate admin key");
}
