use cawala_node::addr::OctAddr;
use cawala_node::admin_store::{AdminGrant, AdminScope, AdminStore, AdminStoreError, SignedAdminGrant};
use cawala_node::control::{
    check_request, is_senior_child, saved, Authority, ControlLimits, ControlNode, OutboundKind,
    Progress, Verdicts, MAX_PENDING_JOINS, MAX_STORED_DECISIONS,
};
use cawala_node::control_msg::{
    deliver_outbound_decisions, delivery_status, map_approve_error, map_control_error,
    map_ledger_error, map_record_error, nonce_msg_id, ControlError, ControlReply, ControlRequest,
    CreateChild, DeliveryStatus, JoinApproval, JoinRejection, MoveChild, PeerInsertError,
    RejectCode, SignedControl,
};
use cawala_node::control_store::{ControlStore, JoinRequest};
use cawala_node::record::{
    lowest_free_slot, ChildEntry, ChildKind, NodeRecord, RecordError, RecordStore,
};
use cawala_node::textmap::TextMap;
use cawala_node::wire::{PeerKeys, PeerRole};

const MAX_SLOT: u8 = 7;
const MAX_TTL: u64 = 900;
const LIMITS: ControlLimits =
    ControlLimits { format_version: 2, max_ttl: MAX_TTL, ttl: 300, grant_version: 1 };

fn id(text: &str) -> String {
    text.to_string()
}

fn addr(text: &str) -> OctAddr {
    OctAddr::parse(text).unwrap()
}

fn key(seed: u8) -> [u8; 32] {
    [seed; 32]
}

fn ledger(seed: u8) -> [u8; 32] {
    [seed ^ 0x80; 32]
}

fn child(id: &str, slot: u8, date_joined: u64) -> ChildEntry {
    ChildEntry { child_id: id.to_string(), kind: ChildKind::Node, slot, date_joined }
}

/// Stands in for the signature over the fields of a message.
fn seal(nonce: u64, expiry: u64) -> [u8; 64] {
    let mut bytes = [0u8; 64];
    bytes[..8].copy_from_slice(&nonce.to_le_bytes());
    bytes[8..16].copy_from_slice(&expiry.to_le_bytes());
    bytes
}

fn signed_until(
    origin: &str,
    controller: [u8; 32],
    nonce: u64,
    expiry: u64,
    request: ControlRequest,
) -> SignedControl {
    SignedControl {
        version: LIMITS.format_version,
        origin: id(origin),
        controller,
        nonce,
        expiry,
        request,
        signature: seal(nonce, expiry),
    }
}

fn authorize_at(
    origin: &str,
    controller: [u8; 32],
    nonce: u64,
    request: ControlRequest,
) -> SignedControl {
    signed_until(origin, controller, nonce, MAX_TTL, request)
}

fn same(got: &ControlReply, want: &ControlReply) -> bool {
    format!("{:?}", got) == format!("{:?}", want)
}

fn rejected(code: RejectCode) -> ControlReply {
    ControlReply::Rejected(code)
}

/// An engine with the replay guard and the stores around it.
struct Host {
    engine: ControlNode,
    seen: Vec<(String, [u8; 32], u64)>,
    insertion: Option<PeerInsertError>,
    saves_fail: bool,
}

impl Host {
    fn new(node: &str, operator: [u8; 32], address: Option<&str>, peers: TextMap<PeerKeys>) -> Host {
        let mut record = RecordStore::open(None, &id(node)).unwrap();
        if let Some(address) = address {
            record.set_address(addr(address)).unwrap();
        }
        let engine = ControlNode::new(
            id(node),
            operator,
            record,
            peers,
            ControlStore::open(vec![], None, None).unwrap(),
            AdminStore::empty(),
        );
        Host { engine, seen: Vec::new(), insertion: None, saves_fail: false }
    }

    fn verdicts(&mut self, signed: &SignedControl) -> Verdicts {
        let registration = match self.engine.peers().get(&signed.origin) {
            None => Some(ControlError::UnknownOrigin(signed.origin.clone())),
            Some(row) if row.operator != signed.controller => Some(ControlError::OperatorMismatch),
            Some(_) => None,
        };
        Verdicts {
            signature: signed.signature == seal(signed.nonce, signed.expiry),
            registration,
            well_formed: true,
            insertion: self.insertion.take(),
            parent_ledger: Some(ledger(77)),
        }
    }

    fn receive_at(&mut self, signed: &SignedControl, now: u64) -> ControlReply {
        let verdicts = self.verdicts(signed);
        let mark = (signed.origin.clone(), signed.controller, signed.nonce);
        let replayed = self.seen.contains(&mark);
        if check_request(signed, verdicts.signature, &LIMITS, now).is_none() {
            self.seen.push(mark);
        }
        match self.engine.receive_at(signed, replayed, &LIMITS, now, &verdicts) {
            Progress::Done(reply) => reply,
            Progress::Save { then, .. } => saved(then, !self.saves_fail),
            Progress::AdoptParent { backup } => {
                match self.engine.parent_saved(backup, !self.saves_fail) {
                    Progress::Done(reply) => reply,
                    Progress::Save { then, .. } => saved(then, true),
                    other => panic!("unexpected step {:?}", other),
                }
            },
            Progress::Announce { decision, then, .. } => {
                let nonce = 1_000_000 + self.seen.len() as u64;
                let frame = signed_until(
                    self.engine.node_id(),
                    self.engine.operator_public(),
                    nonce,
                    now + LIMITS.ttl,
                    decision,
                );
                self.engine.announce(Some(frame), then)
            },
        }
    }
}

#[test]
fn lowest_free_slot_skips_taken() {
    let mut children = vec![child("a", 0, 1), child("b", 2, 2)];
    assert_eq!(lowest_free_slot(&children), Some(1));

    for slot in 0..=MAX_SLOT {
        if !children.iter().any(|c| c.slot == slot) {
            children.push(child("x", slot, 9));
        }
    }
    assert_eq!(lowest_free_slot(&children), None);
}

fn applicant_join(i: usize, operator: [u8; 32]) -> JoinRequest {
    JoinRequest {
        node: format!("applicant-{}", i),
        kind: ChildKind::User,
        operator,
        ledger: None,
        desired_slot: None,
        location_hint: None,
        nonce: i as u64,
        expiry: u64::MAX,
    }
}

#[test]
fn join_queue_is_bounded() {
    let mut host = Host::new("parent", key(1), Some("0"), TextMap::new());
    let applicant = key(7);
    for i in 0..MAX_PENDING_JOINS {
        let join = applicant_join(i, applicant);
        let signed =
            authorize_at(&join.node.clone(), applicant, i as u64, ControlRequest::Join(join));
        assert!(same(&host.receive_at(&signed, 0), &ControlReply::Pending), "applicant {}", i);
    }
    assert_eq!(host.engine.pending().pending().len(), MAX_PENDING_JOINS);

    let overflow = applicant_join(MAX_PENDING_JOINS, applicant);
    let signed = authorize_at(
        &overflow.node.clone(),
        applicant,
        MAX_PENDING_JOINS as u64,
        ControlRequest::Join(overflow),
    );
    assert!(same(&host.receive_at(&signed, 0), &rejected(RejectCode::Capacity)));
    assert_eq!(host.engine.pending().pending().len(), MAX_PENDING_JOINS);

    let requeue = applicant_join(0, applicant);
    let signed =
        authorize_at(&requeue.node.clone(), applicant, 9_999, ControlRequest::Join(requeue));
    assert!(same(&host.receive_at(&signed, 0), &ControlReply::Pending));
    assert_eq!(host.engine.pending().pending().len(), MAX_PENDING_JOINS);
}

fn my_request() -> JoinRequest {
    JoinRequest {
        node: id("me"),
        kind: ChildKind::User,
        operator: key(1),
        ledger: None,
        desired_slot: None,
        location_hint: None,
        nonce: 7,
        expiry: u64::MAX,
    }
}

/// A fresh applicant ("me") with no parent and no address, and its join.
fn outbound_applicant(
    pinned: Option<[u8; 32]>,
    peers: TextMap<PeerKeys>,
) -> (Host, JoinRequest) {
    let mut host = Host::new("me", key(1), None, peers);
    host.engine.begin_outbound_join(my_request(), id("parent"), pinned);
    (host, my_request())
}

fn approval_for(request: &JoinRequest) -> JoinApproval {
    JoinApproval {
        child: request.node.clone(),
        child_operator: request.operator,
        child_ledger: request.ledger,
        kind: request.kind,
        slot: 2,
        address: addr("0.2"),
        date_joined: 10,
        nonce: request.nonce,
        parent_ledger: ledger(77),
    }
}

fn approved(request: &JoinRequest) -> ControlRequest {
    ControlRequest::JoinApproved(approval_for(request))
}

fn refusal(request: &JoinRequest, reason: &str) -> ControlRequest {
    ControlRequest::JoinRejected(JoinRejection {
        child: id("me"),
        reason: id(reason),
        nonce: request.nonce,
    })
}

#[test]
fn begin_outbound_join_stores_pinned_operator() {
    let (host, _) = outbound_applicant(Some(key(9)), TextMap::new());
    let outbound = host.engine.pending().outbound().expect("outbound present");
    assert_eq!(outbound.parent, "parent");
    assert_eq!(outbound.pinned_operator, Some(key(9)));

    let reloaded = ControlStore::open(vec![], Some(outbound.copied()), None).unwrap();
    assert_eq!(reloaded.outbound().unwrap().pinned_operator, Some(key(9)));
}

#[test]
fn pinned_approval_requires_the_pinned_signer() {
    let (mut host, request) = outbound_applicant(Some(key(9)), TextMap::new());
    let forged = authorize_at("parent", key(10), 1, approved(&request));
    assert!(same(&host.receive_at(&forged, 0), &rejected(RejectCode::Unauthorized)));
    assert!(host.engine.record().parent.is_none(), "no link was installed");
    assert!(host.engine.pending().outbound().is_some());

    let good = authorize_at("parent", key(9), 2, approved(&request));
    assert!(same(&host.receive_at(&good, 0), &ControlReply::Accepted));
    assert_eq!(host.engine.record().parent.as_ref().unwrap().parent_id, "parent");
    assert!(host.engine.pending().outbound().is_none());
}

#[test]
fn pinned_rejection_requires_the_pinned_signer() {
    let (mut host, request) = outbound_applicant(Some(key(9)), TextMap::new());
    let forged = authorize_at("parent", key(10), 1, refusal(&request, "cancelled"));
    assert!(same(&host.receive_at(&forged, 0), &rejected(RejectCode::Unauthorized)));
    assert!(host.engine.pending().outbound().is_some());

    let good = authorize_at("parent", key(9), 2, refusal(&request, "cancelled"));
    assert!(same(&host.receive_at(&good, 0), &ControlReply::Accepted));
    assert!(host.engine.pending().outbound().is_none());
}

#[test]
fn rejection_without_outbound_is_accepted_noop() {
    let mut host = Host::new("me", key(1), None, TextMap::new());
    let signed = authorize_at("parent", key(11), 1, refusal(&my_request(), "late"));
    assert!(same(&host.receive_at(&signed, 0), &ControlReply::Accepted));
    assert!(host.engine.pending().outbound().is_none());
}

#[test]
fn unpinned_rejection_accepts_any_self_consistent_signer() {
    let (mut host, request) = outbound_applicant(None, TextMap::new());
    let signed = authorize_at("parent", key(12), 1, refusal(&request, "direct"));
    assert!(same(&host.receive_at(&signed, 0), &ControlReply::Accepted));
    assert!(host.engine.pending().outbound().is_none());
}

fn row(operator: [u8; 32], ledger: [u8; 32]) -> PeerKeys {
    PeerKeys { node_id: id("parent"), operator, ledger: Some(ledger), role: PeerRole::Node }
}

fn registry(row: PeerKeys) -> TextMap<PeerKeys> {
    let mut peers = TextMap::new();
    peers.insert(id("parent"), row);
    peers
}

fn parent_row(host: &Host) -> &PeerKeys {
    host.engine.peers().get(&id("parent")).expect("parent row")
}

#[test]
fn approval_persists_parent_peer_and_is_idempotent() {
    let (mut host, request) = outbound_applicant(None, TextMap::new());
    let signed = authorize_at("parent", key(3), 1, approved(&request));
    assert!(same(&host.receive_at(&signed, 0), &ControlReply::Accepted));
    assert!(parent_row(&host).same(&row(key(3), ledger(77))));

    let before = format!("{:?}", host.engine.peers());
    host.engine.begin_outbound_join(request.copied(), id("parent"), None);
    let signed = authorize_at("parent", key(3), 2, approved(&request));
    assert!(same(&host.receive_at(&signed, 0), &ControlReply::Accepted));
    assert_eq!(format!("{:?}", host.engine.peers()), before);
    assert_eq!(host.engine.peers().keys.len(), 1);
}

#[test]
fn stale_approval_nonce_is_rejected_without_change() {
    let (mut host, request) = outbound_applicant(None, TextMap::new());
    let signed = authorize_at("parent", key(3), 1, approved(&request));
    assert!(same(&host.receive_at(&signed, 0), &ControlReply::Accepted));
    let peers_after_first = format!("{:?}", host.engine.peers());
    let record_after_first = format!("{:?}", host.engine.record());

    let mut new_request = request.copied();
    new_request.nonce += 100;
    host.engine.begin_outbound_join(new_request, id("parent"), None);

    let replay = authorize_at("parent", key(3), 2, approved(&request));
    assert!(same(&host.receive_at(&replay, 0), &rejected(RejectCode::Unauthorized)));
    assert_eq!(format!("{:?}", host.engine.peers()), peers_after_first);
    assert_eq!(format!("{:?}", host.engine.record()), record_after_first);
    assert!(host.engine.pending().outbound().is_some());
}

#[test]
fn approval_different_operator_conflict_is_refused_without_corruption() {
    let (mut host, request) = outbound_applicant(None, registry(row(key(4), ledger(5))));
    let signed = authorize_at("parent", key(3), 1, approved(&request));
    assert!(same(&host.receive_at(&signed, 0), &rejected(RejectCode::Unauthorized)));
    assert!(host.engine.record().parent.is_none());
    assert!(parent_row(&host).same(&row(key(4), ledger(5))));
    assert_eq!(host.engine.peers().keys.len(), 1);
}

#[test]
fn approval_same_operator_new_ledger_updates_parent_row() {
    let (mut host, request) = outbound_applicant(None, registry(row(key(3), ledger(5))));
    let signed = authorize_at("parent", key(3), 1, approved(&request));
    assert!(same(&host.receive_at(&signed, 0), &ControlReply::Accepted));
    assert!(parent_row(&host).same(&row(key(3), ledger(77))));
    assert_eq!(host.engine.peers().keys.len(), 1, "the replacement must not add a second row");
    assert!(host.engine.record().parent.is_some());
}

#[test]
fn a_parent_link_that_cannot_be_saved_is_undone() {
    let (mut host, request) = outbound_applicant(None, registry(row(key(3), ledger(5))));
    host.saves_fail = true;
    let signed = authorize_at("parent", key(3), 1, approved(&request));
    assert!(same(&host.receive_at(&signed, 0), &rejected(RejectCode::Internal)));
    assert!(host.engine.record().parent.is_none());
    assert!(parent_row(&host).same(&row(key(3), ledger(5))));
    assert!(host.engine.pending().outbound().is_some());
}

fn admin_engine() -> Host {
    Host::new("parent", key(1), Some("0"), TextMap::new())
}

fn queue_join(host: &mut Host, i: usize) -> JoinRequest {
    let join = applicant_join(i, key(7));
    let signed = authorize_at(
        &join.node.clone(),
        key(7),
        i as u64 + 1,
        ControlRequest::Join(join.copied()),
    );
    assert!(same(&host.receive_at(&signed, 0), &ControlReply::Pending));
    join
}

fn approve(child: &str, slot: Option<u8>) -> ControlRequest {
    ControlRequest::AdminApproveJoin { child: id(child), slot }
}

#[test]
fn admin_approve_queues_signed_approval() {
    let mut host = admin_engine();
    let join = queue_join(&mut host, 0);
    let reply =
        host.receive_at(&authorize_at("parent", key(1), 100, approve(&join.node, Some(2))), 0);
    let ControlReply::AdminApproved { child, slot, address, delivery } = reply else {
        panic!("expected AdminApproved, got {:?}", reply);
    };
    assert_eq!(child, join.node);
    assert_eq!(slot, 2);
    assert_eq!(address.text(), "0.2");
    assert_eq!(delivery, DeliveryStatus::Unreachable);

    assert!(host.engine.record().children.iter().any(|c| c.child_id == join.node));
    let outbound = host.engine.take_outbound();
    assert_eq!(outbound.len(), 1);
    assert_eq!(outbound[0].kind, OutboundKind::Approved);
    assert_eq!(outbound[0].kind.label(), "join-approved");
    assert_eq!(outbound[0].target, join.node);
    assert_eq!(outbound[0].signed.controller, key(1));
    let ControlRequest::JoinApproved(approval) = &outbound[0].signed.request else {
        panic!("expected a JoinApproved frame");
    };
    assert_eq!(approval.child, join.node);
    assert_eq!(approval.slot, 2);
    assert!(host.engine.take_outbound().is_empty());
}

#[test]
fn admin_reject_queues_signed_rejection() {
    let mut host = admin_engine();
    let join = queue_join(&mut host, 0);
    let reject = ControlRequest::AdminRejectJoin {
        child: join.node.clone(),
        reason: Some(id("nope")),
    };
    let reply = host.receive_at(&authorize_at("parent", key(1), 101, reject), 0);
    let ControlReply::AdminRejected { child, delivery } = reply else {
        panic!("expected AdminRejected, got {:?}", reply);
    };
    assert_eq!(child, join.node);
    assert_eq!(delivery, DeliveryStatus::Unreachable);

    assert!(host.engine.pending().pending().is_empty());
    let outbound = host.engine.take_outbound();
    assert_eq!(outbound.len(), 1);
    assert_eq!(outbound[0].kind, OutboundKind::Rejected);
    assert_eq!(outbound[0].kind.label(), "join-rejected");
    let ControlRequest::JoinRejected(rejection) = &outbound[0].signed.request else {
        panic!("expected a JoinRejected frame");
    };
    assert_eq!(rejection.child, join.node);
    assert_eq!(rejection.reason, "nope");
    assert_eq!(rejection.nonce, join.nonce);
}

#[test]
fn admin_redeliver_requeues_and_unknown_is_not_found() {
    let mut host = admin_engine();
    let join = queue_join(&mut host, 0);
    let reply =
        host.receive_at(&authorize_at("parent", key(1), 200, approve(&join.node, Some(1))), 0);
    assert!(matches!(reply, ControlReply::AdminApproved { .. }));
    let first = host.engine.take_outbound();
    assert_eq!(first.len(), 1);

    let again = ControlRequest::AdminRedeliverJoin { child: join.node.clone() };
    let reply = host.receive_at(&authorize_at("parent", key(1), 201, again), 0);
    assert!(matches!(reply, ControlReply::AdminApproved { .. }));
    let second = host.engine.take_outbound();
    assert_eq!(second.len(), 1);
    assert_eq!(
        format!("{:?}", second[0].signed),
        format!("{:?}", first[0].signed),
        "the frame is reused"
    );

    let ghost = ControlRequest::AdminRedeliverJoin { child: id("ghost") };
    let reply = host.receive_at(&authorize_at("parent", key(1), 202, ghost), 0);
    assert!(same(&reply, &rejected(RejectCode::NotFound)));
    assert!(host.engine.take_outbound().is_empty());
}

#[test]
fn admin_approve_unknown_child_is_not_found() {
    let mut host = admin_engine();
    let reply = host.receive_at(&authorize_at("parent", key(1), 300, approve("ghost", None)), 0);
    assert!(same(&reply, &rejected(RejectCode::NotFound)));
}

fn grant_for(admin: [u8; 32]) -> SignedAdminGrant {
    SignedAdminGrant {
        grant: AdminGrant {
            version: LIMITS.grant_version,
            node: id("parent"),
            admin,
            scope: AdminScope::Admin,
            granted_at: 10,
            expiry: 10 + 2_592_000,
            label: None,
        },
        fault: None,
        valid_under: vec![key(1)],
    }
}

#[test]
fn delegated_admin_is_scoped_and_cannot_use_topology_surface() {
    let mut host = admin_engine();
    host.engine.grant_admin(grant_for(key(5)), &LIMITS, id("bad")).unwrap();

    let query = authorize_at("parent", key(5), 400, ControlRequest::AdminQuery);
    assert!(matches!(host.receive_at(&query, 0), ControlReply::AdminSnapshot { .. }));

    let topology = authorize_at("parent", key(5), 401, ControlRequest::Query);
    assert!(same(&host.receive_at(&topology, 0), &rejected(RejectCode::Unauthorized)));

    assert!(host.engine.revoke_admin(&key(5)));
    let after = authorize_at("parent", key(5), 402, ControlRequest::AdminQuery);
    assert!(same(&host.receive_at(&after, 0), &rejected(RejectCode::Unauthorized)));
}

#[test]
fn peer_cannot_use_admin_surface() {
    let mut host = admin_engine();
    let query = authorize_at("peer", key(6), 500, ControlRequest::AdminQuery);
    assert!(same(&host.receive_at(&query, 0), &rejected(RejectCode::Unauthorized)));
}

#[test]
fn replay_guard_rejects_duplicate_admin_frame() {
    let mut host = admin_engine();
    let query = authorize_at("parent", key(1), 600, ControlRequest::AdminQuery);
    assert!(matches!(host.receive_at(&query, 0), ControlReply::AdminSnapshot { .. }));
    assert!(same(&host.receive_at(&query, 0), &rejected(RejectCode::Replay)));
}

#[test]
fn expiry_window_is_enforced() {
    let mut host = admin_engine();
    let expired = signed_until("parent", key(1), 1, 0, ControlRequest::AdminQuery);
    assert!(same(&host.receive_at(&expired, 1), &rejected(RejectCode::Expired)));

    let too_long = signed_until("parent", key(1), 2, MAX_TTL + 1, ControlRequest::AdminQuery);
    assert!(same(&host.receive_at(&too_long, 0), &rejected(RejectCode::BadRequest)));
}

#[test]
fn tampered_expiry_is_rejected_as_unauthorized() {
    let mut host = admin_engine();
    let mut query = authorize_at("parent", key(1), 700, ControlRequest::AdminQuery);
    query.expiry += 1;
    assert!(same(&host.receive_at(&query, 0), &rejected(RejectCode::Unauthorized)));
}

#[test]
fn another_format_version_is_refused_first() {
    let mut host = admin_engine();
    let mut query = authorize_at("parent", key(1), 800, ControlRequest::AdminQuery);
    query.version = 1;
    query.expiry += 1;
    assert!(same(&host.receive_at(&query, 0), &rejected(RejectCode::BadVersion)));
}

#[test]
fn the_checks_come_before_the_replay_guard_and_every_rule() {
    let mut host = admin_engine();
    let genuine = authorize_at("parent", key(1), 900, ControlRequest::AdminQuery);
    let verdicts = host.verdicts(&genuine);
    let before = format!("{:?}", host.engine);

    let mut version = genuine.copied();
    version.version += 1;
    let mut refused = |signed: &SignedControl, signature: bool, now: u64, code: RejectCode| {
        for replayed in [false, true] {
            let verdicts = Verdicts { signature, ..host.verdicts(signed) };
            let step = host.engine.receive_at(signed, replayed, &LIMITS, now, &verdicts);
            let Progress::Done(reply) = step else {
                panic!("unexpected step {:?}", step);
            };
            assert!(same(&reply, &rejected(code)), "{:?} instead of {:?}", reply, code);
            assert_eq!(format!("{:?}", host.engine), before);
        }
    };
    refused(&version, false, MAX_TTL + 1, RejectCode::BadVersion);
    refused(&genuine, false, MAX_TTL + 1, RejectCode::Unauthorized);
    refused(&genuine, true, MAX_TTL + 1, RejectCode::Expired);
    let long = signed_until("parent", key(1), 901, MAX_TTL + 1, ControlRequest::AdminQuery);
    refused(&long, true, 0, RejectCode::BadRequest);

    let step = host.engine.receive_at(&genuine, true, &LIMITS, 0, &verdicts);
    assert!(matches!(step, Progress::Done(ControlReply::Rejected(RejectCode::Replay))));
    let step = host.engine.receive_at(&genuine, false, &LIMITS, 0, &verdicts);
    assert!(matches!(step, Progress::Done(ControlReply::AdminSnapshot { .. })));
}

#[test]
fn a_frame_that_fails_its_check_does_not_use_up_its_nonce() {
    let mut host = admin_engine();
    let genuine = authorize_at("parent", key(1), 910, ControlRequest::AdminQuery);
    let mut tampered = genuine.copied();
    tampered.expiry -= 1;
    assert!(same(&host.receive_at(&tampered, 0), &rejected(RejectCode::Unauthorized)));
    assert!(matches!(host.receive_at(&genuine, 0), ControlReply::AdminSnapshot { .. }));
    assert!(same(&host.receive_at(&genuine, 0), &rejected(RejectCode::Replay)));
}

fn create(child: &str, seed: u8, slot: Option<u8>, date_joined: u64) -> ControlRequest {
    ControlRequest::CreateChild(CreateChild {
        child: id(child),
        kind: ChildKind::Node,
        operator: key(seed),
        ledger: Some(ledger(seed)),
        slot,
        date_joined,
    })
}

#[test]
fn the_operator_manages_children_and_address() {
    let mut host = admin_engine();
    let mut nonce = 0;
    let mut ask = |host: &mut Host, request: ControlRequest| {
        nonce += 1;
        host.receive_at(&authorize_at("parent", key(1), nonce, request), 0)
    };
    assert!(same(&ask(&mut host, create("a", 21, None, 5)), &ControlReply::Accepted));
    assert!(same(&ask(&mut host, create("b", 22, Some(3), 6)), &ControlReply::Accepted));
    assert!(same(&ask(&mut host, create("c", 23, Some(3), 7)), &rejected(RejectCode::SlotTaken)));
    assert!(same(
        &ask(&mut host, create("c", 23, Some(8), 7)),
        &rejected(RejectCode::SlotOutOfRange)
    ));
    assert_eq!(host.engine.record().children.len(), 2);
    assert_eq!(host.engine.peers().get(&id("a")).unwrap().ledger, Some(ledger(21)));

    let moved = ControlRequest::MoveChild(MoveChild {
        child: id("a"),
        new_parent: id("parent"),
        slot: Some(5),
    });
    assert!(same(&ask(&mut host, moved), &ControlReply::Accepted));
    let ControlReply::Snapshot(snapshot) = ask(&mut host, ControlRequest::Query) else {
        panic!("expected a snapshot");
    };
    let a = snapshot.children.iter().find(|c| c.child_id == "a").unwrap();
    assert_eq!(a.slot, 5);
    assert_eq!(a.address.as_ref().unwrap().text(), "0.5");

    assert!(same(
        &ask(&mut host, ControlRequest::DetachChild(id("a"))),
        &ControlReply::Accepted
    ));
    assert!(same(
        &ask(&mut host, ControlRequest::DetachChild(id("a"))),
        &rejected(RejectCode::NotFound)
    ));
    assert!(same(
        &ask(&mut host, ControlRequest::SetAddress(Some(addr("0.1")))),
        &rejected(RejectCode::NotAttached)
    ));
    assert_eq!(host.engine.record().address.as_ref().unwrap().text(), "0");
    assert!(same(&ask(&mut host, ControlRequest::SetAddress(None)), &ControlReply::Accepted));
    assert!(host.engine.record().address.is_none());
    assert!(same(
        &ask(&mut host, ControlRequest::SetAddress(Some(addr("0")))),
        &ControlReply::Accepted
    ));
    assert_eq!(host.engine.record().address.as_ref().unwrap().text(), "0");
}

#[test]
fn the_senior_child_may_change_the_links_and_the_junior_may_not() {
    let mut host = admin_engine();
    let old = authorize_at("parent", key(1), 1, create("old", 21, Some(4), 5));
    let young = authorize_at("parent", key(1), 2, create("young", 22, Some(1), 9));
    assert!(same(&host.receive_at(&old, 0), &ControlReply::Accepted));
    assert!(same(&host.receive_at(&young, 0), &ControlReply::Accepted));

    assert!(is_senior_child(&host.engine.record().children, &id("old")));
    assert!(!is_senior_child(&host.engine.record().children, &id("young")));

    let by_old = authorize_at("old", key(21), 3, ControlRequest::SetAddress(None));
    let verdicts = host.verdicts(&by_old);
    assert_eq!(host.engine.authorize(&by_old, &verdicts), Ok(Authority::Peer));
    assert!(same(&host.receive_at(&by_old, 0), &ControlReply::Accepted));
    assert!(host.engine.record().address.is_none());

    let by_young = authorize_at("young", key(22), 4, ControlRequest::SetAddress(Some(addr("0"))));
    assert!(same(&host.receive_at(&by_young, 0), &rejected(RejectCode::Unauthorized)));
    assert!(host.engine.record().address.is_none());
}

#[test]
fn users_are_never_senior_and_ids_break_ties() {
    let mut user = child("a", 0, 1);
    user.kind = ChildKind::User;
    let children = vec![user, child("c", 1, 4), child("b", 2, 4)];
    assert!(!is_senior_child(&children, &id("a")));
    assert!(is_senior_child(&children, &id("b")));
    assert!(!is_senior_child(&children, &id("c")));
}

#[test]
fn the_registry_can_refuse_a_new_child() {
    let mut host = admin_engine();
    host.insertion = Some(PeerInsertError::DuplicateKey(id("duplicate key")));
    let signed = authorize_at("parent", key(1), 1, create("a", 21, None, 5));
    assert!(same(&host.receive_at(&signed, 0), &rejected(RejectCode::BadRequest)));
    assert!(host.engine.record().children.is_empty());
    assert!(host.engine.peers().get(&id("a")).is_none());
}

#[test]
fn a_failed_save_is_answered_as_internal() {
    let mut host = admin_engine();
    host.saves_fail = true;
    let signed = authorize_at("parent", key(1), 1, create("a", 21, None, 5));
    assert!(same(&host.receive_at(&signed, 0), &rejected(RejectCode::Internal)));
}

#[test]
fn grants_are_checked_before_they_are_kept() {
    let mut host = admin_engine();
    let mut other_version = grant_for(key(5));
    other_version.grant.version = 9;
    assert_eq!(
        host.engine.grant_admin(other_version, &LIMITS, id("bad")),
        Err(ControlError::UnsupportedVersion(9))
    );
    let mut other_node = grant_for(key(5));
    other_node.grant.node = id("elsewhere");
    assert_eq!(
        host.engine.grant_admin(other_node, &LIMITS, id("bad")),
        Err(ControlError::Codec(id(
            "admin grant is scoped to node 'elsewhere', expected 'parent'"
        )))
    );
    let mut forged = grant_for(key(5));
    forged.valid_under = vec![key(8)];
    assert_eq!(
        host.engine.grant_admin(forged, &LIMITS, id("bad")),
        Err(ControlError::Codec(id("bad")))
    );
    assert!(host.engine.admins().is_empty());
    assert!(!host.engine.revoke_admin(&key(5)));
}

#[test]
fn reloading_the_grants_fails_closed() {
    let mut host = admin_engine();
    host.engine.grant_admin(grant_for(key(5)), &LIMITS, id("bad")).unwrap();
    host.engine.refresh_admins(Err(AdminStoreError::DuplicateAdmin));
    let query = authorize_at("parent", key(5), 1, ControlRequest::AdminQuery);
    assert!(same(&host.receive_at(&query, 0), &rejected(RejectCode::Unauthorized)));
}

#[test]
fn approving_by_hand_gives_the_lowest_free_slot() {
    let mut host = admin_engine();
    let join = queue_join(&mut host, 4);
    assert_eq!(host.engine.precheck_approve(&join.node, None), Ok(()));
    assert_eq!(host.engine.precheck_approve(&join.node, Some(8)), Err(RejectCode::SlotOutOfRange));
    assert_eq!(
        host.engine.approve_pending(&join.node, Some(9), 50, ledger(2), &None).unwrap_err(),
        ControlError::SlotOutOfRange(9)
    );
    let approval = host.engine.approve_pending(&join.node, None, 50, ledger(2), &None).unwrap();
    assert_eq!(approval.slot, 0);
    assert_eq!(approval.address.text(), "0.0");
    assert_eq!(approval.date_joined, 50);
    assert_eq!(approval.nonce, 4);
    assert_eq!(approval.parent_ledger, ledger(2));
    assert_eq!(
        host.engine.approve_pending(&join.node, None, 50, ledger(2), &None).unwrap_err(),
        ControlError::Codec(id("no pending join for 'applicant-4'"))
    );
    assert_eq!(host.engine.precheck_approve(&join.node, None), Err(RejectCode::NotFound));

    let other = queue_join(&mut host, 5);
    assert_eq!(
        host.engine.approve_pending(&other.node, Some(0), 50, ledger(2), &None).unwrap_err(),
        ControlError::Codec(id("slot 0 is already taken"))
    );
    assert_eq!(host.engine.precheck_approve(&other.node, Some(0)), Err(RejectCode::SlotTaken));
    assert_eq!(host.engine.reject_pending(&other.node).unwrap().node, "applicant-5");
    assert!(host.engine.reject_pending(&other.node).is_none());
}

#[test]
fn decisions_are_kept_up_to_a_bound() {
    let mut host = admin_engine();
    for i in 0..=MAX_STORED_DECISIONS as u64 {
        let decision = ControlRequest::JoinRejected(JoinRejection {
            child: format!("child-{}", i),
            reason: id("full"),
            nonce: i,
        });
        let frame = signed_until("parent", key(1), i, 300, decision);
        host.engine.announce(Some(frame), ControlReply::Accepted);
    }
    let redeliver = |child: &str| ControlRequest::AdminRedeliverJoin { child: id(child) };
    let gone = authorize_at("parent", key(1), 1_000, redeliver("child-0"));
    assert!(same(&host.receive_at(&gone, 0), &rejected(RejectCode::NotFound)));
    let kept = authorize_at("parent", key(1), 1_001, redeliver("child-1"));
    assert!(matches!(host.receive_at(&kept, 0), ControlReply::AdminRejected { .. }));

    assert!(same(
        &host.engine.announce(None, ControlReply::Accepted),
        &rejected(RejectCode::Internal)
    ));
}

#[test]
fn errors_map_to_reject_codes() {
    assert_eq!(map_control_error(&ControlError::UnsupportedVersion(3)), RejectCode::BadVersion);
    assert_eq!(map_control_error(&ControlError::OperatorMismatch), RejectCode::Unauthorized);
    assert_eq!(map_control_error(&ControlError::FieldTooLong), RejectCode::BadRequest);
    assert_eq!(map_control_error(&ControlError::Codec(id("x"))), RejectCode::Internal);
    assert_eq!(
        map_ledger_error(&PeerInsertError::DuplicatePeer(id("x"))),
        RejectCode::BadRequest
    );
    assert_eq!(map_ledger_error(&PeerInsertError::Other(id("x"))), RejectCode::Internal);
    assert_eq!(map_record_error(&RecordError::CapExceeded), RejectCode::Capacity);
    assert_eq!(
        map_approve_error(&ControlError::SlotOutOfRange(9)),
        RejectCode::SlotOutOfRange
    );
}

#[test]
fn delivery_reports_what_the_applicant_answered() {
    assert_eq!(delivery_status(&Ok(ControlReply::Accepted)), DeliveryStatus::Delivered);
    assert_eq!(
        delivery_status(&Ok(rejected(RejectCode::Expired))),
        DeliveryStatus::Rejected(RejectCode::Expired)
    );
    let reply = ControlReply::AdminRejected { child: id("c"), delivery: DeliveryStatus::Unreachable };
    let patched = deliver_outbound_decisions(
        reply,
        &vec![DeliveryStatus::TimedOut, DeliveryStatus::Delivered],
    );
    let ControlReply::AdminRejected { delivery, .. } = patched else {
        panic!("expected AdminRejected");
    };
    assert_eq!(delivery, DeliveryStatus::Delivered);
}

#[test]
fn replay_ids_hold_the_nonce() {
    let first = nonce_msg_id(0x0102_0304_0506_0708);
    assert_eq!(&first[..8], &[1, 2, 3, 4, 5, 6, 7, 8]);
    assert_eq!(&first[8..], &[0u8; 8]);
    assert_ne!(first, nonce_msg_id(0x0102_0304_0506_0709));
}

#[test]
fn a_node_without_address_approves_nobody() {
    let mut host = Host::new("parent", key(1), None, TextMap::new());
    let join = queue_join(&mut host, 0);
    assert_eq!(
        host.engine.approve_pending(&join.node, None, 1, ledger(2), &None).unwrap_err(),
        ControlError::Codec(id("this node has no asserted address"))
    );
    let record: &NodeRecord = host.engine.record();
    assert!(record.children.is_empty());
}
