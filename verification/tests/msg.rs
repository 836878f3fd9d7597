use cawala_node::addr::OctAddr;
use cawala_node::claim_bundle::{probe_result, probe_target, ParentReachability};
use cawala_node::endpoint::parse_endpoint_id;
use cawala_node::msg::{
    acknowledge, after_append, after_dial, after_observe, after_offer, after_route, after_sign,
    build_envelope, check_arrival, control_forward_signed, dispatch_control_envelope,
    envelope_with, fresh_nonce, nonce_or_clock, prepare_control_forward, send_envelope, AckStatus,
    ControlDispatch, ControlForward, HandleStep, Limits, MsgConfig, MsgError, MsgSendError,
    RejectReason, RoutedControl, RouteDecision, SendStep, SinkOutcome,
};
use cawala_node::record::{ChildEntry, ChildKind, NodeRecord, ParentLink};
use cawala_node::routing::{
    EndpointAddr, NeighborSource, RoutableSnapshot, RoutingSetupError, Transport,
};
use cawala_node::wire::{Envelope, PeerRef, MSG_LEDGER_V1};
use iroh::{EndpointId, SecretKey};
use std::str::FromStr;

const LIMITS: Limits = Limits { max_hops: 32, max_payload: 65_536, max_control_frame: 16_384 };

fn id(text: &str) -> String {
    text.to_string()
}

fn addr(text: &str) -> OctAddr {
    OctAddr::parse(text).unwrap()
}

fn peer(address: &str, node: &str) -> PeerRef {
    PeerRef { addr: addr(address), node: id(node) }
}

fn record(
    node_id: &str,
    address: &str,
    parent: Option<(&str, u8)>,
    children: Vec<(&str, u8, ChildKind)>,
) -> NodeRecord {
    let mut record = NodeRecord::new(id(node_id));
    record.address = Some(addr(address));
    record.parent = parent.map(|(parent_id, slot)| ParentLink {
        parent_id: id(parent_id),
        slot,
        generation: 0,
    });
    for (child, slot, kind) in children {
        record.children.push(ChildEntry { child_id: id(child), kind, slot, date_joined: 0 });
    }
    record
}

fn public(key: &SecretKey) -> String {
    key.public().to_string()
}

#[test]
fn routable_from_record_derives_parent_and_child_addresses() {
    let me = SecretKey::generate();
    let parent = SecretKey::generate();
    let child = SecretKey::generate();
    let user = SecretKey::generate();
    let rec = record(
        &public(&me),
        "0.1.2",
        Some((&public(&parent), 2)),
        vec![(&public(&child), 3, ChildKind::Node), (&public(&user), 5, ChildKind::User)],
    );

    let snap = RoutableSnapshot::from_record(&rec).unwrap();
    assert_eq!(snap.routable.this.addr.text(), "0.1.2");
    assert_eq!(snap.routable.this.node, public(&me));

    let p = snap.routable.parent.as_ref().expect("parent present");
    assert_eq!(p.addr.text(), "0.1");
    assert_eq!(p.node, public(&parent));
    assert_eq!(p.kind, ChildKind::Node);

    assert_eq!(snap.routable.children.len(), 2);
    let n3 = &snap.routable.children[0];
    assert_eq!(n3.addr.text(), "0.1.2.3");
    assert_eq!(n3.node, public(&child));
    assert_eq!(n3.kind, ChildKind::Node);
    let n5 = &snap.routable.children[1];
    assert_eq!(n5.addr.text(), "0.1.2.5");
    assert_eq!(n5.node, public(&user));
    assert_eq!(n5.kind, ChildKind::User);

    assert!(snap.hints.get(&public(&parent)).is_none());
}

#[test]
fn routable_from_record_requires_address() {
    let rec = NodeRecord::new(id("node-a"));
    let err = RoutableSnapshot::from_record(&rec).unwrap_err();
    assert_eq!(err, RoutingSetupError::NoAddress);
    assert_eq!(
        err.text(),
        "node record has no address; run `cawala-node topo set-address <ADDR>`"
    );
}

#[test]
fn routable_from_record_rejects_bad_endpoint_id() {
    let parent = record("node-a", "0.1", Some(("not-an-endpoint-id", 1)), vec![]);
    match RoutableSnapshot::from_record(&parent) {
        Err(RoutingSetupError::BadEndpointId { node_id, .. }) => {
            assert_eq!(node_id, "not-an-endpoint-id");
        },
        other => panic!("expected BadEndpointId, got {:?}", other),
    }

    let child =
        record("node-a", "0.1", None, vec![("also-not-an-endpoint-id", 0, ChildKind::Node)]);
    match RoutableSnapshot::from_record(&child) {
        Err(RoutingSetupError::BadEndpointId { node_id, .. }) => {
            assert_eq!(node_id, "also-not-an-endpoint-id");
        },
        other => panic!("expected BadEndpointId, got {:?}", other),
    }
}

#[test]
fn build_envelope_starts_chain_at_origin_and_uses_configured_ttl() {
    let src = peer("0.1.2", "origin-node");
    let env = build_envelope(&src, addr("0.4.5"), MSG_LEDGER_V1, b"hello".to_vec(), 7, &LIMITS)
        .unwrap();
    assert_eq!(env.src.node, src.node);
    assert_eq!(env.src.addr.text(), "0.1.2");
    assert_eq!(env.dst.text(), "0.4.5");
    assert_eq!(env.msg_type, MSG_LEDGER_V1);
    assert_eq!(env.payload, b"hello");
    assert_eq!(env.ttl, 7);
    assert_eq!(env.hop_chain.len(), 1);
    assert_eq!(env.hop_chain[0].addr.text(), "0.1.2");
    assert_eq!(env.hop_chain[0].node, src.node);
    assert_ne!(env.nonce, 0);

    let err = build_envelope(
        &src,
        addr("0.4.5"),
        MSG_LEDGER_V1,
        vec![0u8; LIMITS.max_payload + 1],
        7,
        &LIMITS,
    )
    .unwrap_err();
    assert!(matches!(err, MsgError::PayloadTooLarge { actual: 65_537, max: 65_536 }));
}

#[test]
fn build_envelope_rejects_ttl_too_large() {
    let src = peer("0.1.2", "origin-node");
    let too_large = LIMITS.max_hops + 1;
    let err =
        build_envelope(&src, addr("0.4.5"), MSG_LEDGER_V1, Vec::new(), too_large, &LIMITS)
            .unwrap_err();
    assert_eq!(err, MsgError::BadTtl { ttl: too_large });
}

#[test]
fn routable_from_record_rejects_root_address_with_parent() {
    let me = SecretKey::generate();
    let parent = SecretKey::generate();
    let rec = record(&public(&me), "0", Some((&public(&parent), 1)), vec![]);
    assert!(matches!(
        RoutableSnapshot::from_record(&rec),
        Err(RoutingSetupError::InvalidRecord(_))
    ));
}

/// RFC 4648 base32 without padding.
fn base32_nopad(bytes: &[u8]) -> String {
    let alphabet: &[u8; 32] = b"ABCDEFGHIJKLMNOPQRSTUVWXYZ234567";
    let mut out = String::new();
    let mut buffer: u32 = 0;
    let mut bits: u32 = 0;
    for &byte in bytes {
        buffer = (buffer << 8) | u32::from(byte);
        bits += 8;
        while bits >= 5 {
            bits -= 5;
            out.push(alphabet[((buffer >> bits) & 0x1f) as usize] as char);
        }
        buffer &= (1u32 << bits) - 1;
    }
    if bits > 0 {
        out.push(alphabet[((buffer << (5 - bits)) & 0x1f) as usize] as char);
    }
    out
}

#[test]
fn base32_neighbor_id_still_matches() {
    let me = SecretKey::generate();
    let parent = SecretKey::generate();
    let canonical = public(&parent);
    let non_canonical = base32_nopad(parent.public().as_bytes());
    assert_ne!(non_canonical, canonical);
    assert_eq!(EndpointId::from_str(&non_canonical).unwrap(), parent.public());

    let rec = record(&public(&me), "0.1", Some((&non_canonical, 1)), vec![]);
    let mut snap = RoutableSnapshot::from_record(&rec).unwrap();
    assert_eq!(snap.routable.parent.as_ref().expect("parent present").node, canonical);

    assert!(snap.is_neighbor(&canonical, &addr("0")));
    assert!(snap.is_neighbor(&non_canonical, &addr("0")));
    assert!(!snap.is_neighbor(&non_canonical, &addr("0.2")));

    let hinted = public(&SecretKey::generate());
    let hint = EndpointAddr { node: hinted.clone(), transports: vec![] };
    snap.set_hint(&non_canonical, hint).unwrap();
    assert_eq!(snap.endpoint_addr(&canonical).unwrap().node, hinted);
    assert_eq!(snap.endpoint_addr(&non_canonical).unwrap().node, hinted);
}

#[test]
fn endpoint_ids_are_read_into_their_canonical_text() {
    let key = SecretKey::from_bytes(&[7u8; 32]);
    let base32 = base32_nopad(key.public().as_bytes());
    assert_eq!(parse_endpoint_id(&base32).unwrap(), public(&key));
    assert_eq!(parse_endpoint_id(&public(&key)).unwrap(), public(&key));
    let bad = parse_endpoint_id(&id("xyz")).unwrap_err();
    assert_eq!(bad.node_id, "xyz");
    assert!(!bad.detail.is_empty());
}

#[test]
fn the_parent_is_probed_under_its_canonical_id() {
    let key = SecretKey::from_bytes(&[7u8; 32]);
    let mut rec = NodeRecord::new(id("self"));
    assert_eq!(probe_target(&rec, true), Ok(None));
    let base32 = base32_nopad(key.public().as_bytes());
    rec.parent = Some(ParentLink { parent_id: base32, slot: 0, generation: 0 });
    assert_eq!(probe_target(&rec, false), Ok(None));
    assert_eq!(probe_target(&rec, true), Ok(Some(public(&key))));
    rec.parent = Some(ParentLink { parent_id: id("nonsense"), slot: 0, generation: 0 });
    let err = probe_target(&rec, true).unwrap_err();
    assert!(err.starts_with("recorded parent 'nonsense' is not an endpoint id: "));

    assert_eq!(probe_result(None), ParentReachability::NoParent);
    assert_eq!(probe_result(Some(Ok(()))), ParentReachability::Reachable);
    assert_eq!(
        probe_result(Some(Err(id("timeout")))),
        ParentReachability::Unreachable(id("timeout"))
    );
}

#[test]
fn a_live_source_follows_the_stored_record_and_a_static_one_does_not() {
    let me = public(&SecretKey::generate());
    let user = public(&SecretKey::generate());
    let before = record(&me, "0", None, vec![]);
    let after = record(&me, "0", None, vec![(&user, 3, ChildKind::User)]);

    let mut live = NeighborSource::Live(RoutableSnapshot::from_record(&before).unwrap());
    let mut fixed = NeighborSource::Static(RoutableSnapshot::from_record(&before).unwrap());
    assert!(!live.is_neighbor(&user, &addr("0.3")));
    live.refresh(Some(&after));
    fixed.refresh(Some(&after));
    assert!(live.is_neighbor(&user, &addr("0.3")));
    assert!(!fixed.is_neighbor(&user, &addr("0.3")));

    live.refresh(None);
    assert!(live.is_neighbor(&user, &addr("0.3")), "a failed read keeps what was known");
    live.refresh(Some(&NodeRecord::new(me)));
    assert!(live.is_neighbor(&user, &addr("0.3")), "a bad record keeps what was known");
    assert_eq!(live.endpoint_addr(&user).unwrap().node, user);
}

#[test]
fn random_ids_and_nonces_differ() {
    let src = peer("0", "origin");
    let first = build_envelope(&src, addr("0.1"), 1, vec![], 1, &LIMITS).unwrap();
    let second = build_envelope(&src, addr("0.1"), 1, vec![], 1, &LIMITS).unwrap();
    assert_ne!(first.msg_id, second.msg_id);
    assert_ne!(first.nonce, second.nonce);
    assert_ne!(fresh_nonce(5), 5);
    assert_eq!(nonce_or_clock(Ok(9), 5), 9);
    assert_eq!(nonce_or_clock(Err(id("no entropy")), 5), 5);

    let failed = envelope_with(
        &src,
        addr("0.1"),
        1,
        vec![],
        1,
        &LIMITS,
        Err(id("no entropy")),
        Ok(1),
    );
    assert_eq!(failed.unwrap_err(), MsgError::Codec(id("getrandom: no entropy")));
    let failed = envelope_with(
        &src,
        addr("0.1"),
        1,
        vec![],
        1,
        &LIMITS,
        Ok(first.msg_id),
        Err(id("unsupported")),
    );
    assert_eq!(failed.unwrap_err(), MsgError::Codec(id("getrandom: unsupported")));
    let config = MsgConfig::for_limits(&LIMITS);
    assert_eq!((config.ttl, config.max_payload, config.hop_timeout_secs), (32, 65_536, 10));
}

fn envelope(chain: Vec<PeerRef>) -> Envelope {
    let mut env = build_envelope(
        &peer("0.1", "origin"),
        addr("0.2"),
        MSG_LEDGER_V1,
        vec![1],
        5,
        &LIMITS,
    )
    .unwrap();
    env.hop_chain = chain;
    env
}

#[test]
fn arriving_envelopes_come_from_their_last_hop() {
    let me = public(&SecretKey::generate());
    let near = public(&SecretKey::generate());
    let far = public(&SecretKey::generate());
    let rec = record(&me, "0", None, vec![(&near, 1, ChildKind::Node)]);
    let snap = RoutableSnapshot::from_record(&rec).unwrap();

    let env = envelope(vec![peer("0.1", &near)]);
    assert_eq!(check_arrival(&env, &None, true, &snap, &near), Ok(()));
    assert_eq!(
        check_arrival(&env, &None, true, &snap, &far),
        Err(RejectReason::NotNeighbor)
    );
    assert_eq!(
        check_arrival(&env, &None, false, &snap, &near),
        Err(RejectReason::BadHopChain)
    );
    assert_eq!(
        check_arrival(&env, &Some(MsgError::UnsupportedVersion), true, &snap, &near),
        Err(RejectReason::BadVersion)
    );
    let looping = envelope(vec![peer("0", &me), peer("0.1", &near)]);
    assert_eq!(
        check_arrival(&looping, &None, true, &snap, &near),
        Err(RejectReason::BadHopChain)
    );
    let empty = envelope(vec![]);
    assert_eq!(
        check_arrival(&empty, &None, true, &snap, &near),
        Err(RejectReason::BadHopChain)
    );
}

fn answer(step: HandleStep) -> (AckStatus, bool) {
    match step {
        HandleStep::Answer { status, forget } => (status, forget),
        other => panic!("expected an answer, got {:?}", other),
    }
}

#[test]
fn handling_goes_step_by_step() {
    assert_eq!(answer(after_observe(true)), (AckStatus::Duplicate, false));
    assert!(matches!(after_observe(false), HandleStep::Route));

    let to = || RouteDecision::Forward(id("next"));
    assert!(matches!(after_route(RouteDecision::Local, 0, 9, true, &LIMITS), HandleStep::Offer));
    assert_eq!(
        answer(after_route(RouteDecision::Drop, 3, 1, false, &LIMITS)),
        (AckStatus::Rejected(RejectReason::NoRoute), false)
    );
    assert_eq!(
        answer(after_route(to(), 0, 1, false, &LIMITS)),
        (AckStatus::Rejected(RejectReason::TtlExpired), false)
    );
    assert_eq!(
        answer(after_route(to(), 3, 32, false, &LIMITS)),
        (AckStatus::Rejected(RejectReason::TtlExpired), false)
    );
    assert!(matches!(after_route(to(), 3, 1, true, &LIMITS), HandleStep::SignForward { .. }));
    assert!(matches!(after_route(to(), 3, 1, false, &LIMITS), HandleStep::AppendHop { .. }));

    assert_eq!(answer(after_offer(SinkOutcome::Queued)), (AckStatus::Delivered, false));
    assert_eq!(
        answer(after_offer(SinkOutcome::Full)),
        (AckStatus::Rejected(RejectReason::Busy), true)
    );
    assert_eq!(
        answer(after_offer(SinkOutcome::Closed)),
        (AckStatus::Rejected(RejectReason::Internal), true)
    );

    assert!(matches!(after_sign(id("n"), Ok(())), HandleStep::AppendHop { .. }));
    assert_eq!(
        answer(after_sign(id("n"), Err(RejectReason::BadPayload))),
        (AckStatus::Rejected(RejectReason::BadPayload), false)
    );

    assert_eq!(answer(after_dial(Some(AckStatus::Delivered))), (AckStatus::Delivered, false));
    assert_eq!(
        answer(after_dial(None)),
        (AckStatus::Rejected(RejectReason::Unreachable), true)
    );
}

#[test]
fn a_retry_is_a_duplicate_unless_the_first_answer_was_transient() {
    let env = envelope(vec![]);
    let second = |first: HandleStep| {
        let (status, forget) = answer(first);
        let ack = acknowledge(&env, status);
        assert_eq!((ack.msg_id, ack.status), (env.msg_id, status));
        after_observe(!forget)
    };
    let lasting = [
        after_offer(SinkOutcome::Queued),
        after_route(RouteDecision::Drop, 3, 1, false, &LIMITS),
        after_dial(Some(AckStatus::Delivered)),
    ];
    for first in lasting {
        assert_eq!(answer(second(first)), (AckStatus::Duplicate, false));
    }
    let transient =
        [after_offer(SinkOutcome::Full), after_offer(SinkOutcome::Closed), after_dial(None)];
    for first in transient {
        assert!(matches!(second(first), HandleStep::Route));
    }
}

#[test]
fn forwards_lower_the_ttl_and_use_hints() {
    let me = public(&SecretKey::generate());
    let next = public(&SecretKey::generate());
    let rec = record(&me, "0", None, vec![(&next, 1, ChildKind::Node)]);
    let mut snap = RoutableSnapshot::from_record(&rec).unwrap();
    let hint = EndpointAddr {
        node: next.clone(),
        transports: vec![Transport::Relay(id("https://relay.example/"))],
    };
    snap.set_hint(&next, hint).unwrap();

    let HandleStep::Dial { addr: target, ttl } = after_append(true, &next, 5, &snap) else {
        panic!("expected a dial");
    };
    assert_eq!(ttl, 4);
    assert_eq!(target.node, next);
    assert!(matches!(&target.transports[0], Transport::Relay(url) if url.contains("relay")));
    assert_eq!(
        answer(after_append(false, &next, 5, &snap)),
        (AckStatus::Rejected(RejectReason::BadHopChain), false)
    );
    assert_eq!(
        answer(after_append(true, &id("junk"), 5, &snap)),
        (AckStatus::Rejected(RejectReason::Unreachable), true)
    );

    assert!(matches!(
        send_envelope(None, RouteDecision::Local, &snap),
        Ok(SendStep::Local)
    ));
    assert!(matches!(
        send_envelope(None, RouteDecision::Drop, &snap),
        Err(MsgSendError::NoRoute)
    ));
    assert!(matches!(
        send_envelope(Some(MsgError::HopChain), RouteDecision::Local, &snap),
        Err(MsgSendError::InvalidEnvelope(MsgError::HopChain))
    ));
    let Ok(SendStep::Dial { node, addr: target }) =
        send_envelope(None, RouteDecision::Forward(next.clone()), &snap)
    else {
        panic!("expected a dial");
    };
    assert_eq!((node, target.node), (next.clone(), next));
    assert!(matches!(
        send_envelope(None, RouteDecision::Forward(id("junk")), &snap),
        Err(MsgSendError::NextHopUnreachable { .. })
    ));
}

fn routed(forwards: Vec<PeerRef>, expiry: u64) -> RoutedControl {
    RoutedControl {
        target: peer("0.2", "target"),
        requester: peer("0.1", "origin"),
        forwards,
        expiry,
        valid: true,
    }
}

#[test]
fn routed_control_is_carried_only_when_it_mirrors_its_path() {
    let env = envelope(vec![peer("0.1", "origin")]);
    let decide = |request: Option<RoutedControl>, responder: Option<String>| {
        prepare_control_forward(&env, &LIMITS, true, &request, &responder, 100)
    };
    assert!(matches!(
        decide(Some(routed(vec![peer("0.1", "origin")], 100)), None),
        ControlForward::Sign
    ));
    assert!(matches!(
        decide(Some(routed(vec![peer("0.1", "origin")], 99)), None),
        ControlForward::Refuse(RejectReason::TtlExpired)
    ));
    assert!(matches!(
        decide(Some(routed(vec![peer("0.1", "other")], 100)), None),
        ControlForward::Refuse(RejectReason::BadPayload)
    ));
    let mut forged = routed(vec![peer("0.1", "origin")], 100);
    forged.valid = false;
    assert!(matches!(
        decide(Some(forged), None),
        ControlForward::Refuse(RejectReason::BadPayload)
    ));
    assert!(matches!(decide(None, Some(id("origin"))), ControlForward::PassOn));
    assert!(matches!(
        decide(None, Some(id("somebody"))),
        ControlForward::Refuse(RejectReason::NoRoute)
    ));
    assert!(matches!(
        prepare_control_forward(&env, &LIMITS, false, &None, &None, 100),
        ControlForward::Refuse(RejectReason::NoRoute)
    ));
    let tight = Limits { max_control_frame: 0, ..LIMITS };
    assert!(matches!(
        prepare_control_forward(&env, &tight, true, &None, &None, 100),
        ControlForward::Refuse(RejectReason::BadPayload)
    ));
    assert_eq!(control_forward_signed(true, true, true), Ok(()));
    assert!(control_forward_signed(false, true, true).is_err());
    assert!(control_forward_signed(true, false, true).is_err());
    assert!(control_forward_signed(true, true, false).is_err());
}

#[test]
fn delivered_control_names_its_envelope() {
    let last = SecretKey::from_bytes(&[7u8; 32]);
    let base32 = base32_nopad(last.public().as_bytes());
    let path = || vec![peer("0.1", "origin"), peer("0", &base32)];
    let env = envelope(path());
    let ControlDispatch::Receive { remote } = dispatch_control_envelope(&env, &routed(path(), 1))
    else {
        panic!("expected the request to be received");
    };
    assert_eq!(remote, public(&last));
    assert!(matches!(
        dispatch_control_envelope(&env, &routed(vec![peer("0.1", "origin")], 1)),
        ControlDispatch::RefuseUnauthorized
    ));
    let nameless = envelope(vec![peer("0.1", "origin")]);
    assert!(matches!(
        dispatch_control_envelope(&nameless, &routed(vec![peer("0.1", "origin")], 1)),
        ControlDispatch::Ignore
    ));
}
