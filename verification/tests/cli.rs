use cawala_node::addr::OctAddr;
use cawala_node::admin_store::{AdminGrant, AdminScope, AdminStore, SignedAdminGrant};
use cawala_node::cli::{
    decode_hex, join_rejection, join_request, message_payload, parse_hex32, parse_hint, parse_kind,
    plan_join, read_transport, resolve_cascade_order, resolve_peers, strict_needs_orders, Invite,
    JOIN_TTL_SECONDS,
};
use cawala_node::control::{ControlLimits, ControlNode, Verdicts};
use cawala_node::control_msg::{
    ControlError, ControlReply, ControlRequest, DeliveryStatus, NodeSnapshot, RejectCode,
    SignedControl,
};
use cawala_node::control_store::{ControlStore, JoinRequest};
use cawala_node::ping::{PingHandler, PingPong};
use cawala_node::record::{ChildEntry, ChildKind, NodeRecord, RecordStore};
use cawala_node::render::{
    print_joins, print_reply, print_snapshot, show, show_delivery, show_ledger, LedgerView,
};
use cawala_node::routed::{
    codec_message, invite_endpoint_addr, receive_routed_at, sign_decision, sign_forward,
    sign_routed_reply, verify_forward, RoutedControlV1, RoutedForward, RoutedStep, RoutedVerdicts,
};
use cawala_node::routing::Transport;
use cawala_node::text::hex_text;
use cawala_node::textmap::TextMap;
use cawala_node::wire::{AccountRef, PaymentOrder, PeerKeys, PeerRef, PeerRole};
use iroh::SecretKey;

fn id(text: &str) -> String {
    text.to_string()
}

fn addr(text: &str) -> OctAddr {
    OctAddr::parse(text).unwrap()
}

fn key(seed: u8) -> [u8; 32] {
    [seed; 32]
}

#[test]
fn hexadecimal_text_round_trips() {
    let bytes: Vec<u8> = (0..=255).collect();
    assert_eq!(decode_hex(&hex_text(&bytes)), Ok(bytes));
    assert_eq!(decode_hex(" DE ad\tbe\nEF "), Ok(vec![0xde, 0xad, 0xbe, 0xef]));
    assert_eq!(
        decode_hex("abc").unwrap_err(),
        "hex payload must have an even number of digits"
    );
    assert_eq!(decode_hex("zz").unwrap_err(), "hex payload contains a non-hex character");
    assert_eq!(parse_hex32(&"07".repeat(32), "operator"), Ok(key(7)));
    assert_eq!(
        parse_hex32("0707", "operator").unwrap_err(),
        "operator key must be exactly 32 bytes (64 hex digits), found 2"
    );
    assert_eq!(message_payload(&Some(id("hi")), &None), Ok(b"hi".to_vec()));
    assert_eq!(message_payload(&None, &Some(id("6869"))), Ok(b"hi".to_vec()));
    assert_eq!(message_payload(&None, &None), Ok(vec![]));
}

#[test]
fn kinds_and_peers_have_defaults() {
    assert_eq!(parse_kind(&None), Ok(ChildKind::User));
    assert_eq!(parse_kind(&Some(id("node"))), Ok(ChildKind::Node));
    assert_eq!(parse_kind(&Some(id("user"))), Ok(ChildKind::User));
    assert_eq!(
        parse_kind(&Some(id("root"))).unwrap_err(),
        "invalid kind 'root' (expected 'node' or 'user')"
    );
    assert_eq!(resolve_peers(&id("data"), vec![]), vec![id("data")]);
    assert_eq!(resolve_peers(&id("data"), vec![id("a"), id("b")]), vec![id("a"), id("b")]);
}

fn order(seed: u8) -> PaymentOrder {
    PaymentOrder {
        from: id("a"),
        to: id("b"),
        amount: 1,
        nonce: seed as u64,
        expiry: 9,
        hash: [seed; 32],
    }
}

#[test]
fn an_order_is_found_by_its_hash_in_any_case() {
    let orders = vec![order(0xab), order(0xcd)];
    let upper = Some("CD".repeat(32));
    assert_eq!(resolve_cascade_order(&orders, None, &upper).unwrap().nonce, 0xcd);
    let missing = Some("EF".repeat(32));
    assert_eq!(
        resolve_cascade_order(&orders, None, &missing).unwrap_err(),
        format!("no order with hash {} in the supplied source", "ef".repeat(32))
    );
    assert_eq!(resolve_cascade_order(&orders, Some(Ok(order(5))), &upper).unwrap().nonce, 5);
    assert_eq!(
        resolve_cascade_order(&orders, Some(Err(id("odd"))), &None).unwrap_err(),
        "invalid --order JSON: odd"
    );
    assert_eq!(
        resolve_cascade_order(&orders, None, &None).unwrap_err(),
        "provide --order <json> or --orders <file> --order-hash <hex>"
    );
    assert!(strict_needs_orders(true, &vec![]).is_some());
    assert!(strict_needs_orders(false, &vec![]).is_none());
    assert!(strict_needs_orders(true, &orders).is_none());
}

#[test]
fn hints_name_a_node_and_its_transports() {
    let node = SecretKey::from_bytes(&[7u8; 32]).public().to_string();
    let raw = format!("{}=ip:127.0.0.1:9, relay:https://relay.example", node);
    let hint = parse_hint(&raw).unwrap();
    assert_eq!(hint.node, node);
    assert!(hint.bad.is_none());
    assert_eq!(hint.transports.len(), 2);
    assert!(matches!(&hint.transports[0], Transport::Ip(ip) if ip == "127.0.0.1:9"));

    let Ok(Transport::Relay(url)) = read_transport(&hint.transports[1]) else {
        panic!("expected a relay");
    };
    assert_eq!(url, "https://relay.example/");
    assert!(read_transport(&Transport::Relay(id("not a url")))
        .unwrap_err()
        .starts_with("invalid relay transport 'not a url': "));

    let bad = parse_hint(&format!("{}=carrier:pigeon", node)).unwrap();
    assert_eq!(
        bad.bad.unwrap(),
        "hint transport 'carrier:pigeon' must start with ip:, relay:, or custom:"
    );
    assert_eq!(parse_hint("nothing").unwrap_err(), "hint 'nothing' must be ID=ADDR");
    assert!(parse_hint("x=ip:1").unwrap_err().starts_with("hint id 'x' is not an EndpointId: "));
}

#[test]
fn custom_transports_are_read_into_their_canonical_text() {
    let Ok(Transport::Custom(shown)) = read_transport(&Transport::Custom(id("0A_0f"))) else {
        panic!("expected a custom transport");
    };
    assert_eq!(shown, "a_0f");
    let read = |text: &str| match read_transport(&Transport::Custom(id(text))) {
        Ok(Transport::Custom(shown)) => Ok(shown),
        Ok(other) => panic!("expected a custom transport, got {:?}", other),
        Err(message) => Err(message),
    };
    assert_eq!(read("0_").unwrap(), "0_");
    assert_eq!(read("+00fF_00ff").unwrap(), "ff_00ff");
    assert_eq!(read("ffffffffffffffff_").unwrap(), "ffffffffffffffff_");
    let refused = |text: &str, detail: &str| {
        let message = format!("invalid custom transport '{}': {}", text, detail);
        assert_eq!(read(text).unwrap_err(), message);
    };
    refused("no separator", "missing '_' separator");
    refused("", "missing '_' separator");
    refused("_00", "invalid id");
    refused("+_00", "invalid id");
    refused("-1_00", "invalid id");
    refused("0x1_00", "invalid id");
    refused("10000000000000000_00", "invalid id");
    refused("1_0", "invalid data");
    refused("1_0F", "invalid data");
    refused("1_00_00", "invalid data");
}

fn invite(relay: Option<&str>, ip: Option<&str>) -> Invite {
    Invite {
        parent: SecretKey::from_bytes(&[7u8; 32]).public().to_string(),
        operator: key(9),
        slot: Some(4),
        expiry: Some(77),
        relay: relay.map(id),
        ip: ip.map(id),
    }
}

#[test]
fn joins_are_planned_from_a_parent_or_an_invite() {
    let plan = plan_join(Some(id("p")), None, Some(2), 1_000).unwrap();
    assert_eq!((plan.parent.as_str(), plan.desired_slot), ("p", Some(2)));
    assert_eq!(plan.expiry, 1_000 + JOIN_TTL_SECONDS);
    assert!(plan.pinned_operator.is_none() && plan.target.is_none());
    let request = join_request(&plan, &id("me"), ChildKind::User, key(1), key(2), None, 1_000);
    assert_eq!((request.nonce, request.ledger), (1_000, None));
    let request = join_request(&plan, &id("me"), ChildKind::Node, key(1), key(2), None, 1_000);
    assert_eq!(request.ledger, Some(key(2)));

    let invited = invite(Some("https://relay.example"), Some("10.0.0.1:5"));
    let plan = plan_join(None, Some(Ok(invited)), Some(2), 1_000).unwrap();
    assert_eq!(plan.pinned_operator, Some(key(9)));
    assert_eq!((plan.desired_slot, plan.expiry), (Some(4), 77));
    let target = plan.target.unwrap();
    assert!(matches!(
        &target.transports[0],
        Transport::Relay(url) if url == "https://relay.example/"
    ));
    assert!(matches!(&target.transports[1], Transport::Ip(ip) if ip == "10.0.0.1:5"));

    let quiet = plan_join(None, Some(Ok(invite(None, None))), None, 1_000).unwrap();
    assert!(quiet.target.is_none());
    let err = plan_join(None, Some(Ok(invite(Some("::"), None))), None, 1_000).unwrap_err();
    assert!(err.starts_with("invalid invite transport hints: invalid relay URL in invite: "));
    assert_eq!(
        plan_join(None, None, None, 0).unwrap_err(),
        "one of --parent or --invite is required"
    );
    assert_eq!(
        plan_join(Some(id("p")), Some(Err(id("x"))), None, 0).unwrap_err(),
        "--parent and --invite are mutually exclusive"
    );
    assert_eq!(
        plan_join(None, Some(Err(id("expired"))), None, 0).unwrap_err(),
        "invalid invite: expired"
    );
}

#[test]
fn an_invite_names_a_real_parent() {
    let err = invite_endpoint_addr(&id("nobody"), &None, &None).unwrap_err();
    assert!(codec_message(&err).starts_with("invalid parent endpoint id 'nobody': "));
}

#[test]
fn a_refusal_answers_the_waiting_join() {
    let join = JoinRequest {
        node: id("a"),
        kind: ChildKind::User,
        operator: key(1),
        ledger: None,
        desired_slot: None,
        location_hint: None,
        nonce: 12,
        expiry: 99,
    };
    let refusal = join_rejection(Some(&join), &id("a"), &Some(id("full")));
    assert_eq!((refusal.nonce, refusal.reason.as_str()), (12, "full"));
    let refusal = join_rejection(None, &id("a"), &None);
    assert_eq!(refusal.reason, "rejected");
    assert_eq!(
        print_joins(&vec![join]),
        vec![format!("a kind=user operator={} slot=auto expiry=99", "01".repeat(32))]
    );
    assert_eq!(print_joins(&vec![]), vec![id("no pending join requests")]);
}

#[test]
fn pings_are_answered() {
    let Ok(PingPong::Pong { seq, payload }) =
        PingHandler.reply(PingPong::Ping { payload: vec![1, 2] })
    else {
        panic!("expected a pong");
    };
    assert_eq!((seq, payload), (1, vec![1, 2]));
    assert!(PingHandler.reply(PingPong::Pong { seq: 3, payload: vec![] }).is_err());
}

#[test]
fn records_and_replies_are_shown() {
    let mut record = NodeRecord::new(id("n"));
    assert_eq!(
        show(&record),
        vec![id("node_id: n"), id("address: none"), id("parent: none"), id("children: (none)")]
    );
    record.address = Some(addr("0.1"));
    record.children.push(ChildEntry {
        child_id: id("u"),
        kind: ChildKind::User,
        slot: 3,
        date_joined: 8,
    });
    let lines = show(&record);
    assert!(lines.contains(&id("  slot 3: user u (joined 8)")));
    assert!(lines.contains(&id("derived parent address: 0")));
    assert!(lines.contains(&id("derived child slot 3 address: 0.1.3")));

    let snapshot = NodeSnapshot {
        node_id: id("n"),
        address: None,
        parent: None,
        children: vec![],
    };
    assert_eq!(print_snapshot(&snapshot).len(), 4);
    assert_eq!(print_reply(&ControlReply::Accepted), vec![id("accepted")]);
    assert_eq!(
        print_reply(&ControlReply::Rejected(RejectCode::NotFound)),
        vec![format!("rejected: {}", RejectCode::NotFound.name())]
    );
    assert_eq!(show_delivery(DeliveryStatus::TimedOut), "TimedOut");
    let approved = ControlReply::AdminApproved {
        child: id("c"),
        slot: 2,
        address: addr("0.2"),
        delivery: DeliveryStatus::Delivered,
    };
    assert_eq!(
        print_reply(&approved),
        vec![id("admin-approved: child=c slot=2 address=0.2 delivery=Delivered")]
    );
}

#[test]
fn ledgers_are_shown() {
    let view = LedgerView {
        node_id: id("n"),
        ledger_id: key(1),
        entries: 2,
        height: 1,
        head: key(3),
        is_root: true,
        parent_balance: 0,
        equity: -100,
        accounts: vec![(AccountRef::Child(id("a")), 100)],
    };
    let lines = show_ledger(&view);
    assert_eq!(lines[5], "root: true");
    assert!(lines.contains(&id("equity: -100")));
    assert_eq!(lines.last().unwrap(), "  child:a: 100");
}

// ---- routed control ----

const LIMITS: ControlLimits =
    ControlLimits { format_version: 2, max_ttl: 900, ttl: 300, grant_version: 1 };

fn signed(origin: &str, controller: [u8; 32], request: ControlRequest) -> SignedControl {
    SignedControl {
        version: 2,
        origin: id(origin),
        controller,
        nonce: 1,
        expiry: 100,
        request,
        signature: [0u8; 64],
    }
}

/// A root with one senior child, "kid".
fn engine() -> ControlNode {
    let mut record = RecordStore::open(None, &id("me")).unwrap();
    record.set_address(addr("0")).unwrap();
    record.attach_child(id("kid"), ChildKind::Node, Some(1), 5).unwrap();
    let mut peers = TextMap::new();
    peers.insert(
        id("kid"),
        PeerKeys {
            node_id: id("kid"),
            operator: key(4),
            ledger: Some(key(5)),
            role: PeerRole::Node,
        },
    );
    ControlNode::new(
        id("me"),
        key(1),
        record,
        peers,
        ControlStore::open(vec![], None, None).unwrap(),
        AdminStore::empty(),
    )
}

fn routed(intent: SignedControl, last_request: ControlRequest) -> RoutedControlV1 {
    RoutedControlV1 {
        target: PeerRef { addr: addr("0"), node: id("me") },
        requester: PeerRef { addr: addr("0.1.2"), node: id("far") },
        intent,
        forwards: vec![RoutedForward {
            hop: PeerRef { addr: addr("0.1"), node: id("kid") },
            signed: signed("kid", key(4), last_request),
        }],
        grant: None,
    }
}

fn verdicts(registration: Option<ControlError>) -> RoutedVerdicts {
    RoutedVerdicts {
        valid: true,
        intent_signature: true,
        last: Verdicts {
            signature: true,
            registration,
            well_formed: true,
            insertion: None,
            parent_ledger: None,
        },
    }
}

fn step(routed: &RoutedControlV1, now: u64) -> RoutedStep {
    receive_routed_at(&engine(), routed, &id("kid"), &LIMITS, now, &verdicts(None))
}

#[test]
fn routed_topology_requests_need_the_senior_child() {
    let query = routed(signed("far", key(8), ControlRequest::Query), ControlRequest::Query);
    assert!(matches!(step(&query, 50), RoutedStep::DispatchForward));
    assert!(matches!(step(&query, 101), RoutedStep::Refuse(RejectCode::Expired)));
    let unknown = verdicts(Some(ControlError::OperatorMismatch));
    assert!(matches!(
        receive_routed_at(&engine(), &query, &id("kid"), &LIMITS, 50, &unknown),
        RoutedStep::Refuse(RejectCode::Unauthorized)
    ));
    assert!(matches!(
        receive_routed_at(&engine(), &query, &id("other"), &LIMITS, 50, &verdicts(None)),
        RoutedStep::Refuse(RejectCode::Unauthorized)
    ));
    let own = routed(signed("me", key(1), ControlRequest::Query), ControlRequest::Query);
    assert!(matches!(
        step(&own, 50),
        RoutedStep::DispatchIntent { grant_unbacked: false }
    ));
    let mut elsewhere = routed(signed("far", key(8), ControlRequest::Query), ControlRequest::Query);
    elsewhere.target.node = id("you");
    assert!(matches!(step(&elsewhere, 50), RoutedStep::Refuse(RejectCode::Unauthorized)));
    let mut long = routed(signed("far", key(8), ControlRequest::Query), ControlRequest::Query);
    long.intent.expiry = 2_000;
    assert!(matches!(step(&long, 50), RoutedStep::Refuse(RejectCode::BadRequest)));
}

#[test]
fn carried_grants_are_checked_and_give_no_authority() {
    let admin = || routed(signed("me", key(5), ControlRequest::AdminQuery), ControlRequest::Query);
    assert!(matches!(
        step(&admin(), 50),
        RoutedStep::DispatchIntent { grant_unbacked: false }
    ));
    let grant = |signer: u8| SignedAdminGrant {
        grant: AdminGrant {
            version: 1,
            node: id("me"),
            admin: key(5),
            scope: AdminScope::Admin,
            granted_at: 1,
            expiry: 500,
            label: None,
        },
        fault: None,
        valid_under: vec![key(signer)],
    };
    let mut carrying = admin();
    carrying.grant = Some(grant(1));
    assert!(matches!(
        step(&carrying, 50),
        RoutedStep::DispatchIntent { grant_unbacked: true }
    ));
    carrying.grant = Some(grant(2));
    assert!(matches!(step(&carrying, 50), RoutedStep::Refuse(RejectCode::Unauthorized)));
}

#[test]
fn routed_joins_are_refused() {
    let join = || {
        ControlRequest::Join(JoinRequest {
            node: id("far"),
            kind: ChildKind::User,
            operator: key(8),
            ledger: None,
            desired_slot: None,
            location_hint: None,
            nonce: 1,
            expiry: 99,
        })
    };
    let request = routed(signed("far", key(8), join()), join());
    assert!(matches!(step(&request, 50), RoutedStep::RefuseJoin));
}

#[test]
fn forwards_and_answers_are_signed_at_the_own_address() {
    let node = engine();
    let (hop, draft) = sign_forward(&node, 7, 50, &LIMITS).unwrap();
    assert_eq!((hop.addr.text(), hop.node), (id("0"), id("me")));
    assert_eq!((draft.origin.as_str(), draft.nonce, draft.expiry), ("me", 7, 350));
    assert_eq!(sign_decision(&node, 8, u64::MAX, &LIMITS).expiry, u64::MAX);
    let reply = sign_routed_reply(
        &node,
        [3u8; 16],
        PeerRef { addr: addr("0.1.2"), node: id("far") },
        ControlReply::Accepted,
    )
    .unwrap();
    assert_eq!(reply.reply_to, [3u8; 16]);
    assert_eq!(reply.responder.node, "me");

    let bare = ControlNode::new(
        id("me"),
        key(1),
        RecordStore::open(None, &id("me")).unwrap(),
        TextMap::new(),
        ControlStore::open(vec![], None, None).unwrap(),
        AdminStore::empty(),
    );
    assert_eq!(
        sign_forward(&bare, 7, 50, &LIMITS).unwrap_err(),
        ControlError::Codec(id("cannot sign a routed forward without an asserted address"))
    );

    let query = routed(signed("far", key(8), ControlRequest::Query), ControlRequest::Query);
    assert_eq!(verify_forward(&query.forwards[0], &None), Ok(()));
    let forged = RoutedForward {
        hop: PeerRef { addr: addr("0.1"), node: id("other") },
        signed: signed("kid", key(4), ControlRequest::Query),
    };
    assert_eq!(verify_forward(&forged, &None), Err(RejectCode::Unauthorized));
}
