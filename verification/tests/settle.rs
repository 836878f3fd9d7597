use cawala_node::addr::OctAddr;
use cawala_node::ledger_service::{ApplyOutcome, OrderRejectV1, OrderStatusV1};
use cawala_node::origin::{
    after_reserve, answer_pending, apply_same_leaf_order, check_sender, depart,
    dispatch_ledger_envelope, handle_settle_result, handle_settlement_order, is_journaled,
    plain_reply, relay_settle_forward, settlement_reply, sweep_settlements, timeout_result,
    verify_terminal_proof, wanted_proof, AfterReserve, EntryProofV1, LedgerAction, LedgerPayload,
    OrderReply, OrderStep, PendingSettlement, ProofChecks, ResultStep, SettleOutcomeV2,
    TerminalOutcome,
};
use cawala_node::record::{ChildEntry, ChildKind, NodeRecord};
use cawala_node::settle;
use cawala_node::settle::{
    after_hop, assemble_settlement_registry, carried_hops_match, check_forward, entry_matches_hop,
    expected_signers, finish_forward, forward_turn, gate_hop, lists_user, reply_carries_proof,
    settle_reject_to_status, settlement_status_to_v1, user_child_address, user_child_is_at,
    AfterHop, ForwardFinish, ForwardStep, HopOutcome, NeighborAt, RegistryPlan, SettleForwardV1,
    SettleHopV1, SettleRejectV1, SettlementStatusV2, SignerNotes, Signers, Turn,
    SETTLE_TIMEOUT_SECS,
};
use cawala_node::textmap::TextMap;
use cawala_node::wire::{
    AccountRef, AuthRef, Entry, EntryBody, Envelope, HopRole, PaymentOrder, PeerKeys, PeerRef,
    PeerRole, Posting, SignedEntry,
};

const ZERO: [u8; 32] = [0u8; 32];
const ROLES: [Option<HopRole>; 3] =
    [Some(HopRole::Ascend), Some(HopRole::Lca), Some(HopRole::Descend)];
const A_KEY: [u8; 32] = [11u8; 32];
const P_KEY: [u8; 32] = [22u8; 32];
const B_KEY: [u8; 32] = [33u8; 32];

fn id(text: &str) -> String {
    text.to_string()
}

fn addr(text: &str) -> OctAddr {
    OctAddr::parse(text).unwrap()
}

fn peer(address: &str, node: &str) -> PeerRef {
    PeerRef { addr: addr(address), node: id(node) }
}

fn carried_order() -> PaymentOrder {
    PaymentOrder {
        from: id("uA"),
        to: id("uB"),
        amount: 100,
        nonce: 1,
        expiry: u64::MAX,
        hash: [44u8; 32],
    }
}

/// The three ledgers of the route from 0.1.3 to 0.2.4.
fn signer_addrs() -> Signers {
    expected_signers(&addr("0.1.3"), &addr("0.2.4")).expect("the leaves have one parent")
}

fn node_row(node: &str, operator: u8, key: [u8; 32]) -> PeerKeys {
    PeerKeys {
        node_id: id(node),
        operator: [operator; 32],
        ledger: Some(key),
        role: PeerRole::Node,
    }
}

fn auth() -> AuthRef {
    AuthRef { operator: [1u8; 32], nonce: 1, order_hash: [44u8; 32], signature: [0u8; 64] }
}

fn posting(account: AccountRef, delta: i64) -> Posting {
    Posting { account, delta }
}

fn make_hop_with_postings(
    signer_addr: &str,
    order: &PaymentOrder,
    ledger_key: [u8; 32],
    role: HopRole,
    postings: Vec<Posting>,
) -> SettleHopV1 {
    let canonical = postings.len() == 2;
    SettleHopV1 {
        signer_addr: addr(signer_addr),
        entry: SignedEntry {
            entry: Entry {
                ledger_id: ledger_key,
                seq: 0,
                height: 0,
                prev_hash: ZERO,
                issued_at: 0,
                body: EntryBody::Transfer {
                    payment_id: order.hash,
                    amount: order.amount,
                    role,
                },
                postings,
                auth: Some(auth()),
            },
            hash: Some([77u8; 32]),
            valid_under: vec![ledger_key],
            conserved: true,
            canonical,
        },
    }
}

fn ascend_hop(order: &PaymentOrder, key: [u8; 32]) -> SettleHopV1 {
    make_hop_with_postings(
        "0.1",
        order,
        key,
        HopRole::Ascend,
        vec![
            posting(AccountRef::Parent, -100),
            posting(AccountRef::Child(id("0.1.3")), -100),
        ],
    )
}

fn lca_hop(order: &PaymentOrder, key: [u8; 32]) -> SettleHopV1 {
    make_hop_with_postings(
        "0",
        order,
        key,
        HopRole::Lca,
        vec![
            posting(AccountRef::Child(id("0.1")), -100),
            posting(AccountRef::Child(id("0.2")), 100),
        ],
    )
}

fn at(address: &str, node: &str) -> NeighborAt {
    NeighborAt { addr: addr(address), node: id(node) }
}

fn rows(list: Vec<PeerKeys>) -> TextMap<PeerKeys> {
    let mut map = TextMap::new();
    for row in list {
        map.insert(row.node_id.clone(), row);
    }
    map
}

#[test]
fn carried_prefix_verifies_lca_hop_at_terminal() {
    let order = carried_order();
    let neighbors = vec![at("0", "P")];
    let registry = rows(vec![node_row("P", 2, P_KEY)]);
    let mut hops = vec![ascend_hop(&order, A_KEY), lca_hop(&order, P_KEY)];
    let holds = |hops: &Vec<SettleHopV1>| {
        carried_hops_match(
            hops,
            &signer_addrs(),
            &ROLES,
            &addr("0.2"),
            &order,
            &B_KEY,
            &neighbors,
            &registry,
        )
    };
    assert!(holds(&hops));
    hops[1].entry.valid_under = vec![];
    assert!(!holds(&hops), "a tampered LCA signature must be rejected");
}

#[test]
fn carried_prefix_verifies_payer_leaf_hop_at_lca() {
    let order = carried_order();
    let neighbors = vec![at("0.1", "A"), at("0.2", "B")];
    let registry = rows(vec![node_row("A", 1, A_KEY), node_row("B", 3, B_KEY)]);
    let holds = |hops: &Vec<SettleHopV1>| {
        carried_hops_match(
            hops,
            &signer_addrs(),
            &ROLES,
            &addr("0"),
            &order,
            &P_KEY,
            &neighbors,
            &registry,
        )
    };
    assert!(holds(&vec![ascend_hop(&order, A_KEY)]));
    assert!(
        !holds(&vec![ascend_hop(&order, B_KEY)]),
        "a non-neighbor key must not vouch for another signer's address"
    );
}

fn deferred(hops: &Vec<SettleHopV1>) -> bool {
    carried_hops_match(
        hops,
        &signer_addrs(),
        &ROLES,
        &addr("0.2"),
        &carried_order(),
        &B_KEY,
        &vec![at("0", "P")],
        &TextMap::new(),
    )
}

#[test]
fn carried_prefix_defers_unresolvable_signer() {
    let order = carried_order();
    assert!(deferred(&vec![ascend_hop(&order, A_KEY), lca_hop(&order, P_KEY)]));
}

#[test]
fn carried_prefix_rejects_unresolvable_invalid_signature() {
    let order = carried_order();
    let mut hops = vec![ascend_hop(&order, A_KEY), lca_hop(&order, P_KEY)];
    hops[0].entry.valid_under = vec![B_KEY];
    assert!(!deferred(&hops));
}

#[test]
fn carried_prefix_rejects_unresolvable_non_canonical_shape() {
    let order = carried_order();
    let malformed = make_hop_with_postings(
        "0.1",
        &order,
        A_KEY,
        HopRole::Ascend,
        vec![
            posting(AccountRef::Parent, -100),
            posting(AccountRef::Child(id("x")), -100),
            posting(AccountRef::Child(id("y")), 100),
        ],
    );
    assert!(!deferred(&vec![malformed, lca_hop(&order, P_KEY)]));
}

#[test]
fn carried_evidence_is_bound_to_the_order_and_the_route() {
    let order = carried_order();
    let mut other = carried_order();
    other.hash = [45u8; 32];
    assert!(!deferred(&vec![ascend_hop(&other, A_KEY)]));
    let mut richer = carried_order();
    richer.amount = 101;
    assert!(!deferred(&vec![ascend_hop(&richer, A_KEY)]));
    assert!(!deferred(&vec![lca_hop(&order, P_KEY)]), "the first hop is the payer leaf's");
    let mut lossy = ascend_hop(&order, A_KEY);
    lossy.entry.conserved = false;
    assert!(!deferred(&vec![lossy]));
}

#[test]
fn unresolvable_signer_note_warns_once_per_address() {
    let mut notes = SignerNotes::new();
    assert!(notes.note_unresolvable_signer(&addr("0.7.7")));
    assert!(!notes.note_unresolvable_signer(&addr("0.7.7")));
    assert!(notes.note_unresolvable_signer(&addr("0.7.6")));
    assert!(!notes.note_unresolvable_signer(&addr("0.7.6")));
}

fn leaf(address: &str, users: &[(&str, u8)]) -> NodeRecord {
    let mut record = NodeRecord::new(id("leaf"));
    record.address = Some(addr(address));
    for (user, slot) in users {
        record.children.push(ChildEntry {
            child_id: id(user),
            kind: ChildKind::User,
            slot: *slot,
            date_joined: 0,
        });
    }
    record
}

#[test]
fn users_have_the_address_of_their_slot() {
    let record = leaf("0.1", &[("uA", 3)]);
    assert_eq!(user_child_address(&record, &id("uA")).unwrap().text(), "0.1.3");
    assert!(user_child_address(&record, &id("uX")).is_none());
    assert!(user_child_is_at(&record, &id("uA"), &addr("0.1.3")));
    assert!(!user_child_is_at(&record, &id("uA"), &addr("0.1.4")));
    assert!(lists_user(&record, &id("uA")));
    assert!(!lists_user(&record, &id("uX")));
}

#[test]
fn order_from_non_user_child_is_rejected_with_result() {
    let record = leaf("0", &[("uA", 1)]);
    let mut order = carried_order();
    order.from = id("stranger");
    let payload = Some(LedgerPayload::OrderV2 { order });
    assert!(matches!(
        dispatch_ledger_envelope(&payload, &Some(record), &peer("0.1", "stranger")),
        LedgerAction::RejectNotAChild
    ));
    let record = leaf("0", &[("uA", 1)]);
    let outcome = check_sender(&record, &id("stranger")).unwrap();
    assert_eq!(outcome.status, OrderStatusV1::Rejected);
    assert_eq!(outcome.reason, Some(OrderRejectV1::NotAChild));
    assert!(outcome.entry_seq.is_none() && outcome.entry_hash.is_none());
    assert!(check_sender(&record, &id("uA")).is_none());
}

#[test]
fn ledger_messages_go_where_they_belong() {
    let here = || Some(leaf("0.1", &[("uA", 3), ("uC", 4)]));
    let from = peer("0.1.3", "uA");
    let v2 = |to: &str| {
        let mut order = carried_order();
        order.to = id(to);
        Some(LedgerPayload::OrderV2 { order })
    };
    assert!(matches!(
        dispatch_ledger_envelope(&v2("uC"), &here(), &from),
        LedgerAction::ApplySameLeaf { reply_v2: true }
    ));
    assert!(matches!(
        dispatch_ledger_envelope(&v2("uB"), &here(), &from),
        LedgerAction::Settle
    ));
    assert!(matches!(
        dispatch_ledger_envelope(
            &Some(LedgerPayload::OrderV1 { order: carried_order() }),
            &here(),
            &from
        ),
        LedgerAction::ApplySameLeaf { reply_v2: false }
    ));
    assert!(matches!(
        dispatch_ledger_envelope(&Some(LedgerPayload::BalanceQuery), &here(), &from),
        LedgerAction::AnswerBalance
    ));
    assert!(matches!(
        dispatch_ledger_envelope(
            &Some(LedgerPayload::BalanceQuery),
            &here(),
            &peer("0.1.4", "uA")
        ),
        LedgerAction::Skip
    ));
    assert!(matches!(
        dispatch_ledger_envelope(&Some(LedgerPayload::UserReply), &here(), &from),
        LedgerAction::Skip
    ));
    assert!(matches!(dispatch_ledger_envelope(&None, &here(), &from), LedgerAction::Skip));
    assert!(matches!(dispatch_ledger_envelope(&v2("uB"), &None, &from), LedgerAction::Skip));
}

#[test]
fn only_a_shown_entry_is_a_success() {
    let outcome = ApplyOutcome {
        status: OrderStatusV1::Applied,
        entry_seq: Some(3),
        entry_hash: Some([9u8; 32]),
        reason: None,
    };
    assert_eq!(wanted_proof(true, &outcome, true), Some(3));
    assert_eq!(wanted_proof(false, &outcome, true), None);
    assert_eq!(wanted_proof(true, &outcome, false), None);
    assert!(matches!(
        apply_same_leaf_order(&outcome, true, true),
        OrderReply::V3 { status: SettlementStatusV2::Applied { entry_seq: 3, .. } }
    ));
    assert!(matches!(
        apply_same_leaf_order(&outcome, true, false),
        OrderReply::V2 {
            status: SettlementStatusV2::Indeterminate { reason: OrderRejectV1::Internal }
        }
    ));
    assert!(matches!(
        apply_same_leaf_order(&outcome, false, false),
        OrderReply::V1 { status: OrderStatusV1::Applied, entry_seq: Some(3), .. }
    ));
    let refused = ApplyOutcome::rejected(OrderRejectV1::Expired);
    assert_eq!(wanted_proof(true, &refused, true), None);
    assert!(matches!(
        apply_same_leaf_order(&refused, true, false),
        OrderReply::V2 { status: SettlementStatusV2::Rejected { reason: OrderRejectV1::Expired } }
    ));
    assert!(is_journaled(OrderStatusV1::Applied));
    assert!(!is_journaled(OrderStatusV1::Rejected));
}

#[test]
fn statuses_map_onto_each_other() {
    let partial = settle_reject_to_status(&SettleRejectV1::IntermediateRejected {
        at: id("P"),
        reason: OrderRejectV1::InsufficientBalance,
    });
    assert!(matches!(
        &partial,
        SettlementStatusV2::Partial { failed_at, reason: OrderRejectV1::InsufficientBalance }
            if failed_at == "P"
    ));
    assert_eq!(
        settlement_status_to_v1(&partial),
        (OrderStatusV1::Rejected, Some(OrderRejectV1::InsufficientBalance))
    );
    assert!(matches!(
        settle_reject_to_status(&SettleRejectV1::Malformed),
        SettlementStatusV2::Indeterminate { reason: OrderRejectV1::BadRequest }
    ));
    assert!(matches!(
        settle_reject_to_status(&SettleRejectV1::RouteTooDeep),
        SettlementStatusV2::Rejected { reason: OrderRejectV1::BadRequest }
    ));
    let applied = SettlementStatusV2::Applied { entry_seq: 1, entry_hash: ZERO };
    assert!(reply_carries_proof(&applied));
    assert!(!reply_carries_proof(&partial));
    assert_eq!(settlement_status_to_v1(&applied), (OrderStatusV1::Applied, None));
    assert!(matches!(plain_reply(&applied), OrderReply::V1 { entry_seq: Some(1), .. }));
    assert!(matches!(settlement_reply(applied), OrderReply::V3 { .. }));
    assert!(matches!(settlement_reply(partial), OrderReply::V2 { .. }));
}

#[test]
fn a_route_has_three_ledgers() {
    let signers = signer_addrs();
    assert_eq!(signers.payer_leaf.text(), "0.1");
    assert_eq!(signers.common.text(), "0");
    assert_eq!(signers.payee_leaf.text(), "0.2");
    let none = |payer: &str, payee: &str| expected_signers(&addr(payer), &addr(payee)).is_none();
    assert!(none("0.1.3", "0.1.4"), "one leaf");
    assert!(none("0.1.3", "0.2.4.5"), "too deep");
    assert!(none("0.1.1.3", "0.2.2.4"), "no common parent");
    assert!(none("0.1.3", "0.2"));
    assert!(none("0", "0.2.4"));
}

#[test]
fn a_forward_is_taken_in_its_turn() {
    let carrying = |hops: usize| {
        let order = carried_order();
        let carried = vec![ascend_hop(&order, A_KEY), lca_hop(&order, P_KEY)];
        forward(carried.into_iter().take(hops).collect())
    };
    let path = vec![peer("0.1", "A")];
    let (turn, signers) = forward_turn(true, &carrying(1), &addr("0"), &path).unwrap();
    assert_eq!((turn.index, turn.terminal), (1, false));
    assert_eq!(signers.payee_leaf.text(), "0.2");
    let both = vec![peer("0.1", "A"), peer("0", "P")];
    let (turn, _) = forward_turn(true, &carrying(2), &addr("0.2"), &both).unwrap();
    assert_eq!((turn.index, turn.terminal), (2, true));
    assert!(forward_turn(false, &carrying(1), &addr("0"), &path).is_none());
    assert!(forward_turn(true, &carrying(1), &addr("0.2"), &path).is_none());
    assert!(forward_turn(true, &carrying(1), &addr("0"), &both).is_none());
    assert!(forward_turn(true, &carrying(1), &addr("0"), &vec![peer("0.2", "B")]).is_none());
    assert!(forward_turn(true, &carrying(0), &addr("0.1"), &vec![]).is_none());
    let deep = SettleForwardV1 { payee_addr: addr("0.2.4.5"), ..carrying(1) };
    assert!(forward_turn(true, &deep, &addr("0"), &path).is_none());
}

fn payer_row() -> PeerKeys {
    PeerKeys { node_id: id("uA"), operator: [1u8; 32], ledger: None, role: PeerRole::User }
}

fn forward(hops: Vec<SettleHopV1>) -> SettleForwardV1 {
    SettleForwardV1 {
        order: carried_order(),
        auth: auth(),
        payer_key: payer_row(),
        payer_addr: addr("0.1.3"),
        payee_addr: addr("0.2.4"),
        hops,
    }
}

const TERMINAL: Turn = Turn { index: 2, terminal: true };
const MIDDLE: Turn = Turn { index: 1, terminal: false };

#[test]
fn the_terminal_leaf_knows_its_payee() {
    let step = |turn: Turn, record: Option<NodeRecord>, this: &PeerRef, derivable: bool| {
        check_forward(turn, &record, &forward(vec![]), &signer_addrs(), this, derivable)
    };
    let b = peer("0.2", "B");
    assert!(matches!(
        step(TERMINAL, Some(leaf("0.2", &[("uB", 4)])), &b, true),
        ForwardStep::Apply
    ));
    let refused = step(TERMINAL, Some(leaf("0.2", &[("uB", 5)])), &b, true);
    assert!(matches!(
        &refused,
        ForwardStep::Refuse(SettleRejectV1::IntermediateRejected {
            at,
            reason: OrderRejectV1::NotAChild,
        }) if at == "B"
    ));
    assert!(matches!(
        step(MIDDLE, Some(leaf("0", &[])), &peer("0", "P"), false),
        ForwardStep::Refuse(SettleRejectV1::Malformed)
    ));
    assert!(matches!(step(MIDDLE, None, &peer("0", "P"), true), ForwardStep::Ignore));
    assert!(matches!(
        step(MIDDLE, Some(leaf("0.1", &[])), &peer("0.1", "A"), true),
        ForwardStep::Ignore
    ));
}

#[test]
fn the_payer_row_is_checked_before_it_is_used() {
    let order = carried_order();
    let empty = TextMap::new();
    let plan = |registry: Option<&TextMap<PeerKeys>>, row: &PeerKeys| {
        assemble_settlement_registry(registry, row, &order, &auth())
    };
    assert!(matches!(plan(Some(&empty), &payer_row()), Ok(RegistryPlan::Insert)));
    let refused = |rows: Option<&TextMap<PeerKeys>>| {
        matches!(settle::payer_row(rows, &order), Err(OrderRejectV1::Unauthorized))
    };
    assert!(refused(None));
    assert!(refused(Some(&empty)));
    assert!(refused(Some(&rows(vec![node_row("A", 5, A_KEY)]))));
    let known = rows(vec![node_row("A", 5, A_KEY), payer_row()]);
    assert!(settle::payer_row(Some(&known), &order).unwrap().same(&payer_row()));
    let known = rows(vec![payer_row()]);
    assert!(matches!(plan(Some(&known), &payer_row()), Ok(RegistryPlan::Use)));
    assert!(matches!(plan(None, &payer_row()), Err(OrderRejectV1::Internal)));
    let mut other = payer_row();
    other.operator = [2u8; 32];
    assert!(matches!(plan(Some(&empty), &other), Err(OrderRejectV1::Unauthorized)));
    let clashing = rows(vec![other]);
    assert!(matches!(plan(Some(&clashing), &payer_row()), Err(OrderRejectV1::Unauthorized)));
    let mut node = payer_row();
    node.ledger = Some(A_KEY);
    assert!(matches!(plan(Some(&empty), &node), Err(OrderRejectV1::Unauthorized)));

    let gate = |hops: Vec<SettleHopV1>, insertable: bool| {
        gate_hop(
            Some(rows(vec![node_row("A", 5, A_KEY)])),
            insertable,
            &forward(hops),
            &signer_addrs(),
            &ROLES,
            &addr("0"),
            &P_KEY,
            &vec![at("0.1", "A")],
        )
    };
    let taken = gate(vec![ascend_hop(&order, A_KEY)], true).unwrap();
    assert!(taken.get(&id("uA")).unwrap().same(&payer_row()));
    assert!(matches!(
        gate(vec![ascend_hop(&order, B_KEY)], true),
        Err(OrderRejectV1::Unauthorized)
    ));
    assert!(matches!(
        gate(vec![ascend_hop(&order, A_KEY)], false),
        Err(OrderRejectV1::Unauthorized)
    ));
}

#[test]
fn a_repeated_hop_continues_only_where_it_is_the_same() {
    let order = carried_order();
    let legs = vec![
        posting(AccountRef::Child(id("0.1")), -100),
        posting(AccountRef::Child(id("0.2")), 100),
    ];
    let stored = Some(lca_hop(&order, P_KEY).entry);
    let this = peer("0", "P");
    let outcome = HopOutcome::Duplicate { seq: 4, hash: [5u8; 32] };
    assert!(matches!(
        after_hop(outcome, &stored, &order, HopRole::Lca, &legs, &this),
        AfterHop::Proceed { seq: 4, .. }
    ));
    assert!(entry_matches_hop(stored.as_ref().unwrap(), &order, HopRole::Lca, &legs));
    assert!(!entry_matches_hop(stored.as_ref().unwrap(), &order, HopRole::Descend, &legs));
    assert!(matches!(
        after_hop(
            HopOutcome::Duplicate { seq: 4, hash: [5u8; 32] },
            &stored,
            &order,
            HopRole::Ascend,
            &legs,
            &this
        ),
        AfterHop::Ignore
    ));
    assert!(matches!(
        after_hop(
            HopOutcome::Rejected { reason: OrderRejectV1::InsufficientBalance },
            &None,
            &order,
            HopRole::Lca,
            &legs,
            &this
        ),
        AfterHop::Refuse(SettleRejectV1::IntermediateRejected { .. })
    ));
}

#[test]
fn a_forward_is_handed_on_or_reported() {
    let order = carried_order();
    let entry = || Some(lca_hop(&order, P_KEY).entry);
    let ForwardFinish::Relay { next, forward: sent } = finish_forward(
        MIDDLE,
        forward(vec![ascend_hop(&order, A_KEY)]),
        &signer_addrs(),
        &addr("0"),
        entry(),
        false,
        1,
        ZERO,
        50,
    ) else {
        panic!("expected a relay");
    };
    assert_eq!(next.text(), "0.2");
    assert_eq!(sent.hops.len(), 2);
    assert_eq!(sent.hops[1].signer_addr.text(), "0");

    let finish = |has_proof: bool| {
        finish_forward(
            TERMINAL,
            forward(vec![]),
            &signer_addrs(),
            &addr("0.2"),
            entry(),
            has_proof,
            7,
            [8u8; 32],
            50,
        )
    };
    let ForwardFinish::ReportApplied { origin, notice } = finish(true) else {
        panic!("expected a report");
    };
    assert_eq!(origin.text(), "0.1");
    assert_eq!((notice.entry_seq, notice.amount, notice.issued_at), (7, 100, 50));
    assert_eq!(notice.role, HopRole::Descend);
    assert!(matches!(finish(false), ForwardFinish::Silent));
}

fn pending(reply_v2: bool) -> PendingSettlement {
    PendingSettlement {
        browser: peer("0.1.3", "uA"),
        browser_msg_id: [6u8; 16],
        order: carried_order(),
        auth: auth(),
        payer_addr: addr("0.1.3"),
        payee_addr: addr("0.2.4"),
        payee_leaf_addr: addr("0.2"),
        local_seq: 2,
        local_hash: [3u8; 32],
        deadline_secs: 90,
        reply_v2,
    }
}

fn shown_entry() -> EntryProofV1 {
    let mut entry = lca_hop(&carried_order(), B_KEY).entry;
    entry.entry.seq = 5;
    entry.hash = Some([5u8; 32]);
    EntryProofV1 {
        leaf_addr: addr("0.2"),
        entry,
        signer: node_row("B", 3, B_KEY),
        commitment_key: B_KEY,
        entry_count: 6,
        index: 5,
        tree_size: 6,
    }
}

const SHOWN: ProofChecks =
    ProofChecks { credits_payee: true, well_formed: true, included: true };

fn applied() -> SettleOutcomeV2 {
    SettleOutcomeV2::Applied { terminal_seq: 5, terminal_hash: [5u8; 32], proof: shown_entry() }
}

#[test]
fn a_success_is_believed_only_with_its_proof() {
    assert!(verify_terminal_proof(&shown_entry(), SHOWN, &addr("0.2"), 5, &[5u8; 32]));
    assert!(!verify_terminal_proof(&shown_entry(), SHOWN, &addr("0.1"), 5, &[5u8; 32]));
    assert!(!verify_terminal_proof(&shown_entry(), SHOWN, &addr("0.2"), 4, &[5u8; 32]));
    assert!(!verify_terminal_proof(&shown_entry(), SHOWN, &addr("0.2"), 5, &[6u8; 32]));
    for lacking in [
        ProofChecks { credits_payee: false, ..SHOWN },
        ProofChecks { well_formed: false, ..SHOWN },
        ProofChecks { included: false, ..SHOWN },
    ] {
        assert!(!verify_terminal_proof(&shown_entry(), lacking, &addr("0.2"), 5, &[5u8; 32]));
    }

    let waiting = Some(pending(true));
    let step = handle_settle_result(&waiting, &addr("0.2"), &applied(), SHOWN);
    assert!(matches!(
        step,
        ResultStep::Resolve {
            status: SettlementStatusV2::Applied { entry_seq: 5, .. },
            with_proof: true,
            remember: true,
            with_receipt: true,
        }
    ));
    let lacking = ProofChecks { included: false, ..SHOWN };
    let step = handle_settle_result(&waiting, &addr("0.2"), &applied(), lacking);
    assert!(matches!(
        step,
        ResultStep::Resolve {
            status: SettlementStatusV2::Indeterminate { .. },
            with_proof: false,
            remember: false,
            ..
        }
    ));
    let step = handle_settle_result(&waiting, &addr("0"), &applied(), SHOWN);
    assert!(matches!(step, ResultStep::Ignore), "only the payee's leaf reports a success");
    let step = handle_settle_result(&None, &addr("0.2"), &applied(), SHOWN);
    assert!(matches!(step, ResultStep::Ignore));

    let refused = SettleOutcomeV2::Rejected { reason: SettleRejectV1::Malformed };
    let step = handle_settle_result(&waiting, &addr("0"), &refused, SHOWN);
    assert!(matches!(
        step,
        ResultStep::Resolve { status: SettlementStatusV2::Indeterminate { .. }, remember: true, .. }
    ));
    let step = handle_settle_result(&waiting, &addr("0.7"), &refused, SHOWN);
    assert!(matches!(step, ResultStep::Ignore));
}

#[test]
fn a_settlement_starts_at_the_payers_leaf() {
    let record = leaf("0.1", &[("uA", 3)]);
    let OrderStep::Reserve(start) =
        handle_settlement_order(&record, &id("uA"), &addr("0.2.4"), true)
    else {
        panic!("expected a reservation");
    };
    assert_eq!(start.payer_addr.text(), "0.1.3");
    assert_eq!(start.this_addr.text(), "0.1");
    assert_eq!(start.payee_leaf_addr.text(), "0.2");
    for (payee, derivable) in [("0.2.4", false), ("0.2.4.5", true), ("0.2", true), ("0", true)] {
        assert!(matches!(
            handle_settlement_order(&record, &id("uA"), &addr(payee), derivable),
            OrderStep::Reject(OrderRejectV1::BadRequest)
        ));
    }
    assert!(matches!(
        handle_settlement_order(&record, &id("uX"), &addr("0.2.4"), true),
        OrderStep::Ignore
    ));

    let departure = depart(
        &start,
        &peer("0.1.3", "uA"),
        [6u8; 16],
        &carried_order(),
        &auth(),
        &addr("0.2.4"),
        &payer_row(),
        ascend_hop(&carried_order(), A_KEY).entry,
        2,
        [3u8; 32],
        60,
    );
    assert_eq!(departure.next.text(), "0");
    assert_eq!(departure.forward.hops.len(), 1);
    assert_eq!(departure.forward.hops[0].signer_addr.text(), "0.1");
    assert_eq!(departure.pending.deadline_secs, 60 + SETTLE_TIMEOUT_SECS);
    assert_eq!(format!("{:?}", departure.pending), format!("{:?}", pending(true)));
}

#[test]
fn a_repeated_order_is_told_the_known_end() {
    let known = Some(TerminalOutcome::Applied { seq: 5, hash: [5u8; 32] });
    let again = |terminal: &Option<TerminalOutcome>, in_flight: bool| {
        after_reserve(
            HopOutcome::Duplicate { seq: 2, hash: [3u8; 32] },
            true,
            true,
            terminal,
            in_flight,
        )
    };
    assert!(matches!(
        again(&known, true),
        AfterReserve::Answer(SettlementStatusV2::Duplicate { entry_seq: 5, .. })
    ));
    assert!(matches!(again(&None, true), AfterReserve::Silent));
    assert!(matches!(
        again(&None, false),
        AfterReserve::Answer(SettlementStatusV2::Duplicate { entry_seq: 2, .. })
    ));
    assert!(matches!(
        again(&Some(TerminalOutcome::Rejected(SettleRejectV1::Malformed)), false),
        AfterReserve::Answer(SettlementStatusV2::Indeterminate { .. })
    ));
    let first = |has_evidence: bool, within_bound: bool| {
        after_reserve(
            HopOutcome::Applied { seq: 2, hash: [3u8; 32] },
            has_evidence,
            within_bound,
            &None,
            false,
        )
    };
    assert!(matches!(first(true, true), AfterReserve::Depart { seq: 2, .. }));
    assert!(matches!(first(false, true), AfterReserve::Reject(OrderRejectV1::Internal)));
    assert!(matches!(first(true, false), AfterReserve::Reject(OrderRejectV1::BadRequest)));
}

#[test]
fn overdue_settlements_are_answered() {
    let answers = sweep_settlements(&vec![pending(true), pending(false)]);
    assert_eq!(answers.len(), 2);
    assert_eq!(answers[0].to.text(), "0.1.3");
    assert_eq!(answers[0].reply_to, [6u8; 16]);
    assert_eq!(answers[0].order_hash, [44u8; 32]);
    assert!(matches!(
        answers[0].body,
        OrderReply::V2 { status: SettlementStatusV2::Indeterminate { .. } }
    ));
    assert!(matches!(
        timeout_result(&pending(false)).body,
        OrderReply::V1 { status: OrderStatusV1::Rejected, reason: Some(OrderRejectV1::Internal), .. }
    ));
    let status = SettlementStatusV2::Applied { entry_seq: 5, entry_hash: [5u8; 32] };
    assert!(matches!(answer_pending(&pending(true), status).body, OrderReply::V3 { .. }));
}

#[test]
fn a_relay_keeps_the_message_and_lowers_its_ttl() {
    let env = Envelope {
        src: peer("0.1", "A"),
        dst: addr("0"),
        msg_id: [1u8; 16],
        msg_type: 4,
        nonce: 9,
        payload: vec![1],
        ttl: 3,
        hop_chain: vec![peer("0.1", "A")],
    };
    let path = vec![peer("0.1", "A"), peer("0", "P")];
    let sent = relay_settle_forward(&env, &addr("0.2"), 4, vec![2, 3], path);
    assert_eq!(sent.dst.text(), "0.2");
    assert_eq!((sent.ttl, sent.nonce, sent.msg_id), (2, 9, [1u8; 16]));
    assert_eq!(sent.payload, vec![2, 3]);
    assert_eq!(sent.hop_chain.len(), 2);
    let spent = Envelope { ttl: 0, ..env };
    assert_eq!(relay_settle_forward(&spent, &addr("0.2"), 4, vec![], vec![]).ttl, 0);
}
