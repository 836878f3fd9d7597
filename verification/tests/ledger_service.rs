use cawala_node::ledger_service::{
    child_kind, direct_endpoints, may_have_receipt, rebuild_consumed, receipt_history,
    reject_reason, self_row, AppendResult, ApplyOutcome, FundError, LedgerError, LedgerService,
    OrderPlan, OrderRejectV1, OrderStatusV1, SelfRow,
};
use cawala_node::record::{ChildEntry, ChildKind, NodeRecord};
use cawala_node::wire::{
    AccountRef, AuthRef, Entry, EntryBody, HopRole, PaymentOrder, PeerKeys, PeerRole, Posting,
    SignedEntry,
};

const NODE: &str = "leaf-node";

fn user(id: &str) -> String {
    id.to_string()
}

fn record_with(users: &[&str]) -> NodeRecord {
    let mut record = NodeRecord::new(user(NODE));
    for (slot, id) in users.iter().enumerate() {
        record.children.push(ChildEntry {
            child_id: user(id),
            kind: ChildKind::User,
            slot: slot as u8,
            date_joined: 0,
        });
    }
    record
}

fn order(from: &str, to: &str, amount: u64, nonce: u64, expiry: u64) -> PaymentOrder {
    let mut hash = [nonce as u8; 32];
    hash[0] = from.len() as u8;
    hash[1] = to.as_bytes()[to.len() - 1];
    hash[2] = amount as u8;
    PaymentOrder { from: user(from), to: user(to), amount, nonce, expiry, hash }
}

fn auth(seed: u8) -> AuthRef {
    AuthRef { operator: [seed; 32], nonce: 0, order_hash: [0u8; 32], signature: [0u8; 64] }
}

/// Sign an entry, as the node's ledger key would.
fn sign(entry: Entry) -> SignedEntry {
    let mut hash = entry.prev_hash;
    hash.rotate_right(1);
    hash[0] = hash[0].wrapping_add(entry.seq as u8 + 1);
    SignedEntry {
        entry,
        hash: Some(hash),
        valid_under: vec![[1u8; 32]],
        conserved: true,
        canonical: true,
    }
}

fn copies(entries: &[SignedEntry]) -> Vec<SignedEntry> {
    entries.iter().map(|one| one.copied()).collect()
}

/// The balance that the log gives a child.
fn balance_of(service: &LedgerService, child: &str) -> i64 {
    let mut sum = 0;
    for signed in service.ledger() {
        for posting in &signed.entry.postings {
            if matches!(&posting.account, AccountRef::Child(id) if id == child) {
                sum += posting.delta;
            }
        }
    }
    sum
}

fn is_open(service: &LedgerService, id: &str) -> bool {
    service.ledger().iter().any(
        |signed| matches!(&signed.entry.body, EntryBody::OpenAccount { child, .. } if child == id),
    )
}

fn open_account(service: &mut LedgerService, id: &str) -> bool {
    let open = is_open(service, id);
    match service.ensure_account_open(open, &user(id), ChildKind::User, 5) {
        None => false,
        Some(entry) => {
            service.note_appended(sign(entry));
            true
        },
    }
}

fn fund(service: &mut LedgerService, to: &str, amount: u64, nonce: u64) -> Result<u64, FundError> {
    let request = service.fund(&user(to), amount, nonce, 1_000)?;
    let entry = service.fund_entry(&request, auth(1), 1_000)?;
    let seq = entry.seq;
    service.note_appended(sign(entry));
    Ok(seq)
}

/// Apply an order against a ledger that checks accounts, balances and times.
fn apply(
    service: &mut LedgerService,
    order: &PaymentOrder,
    sender: &str,
    record: &NodeRecord,
    now: u64,
) -> ApplyOutcome {
    match service.apply_order(order, &auth(11), &user(sender), record, now) {
        OrderPlan::Settled(outcome) => outcome,
        OrderPlan::Append(entry) => {
            let result = if now > order.expiry {
                AppendResult::VerifyFailed(LedgerError::OrderExpired)
            } else if !is_open(service, &order.from) || !is_open(service, &order.to) {
                AppendResult::AppendFailed(LedgerError::AccountNotOpened)
            } else if balance_of(service, &order.from) < order.amount as i64 {
                AppendResult::AppendFailed(LedgerError::InsufficientBalance)
            } else {
                AppendResult::Appended(sign(entry))
            };
            service.complete_order(order, result)
        },
    }
}

fn empty() -> LedgerService {
    LedgerService::open(user(NODE), [1u8; 32], vec![]).unwrap()
}

/// Two open accounts, 100 funded to the first.
fn fixture() -> (LedgerService, NodeRecord, u64) {
    let mut service = empty();
    assert!(open_account(&mut service, "user-a"));
    assert!(open_account(&mut service, "user-b"));
    fund(&mut service, "user-a", 100, 1).unwrap();
    (service, record_with(&["user-a", "user-b"]), 1_000)
}

#[test]
fn open_account_then_fund_then_verify_balance() {
    let mut service = empty();
    assert!(open_account(&mut service, "user-a"));
    assert!(!open_account(&mut service, "user-a"));
    let seq = fund(&mut service, "user-a", 100, 1).unwrap();
    assert_eq!(seq, 1, "seq 0 opens the account, seq 1 issues");
    assert_eq!(balance_of(&service, "user-a"), 100);
    assert_eq!(service.ledger().len(), 2);
    assert_eq!(service.node_id(), NODE);
    assert_eq!(service.ledger_key_public(), [1u8; 32]);
}

#[test]
fn issues_are_checked() {
    let mut service = empty();
    assert_eq!(fund(&mut service, "user-a", 0, 1), Err(FundError::ZeroAmount));
    assert_eq!(fund(&mut service, "user-a", u64::MAX, 1), Err(FundError::AmountTooLarge));
    let request = service.fund(&user("user-a"), 7, 3, u64::MAX - 5).unwrap();
    assert_eq!(request.expiry, u64::MAX);
    assert_eq!((request.node.as_str(), request.amount, request.nonce), (NODE, 7, 3));
    let request = service.fund(&user("user-a"), 7, 3, 1_000).unwrap();
    assert_eq!(request.expiry, 4_600);
}

#[test]
fn apply_valid_direct_transfer_moves_balances() {
    let (mut service, record, now) = fixture();
    let payment = order("user-a", "user-b", 30, 7, now + 100);
    let outcome = apply(&mut service, &payment, "user-a", &record, now);
    assert_eq!(outcome.status, OrderStatusV1::Applied);
    assert_eq!(outcome.entry_seq, Some(3));
    assert!(outcome.entry_hash.is_some());
    assert_eq!(outcome.reason, None);
    assert_eq!(balance_of(&service, "user-a"), 70);
    assert_eq!(balance_of(&service, "user-b"), 30);

    let history = receipt_history(service.ledger(), &user("user-a"), 10).unwrap();
    assert_eq!(history.len(), 1);
    assert_eq!(history[0].from, "user-a");
    assert_eq!(history[0].to, "user-b");
    assert_eq!(history[0].amount, 30);
}

#[test]
fn duplicate_order_is_not_reapplied() {
    let (mut service, record, now) = fixture();
    let payment = order("user-a", "user-b", 30, 7, now + 100);
    let first = apply(&mut service, &payment, "user-a", &record, now);
    assert_eq!(first.status, OrderStatusV1::Applied);
    let len = service.ledger().len();
    let second = apply(&mut service, &payment, "user-a", &record, now);
    assert_eq!(second.status, OrderStatusV1::Duplicate);
    assert_eq!(second.entry_seq, first.entry_seq);
    assert_eq!(second.entry_hash, first.entry_hash);
    assert_eq!(second.reason, None);
    assert_eq!(service.ledger().len(), len, "duplicate must not append");
}

#[test]
fn an_applied_order_stays_applied_behind_later_ones() {
    let (mut service, record, now) = fixture();
    let payment = order("user-a", "user-b", 30, 7, now + 100);
    let first = apply(&mut service, &payment, "user-a", &record, now);
    for nonce in 8..12 {
        let later = order("user-a", "user-b", 5, nonce, now + 100);
        let outcome = apply(&mut service, &later, "user-a", &record, now);
        assert_eq!(outcome.status, OrderStatusV1::Applied);
    }
    let again = apply(&mut service, &payment, "user-a", &record, now);
    assert_eq!(again.status, OrderStatusV1::Duplicate);
    assert_eq!((again.entry_seq, again.entry_hash), (first.entry_seq, first.entry_hash));
}

#[test]
fn a_refused_order_leaves_no_trace_and_can_come_again() {
    let (mut service, record, now) = fixture();
    let payment = order("user-a", "user-b", 30, 7, now + 100);
    let before = format!("{:?}", service.ledger());
    for result in [
        AppendResult::SignFailed,
        AppendResult::RegistryFailed,
        AppendResult::HashFailed,
        AppendResult::VerifyFailed(LedgerError::OrderExpired),
        AppendResult::AppendFailed(LedgerError::AccountNotOpened),
    ] {
        let outcome = service.complete_order(&payment, result);
        assert_eq!(outcome.status, OrderStatusV1::Rejected);
        assert_eq!(format!("{:?}", service.ledger()), before);
    }
    let outcome = apply(&mut service, &payment, "user-a", &record, now);
    assert_eq!(outcome.status, OrderStatusV1::Applied);
}

fn rejected_with(outcome: &ApplyOutcome, reason: OrderRejectV1) -> bool {
    outcome.status == OrderStatusV1::Rejected
        && outcome.reason == Some(reason)
        && outcome.entry_seq.is_none()
        && outcome.entry_hash.is_none()
}

#[test]
fn foreign_sender_is_rejected() {
    let (mut service, record, now) = fixture();
    let payment = order("user-a", "user-b", 10, 1, now + 100);
    let outcome = apply(&mut service, &payment, "user-b", &record, now);
    assert!(rejected_with(&outcome, OrderRejectV1::BadRequest));
}

#[test]
fn malformed_orders_are_rejected() {
    let (mut service, record, now) = fixture();
    for bad in [
        order("user-a", "user-a", 10, 1, now + 100),
        order("user-a", "user-b", 0, 1, now + 100),
        order("user-a", "user-b", u64::MAX, 1, now + 100),
    ] {
        let outcome = apply(&mut service, &bad, "user-a", &record, now);
        assert!(rejected_with(&outcome, OrderRejectV1::BadRequest));
    }
}

#[test]
fn non_child_payee_is_rejected() {
    let (mut service, record, now) = fixture();
    let payment = order("user-a", "stranger", 10, 1, now + 100);
    let outcome = apply(&mut service, &payment, "user-a", &record, now);
    assert!(rejected_with(&outcome, OrderRejectV1::NotAChild));
}

#[test]
fn insufficient_balance_is_rejected_without_appending() {
    let (mut service, record, now) = fixture();
    let len = service.ledger().len();
    let payment = order("user-a", "user-b", 150, 1, now + 100);
    let outcome = apply(&mut service, &payment, "user-a", &record, now);
    assert!(rejected_with(&outcome, OrderRejectV1::InsufficientBalance));
    assert_eq!(service.ledger().len(), len);
    assert_eq!(balance_of(&service, "user-a"), 100);
}

#[test]
fn unopened_payee_account_is_rejected() {
    let mut service = empty();
    open_account(&mut service, "user-a");
    fund(&mut service, "user-a", 100, 1).unwrap();
    let record = record_with(&["user-a", "user-b"]);
    let payment = order("user-a", "user-b", 10, 1, 1_100);
    let outcome = apply(&mut service, &payment, "user-a", &record, 1_000);
    assert!(rejected_with(&outcome, OrderRejectV1::AccountNotOpened));
}

#[test]
fn expired_order_is_rejected() {
    let (mut service, record, now) = fixture();
    let payment = order("user-a", "user-b", 10, 1, now - 1);
    let outcome = apply(&mut service, &payment, "user-a", &record, now);
    assert!(rejected_with(&outcome, OrderRejectV1::Expired));
}

#[test]
fn consumed_index_survives_reopen() {
    let (mut service, record, now) = fixture();
    let payment = order("user-a", "user-b", 30, 7, now + 100);
    assert_eq!(
        apply(&mut service, &payment, "user-a", &record, now).status,
        OrderStatusV1::Applied
    );
    let len = service.ledger().len();
    let mut reopened =
        LedgerService::open(user(NODE), [1u8; 32], copies(service.ledger())).unwrap();
    let outcome = apply(&mut reopened, &payment, "user-a", &record, now);
    assert_eq!(outcome.status, OrderStatusV1::Duplicate);
    assert_eq!(reopened.ledger().len(), len);
}

#[test]
fn refresh_sees_externally_appended_entries() {
    let mut observer = empty();
    assert_eq!(observer.ledger().len(), 0);
    let (external, record, now) = fixture();

    assert!(observer.refresh(copies(external.ledger())));
    let payment = order("user-a", "user-b", 30, 7, now + 100);
    let outcome = apply(&mut observer, &payment, "user-a", &record, now);
    assert_eq!(outcome.status, OrderStatusV1::Applied);
    assert_eq!(outcome.entry_seq, Some(3), "external entries occupy seq 0..2");
    assert_eq!(balance_of(&observer, "user-a"), 70);
    assert_eq!(balance_of(&observer, "user-b"), 30);

    let mut prev = [0u8; 32];
    for (index, signed) in observer.ledger().iter().enumerate() {
        assert_eq!(signed.entry.seq, index as u64);
        assert_eq!(signed.entry.height, index as u64);
        assert_eq!(signed.entry.prev_hash, prev);
        assert_eq!(
            format!("{:?}", observer.entry_at(index as u64).unwrap()),
            format!("{:?}", signed)
        );
        prev = signed.hash.unwrap();
    }
    assert!(observer.entry_at(4).is_none());
}

#[test]
fn refresh_takes_over_an_external_issue() {
    let mut observer = empty();
    let mut external = empty();
    open_account(&mut external, "user-a");
    fund(&mut external, "user-a", 100, 1).unwrap();
    assert!(observer.refresh(copies(external.ledger())));
    assert_eq!(balance_of(&observer, "user-a"), 100);
    fund(&mut external, "user-a", 50, 2).unwrap();
    assert!(observer.refresh(copies(external.ledger())));
    assert_eq!(balance_of(&observer, "user-a"), 150);
    assert!(may_have_receipt(&record_with(&["user-a"]), &user("user-a")));
    assert!(!may_have_receipt(&record_with(&["user-a"]), &user("user-b")));
}

#[test]
fn a_log_that_cannot_be_hashed_is_not_taken_over() {
    let (mut service, _, _) = fixture();
    let mut broken = copies(service.ledger());
    broken[1].hash = None;
    assert!(LedgerService::open(user(NODE), [1u8; 32], copies(&broken)).is_none());
    assert!(!service.refresh(broken));
    assert_eq!(service.ledger().len(), 3);
}

#[test]
fn duplicate_detection_survives_external_append() {
    let (mut service, record, now) = fixture();
    let mut observer =
        LedgerService::open(user(NODE), [1u8; 32], copies(service.ledger())).unwrap();
    let payment = order("user-a", "user-b", 30, 7, now + 100);
    let first = apply(&mut service, &payment, "user-a", &record, now);
    assert_eq!(first.status, OrderStatusV1::Applied);
    let applied_len = service.ledger().len();

    assert!(observer.refresh(copies(service.ledger())));
    let second = apply(&mut observer, &payment, "user-a", &record, now);
    assert_eq!(second.status, OrderStatusV1::Duplicate);
    assert_eq!(second.entry_seq, first.entry_seq);
    assert_eq!(second.entry_hash, first.entry_hash);
    assert_eq!(observer.ledger().len(), applied_len, "duplicate must not append");
    let index = rebuild_consumed(observer.ledger()).unwrap();
    assert_eq!(
        index.get(&payment.hash),
        Some((first.entry_seq.unwrap(), first.entry_hash.unwrap()))
    );
}

#[test]
fn effective_registry_includes_self_without_persisting_it() {
    let service = empty();
    let SelfRow::Add(row) =
        self_row(None, &user(NODE), &[9u8; 32], &service.ledger_key_public())
    else {
        panic!("expected a row to add");
    };
    assert_eq!(row.node_id, NODE);
    assert_eq!(row.ledger, Some(service.ledger_key_public()));
    assert_eq!(row.role, PeerRole::Node);
    assert!(matches!(
        self_row(Some(&row), &user(NODE), &[9u8; 32], &service.ledger_key_public()),
        SelfRow::Present
    ));
    let stale = PeerKeys { ledger: None, ..row };
    assert!(matches!(
        self_row(Some(&stale), &user(NODE), &[9u8; 32], &service.ledger_key_public()),
        SelfRow::Mismatch
    ));
}

#[test]
fn refusals_have_their_reasons() {
    assert_eq!(reject_reason(&LedgerError::OrderExpired), OrderRejectV1::Expired);
    assert_eq!(
        reject_reason(&LedgerError::InsufficientBalance),
        OrderRejectV1::InsufficientBalance
    );
    assert_eq!(reject_reason(&LedgerError::Other), OrderRejectV1::Internal);
    let (mut service, record, now) = fixture();
    let payment = order("user-a", "user-b", 10, 1, now + 100);
    for failed in [
        AppendResult::SignFailed,
        AppendResult::RegistryFailed,
        AppendResult::HashFailed,
    ] {
        let plan = service.apply_order(&payment, &auth(1), &user("user-a"), &record, now);
        assert!(matches!(plan, OrderPlan::Append(_)));
        let outcome = service.complete_order(&payment, failed);
        assert!(rejected_with(&outcome, OrderRejectV1::Internal));
    }
    assert_eq!(service.ledger().len(), 3);
}

#[test]
fn histories_hold_the_latest_direct_transfers_of_the_user() {
    let (mut service, record, now) = fixture();
    for nonce in 1..=4 {
        let payment = order("user-a", "user-b", nonce, nonce, now + 100);
        apply(&mut service, &payment, "user-a", &record, now);
    }
    let history = receipt_history(service.ledger(), &user("user-b"), 2).unwrap();
    assert_eq!(history.iter().map(|notice| notice.amount).collect::<Vec<u64>>(), vec![3, 4]);
    assert!(receipt_history(service.ledger(), &user("user-c"), 2).unwrap().is_empty());
}

#[test]
fn endpoints_are_the_two_child_legs() {
    let leg = |id: &str, delta: i64| Posting { account: AccountRef::Child(user(id)), delta };
    assert_eq!(
        direct_endpoints(&vec![leg("a", -5), leg("b", 5)]),
        Some((user("a"), user("b")))
    );
    assert_eq!(
        direct_endpoints(&vec![Posting { account: AccountRef::Parent, delta: -5 }, leg("b", 5)]),
        None
    );
    assert_eq!(child_kind(&record_with(&["a"]), &user("a")), Some(ChildKind::User));
    assert_eq!(child_kind(&record_with(&["a"]), &user("b")), None);
    let transit = EntryBody::Transfer { payment_id: [0; 32], amount: 1, role: HopRole::Lca };
    assert!(matches!(transit, EntryBody::Transfer { .. }));
}
