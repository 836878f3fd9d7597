//! Orders at the payer's leaf: how they start, how they end, and what the payer
//! is told.
//!
//! A payment to a user of the same leaf is applied at once. A payment across
//! the tree reserves the amount here, sends a cascade on its way and waits for
//! its terminal result or a timeout. No success is told that cannot be shown:
//! a terminal result is accepted only with a proof.
use crate::addr::OctAddr;
use crate::ledger_service::{ApplyOutcome, OrderRejectV1, OrderStatusV1};
use crate::record::NodeRecord;
use crate::settle;
use crate::settle::{
    HopOutcome, SettleForwardV1, SettleHopV1, SettleRejectV1, SettlementStatusV2, Signers,
    SETTLE_TIMEOUT_SECS,
};
use crate::text;
use crate::wire;
use crate::wire::{
    AuthRef, Digest, Envelope, LedgerPubKey, MsgId, PaymentOrder, PeerKeys, PeerRef, PeerRole,
    SignedEntry,
};
use vstd::prelude::*;

verus! {

/// A ledger payload as it arrives at a leaf.
#[derive(Debug)]
pub enum LedgerPayload {
    /// An order of a sender that takes the plain result.
    OrderV1 {
        /// The order.
        order: PaymentOrder,
    },
    /// A user asks for a balance receipt.
    BalanceQuery,
    /// An order of a sender that takes a settlement result.
    OrderV2 {
        /// The order.
        order: PaymentOrder,
    },
    /// A reply that is meant for a user, not for a leaf.
    UserReply,
}

/// What a leaf does with a ledger payload.
#[derive(Debug, Clone, Copy, PartialEq, Eq, Structural)]
pub enum LedgerAction {
    /// Nothing.
    Skip,
    /// Tell the sender that it is no user child here.
    RejectNotAChild,
    /// Apply the order between two users of this leaf.
    ApplySameLeaf {
        /// Whether the sender takes a settlement result.
        reply_v2: bool,
    },
    /// Start a settlement across the tree.
    Settle,
    /// Answer with a signed receipt.
    AnswerBalance,
}

/// Decide what to do with a locally delivered ledger envelope. `payload` is none
/// when it could not be decoded and `record` when it could not be read.
pub fn dispatch_ledger_envelope(
    payload: &Option<LedgerPayload>,
    record: &Option<NodeRecord>,
    src: &PeerRef,
) -> (r: LedgerAction)
    ensures
        r == (match (*payload, *record) {
            (Some(LedgerPayload::OrderV1 { .. }), Some(_)) => LedgerAction::ApplySameLeaf {
                reply_v2: false,
            },
            (Some(LedgerPayload::BalanceQuery), Some(rec)) => if settle::user_at(
                rec,
                src.node@,
                src.addr,
            ) {
                LedgerAction::AnswerBalance
            } else {
                LedgerAction::Skip
            },
            (Some(LedgerPayload::OrderV2 { order }), Some(rec)) => if !settle::user_at(
                rec,
                src.node@,
                src.addr,
            ) {
                LedgerAction::RejectNotAChild
            } else if settle::has_user(rec.children@, order.to@) {
                LedgerAction::ApplySameLeaf { reply_v2: true }
            } else {
                LedgerAction::Settle
            },
            _ => LedgerAction::Skip,
        }),
{
    let payload: &LedgerPayload = match payload {
        Some(payload) => payload,
        None => return LedgerAction::Skip,
    };
    let record: &NodeRecord = match record {
        Some(record) => record,
        None => return LedgerAction::Skip,
    };
    match payload {
        LedgerPayload::OrderV1 { order: _ } => LedgerAction::ApplySameLeaf { reply_v2: false },
        LedgerPayload::BalanceQuery => {
            if settle::user_child_is_at(record, &src.node, &src.addr) {
                LedgerAction::AnswerBalance
            } else {
                LedgerAction::Skip
            }
        },
        LedgerPayload::OrderV2 { order } => {
            if !settle::user_child_is_at(record, &src.node, &src.addr) {
                LedgerAction::RejectNotAChild
            } else if settle::lists_user(record, &order.to) {
                LedgerAction::ApplySameLeaf { reply_v2: true }
            } else {
                LedgerAction::Settle
            }
        },
        LedgerPayload::UserReply => LedgerAction::Skip,
    }
}

/// What the payer is told.
#[derive(Debug)]
#[allow(inconsistent_fields)]
pub enum OrderReply {
    /// The plain result.
    V1 {
        /// How the order ended.
        status: OrderStatusV1,
        /// Sequence number of its entry.
        entry_seq: Option<u64>,
        /// Hash of its entry.
        entry_hash: Option<Digest>,
        /// Why it was refused.
        reason: Option<OrderRejectV1>,
    },
    /// The settlement result without a proof.
    V2 {
        /// Where the settlement stands.
        status: SettlementStatusV2,
    },
    /// The settlement result that may carry a proof.
    V3 {
        /// Where the settlement stands.
        status: SettlementStatusV2,
    },
}

/// The reply to a sender that takes settlement results: a success goes in the
/// format that carries a proof, any other status in the older one.
pub open spec fn spec_settlement_reply(status: SettlementStatusV2) -> OrderReply {
    if settle::claims_success(status) {
        OrderReply::V3 { status }
    } else {
        OrderReply::V2 { status }
    }
}

/// The reply to a sender that takes settlement results.
pub fn settlement_reply(status: SettlementStatusV2) -> (r: OrderReply)
    ensures
        r == spec_settlement_reply(status),
{
    if settle::reply_carries_proof(&status) {
        OrderReply::V3 { status }
    } else {
        OrderReply::V2 { status }
    }
}

/// The coordinates that a status names.
pub open spec fn status_entry(status: SettlementStatusV2) -> (Option<u64>, Option<Digest>) {
    match status {
        SettlementStatusV2::Applied { entry_seq, entry_hash } => (Some(entry_seq), Some(entry_hash)),
        SettlementStatusV2::Duplicate { entry_seq, entry_hash } => (
            Some(entry_seq),
            Some(entry_hash),
        ),
        _ => (None, None),
    }
}

/// The same status for a sender that takes the plain result.
pub fn plain_reply(status: &SettlementStatusV2) -> (r: OrderReply)
    ensures
        r == (OrderReply::V1 {
            status: match *status {
                SettlementStatusV2::Applied { .. } => OrderStatusV1::Applied,
                SettlementStatusV2::Duplicate { .. } => OrderStatusV1::Duplicate,
                _ => OrderStatusV1::Rejected,
            },
            entry_seq: status_entry(*status).0,
            entry_hash: status_entry(*status).1,
            reason: match *status {
                SettlementStatusV2::Partial { failed_at, reason } => Some(reason),
                SettlementStatusV2::Rejected { reason } => Some(reason),
                SettlementStatusV2::Indeterminate { reason } => Some(reason),
                _ => None,
            },
        }),
{
    let (plain, reason) = settle::settlement_status_to_v1(status);
    let (entry_seq, entry_hash): (Option<u64>, Option<Digest>) = match status {
        SettlementStatusV2::Applied { entry_seq, entry_hash } => (
            Some(*entry_seq),
            Some(*entry_hash),
        ),
        SettlementStatusV2::Duplicate { entry_seq, entry_hash } => (
            Some(*entry_seq),
            Some(*entry_hash),
        ),
        _ => (None, None),
    };
    OrderReply::V1 { status: plain, entry_seq, entry_hash, reason }
}

/// The refusal of an order whose sender is no user child here.
pub open spec fn not_a_child() -> ApplyOutcome {
    ApplyOutcome::spec_rejected(OrderRejectV1::NotAChild)
}

/// Whether the sender of a same-leaf order may submit one: the refusal, if not.
pub fn check_sender(record: &NodeRecord, sender: &String) -> (r: Option<ApplyOutcome>)
    ensures
        r == (if settle::has_user(record.children@, sender@) {
            None::<ApplyOutcome>
        } else {
            Some(not_a_child())
        }),
{
    if settle::lists_user(record, sender) {
        None
    } else {
        Some(
            ApplyOutcome {
                status: OrderStatusV1::Rejected,
                entry_seq: None,
                entry_hash: None,
                reason: Some(OrderRejectV1::NotAChild),
            },
        )
    }
}

/// Whether an order is written to the journal: only once its hop has applied,
/// now or before.
pub fn is_journaled(status: OrderStatusV1) -> (r: bool)
    ensures
        r == (status != OrderStatusV1::Rejected),
{
    match status {
        OrderStatusV1::Applied => true,
        OrderStatusV1::Duplicate => true,
        OrderStatusV1::Rejected => false,
    }
}

/// The entry of which a proof is wanted: only for a settlement result, only of
/// an applied entry, only at a leaf with an address.
pub fn wanted_proof(reply_v2: bool, outcome: &ApplyOutcome, addressed: bool) -> (r: Option<u64>)
    ensures
        r == (if reply_v2 && outcome.status != OrderStatusV1::Rejected && addressed {
            outcome.entry_seq
        } else {
            None::<u64>
        }),
{
    if reply_v2 && is_journaled(outcome.status) && addressed {
        outcome.entry_seq
    } else {
        None
    }
}

/// The status that a same-leaf outcome amounts to. Coordinates that are missing
/// read as zero.
pub open spec fn is_same_leaf_status(
    outcome: ApplyOutcome,
    has_proof: bool,
    status: SettlementStatusV2,
) -> bool {
    let seq: u64 = match outcome.entry_seq {
        Some(seq) => seq,
        None => 0,
    };
    match outcome.status {
        OrderStatusV1::Rejected => status == (SettlementStatusV2::Rejected {
            reason: match outcome.reason {
                Some(reason) => reason,
                None => OrderRejectV1::BadRequest,
            },
        }),
        _ => if !has_proof {
            status == (SettlementStatusV2::Indeterminate { reason: OrderRejectV1::Internal })
        } else {
            match (outcome.status, status) {
                (OrderStatusV1::Applied, SettlementStatusV2::Applied { entry_seq, entry_hash }) => {
                    &&& entry_seq == seq
                    &&& outcome.entry_hash matches Some(hash) ==> entry_hash == hash
                    &&& outcome.entry_hash is None ==> wire::is_zero(entry_hash)
                },
                (
                    OrderStatusV1::Duplicate,
                    SettlementStatusV2::Duplicate { entry_seq, entry_hash },
                ) => {
                    &&& entry_seq == seq
                    &&& outcome.entry_hash matches Some(hash) ==> entry_hash == hash
                    &&& outcome.entry_hash is None ==> wire::is_zero(entry_hash)
                },
                _ => false,
            }
        },
    }
}

/// What the sender of a same-leaf order is told. A sender that takes settlement
/// results is told of a success only with a proof: a debit that cannot be shown
/// is reported as indeterminate.
pub fn apply_same_leaf_order(
    outcome: &ApplyOutcome,
    reply_v2: bool,
    has_proof: bool,
) -> (r: OrderReply)
    ensures
        if reply_v2 {
            exists|status: SettlementStatusV2| #[trigger]
                is_same_leaf_status(*outcome, has_proof, status) && r == spec_settlement_reply(
                    status,
                )
        } else {
            r == (OrderReply::V1 {
                status: outcome.status,
                entry_seq: outcome.entry_seq,
                entry_hash: outcome.entry_hash,
                reason: outcome.reason,
            })
        },
{
    if !reply_v2 {
        return OrderReply::V1 {
            status: outcome.status,
            entry_seq: outcome.entry_seq,
            entry_hash: outcome.entry_hash,
            reason: outcome.reason,
        };
    }
    let entry_seq: u64 = match outcome.entry_seq {
        Some(seq) => seq,
        None => 0,
    };
    let entry_hash: Digest = match outcome.entry_hash {
        Some(hash) => hash,
        None => wire::zero_hash(),
    };
    let status: SettlementStatusV2 = match outcome.status {
        OrderStatusV1::Rejected => SettlementStatusV2::Rejected {
            reason: match outcome.reason {
                Some(reason) => reason,
                None => OrderRejectV1::BadRequest,
            },
        },
        OrderStatusV1::Applied => {
            if has_proof {
                SettlementStatusV2::Applied { entry_seq, entry_hash }
            } else {
                SettlementStatusV2::Indeterminate { reason: OrderRejectV1::Internal }
            }
        },
        OrderStatusV1::Duplicate => {
            if has_proof {
                SettlementStatusV2::Duplicate { entry_seq, entry_hash }
            } else {
                SettlementStatusV2::Indeterminate { reason: OrderRejectV1::Internal }
            }
        },
    };
    assert(is_same_leaf_status(*outcome, has_proof, status));
    settlement_reply(status)
}

/// A settlement that waits at its origin.
#[derive(Debug)]
pub struct PendingSettlement {
    /// Whom to answer.
    pub browser: PeerRef,
    /// The message to answer.
    pub browser_msg_id: MsgId,
    /// The order.
    pub order: PaymentOrder,
    /// Its authorisation.
    pub auth: AuthRef,
    /// The payer's address.
    pub payer_addr: OctAddr,
    /// The payee's address.
    pub payee_addr: OctAddr,
    /// The address of the payee's leaf.
    pub payee_leaf_addr: OctAddr,
    /// Sequence number of the reservation.
    pub local_seq: u64,
    /// Its hash.
    pub local_hash: Digest,
    /// Unix seconds after which the settlement times out.
    pub deadline_secs: u64,
    /// Whether the payer takes a settlement result.
    pub reply_v2: bool,
}

/// Where a settlement starts from and leads to.
#[derive(Debug)]
pub struct SettlementStart {
    /// The payer's address.
    pub payer_addr: OctAddr,
    /// This leaf's address.
    pub this_addr: OctAddr,
    /// The payee's leaf.
    pub payee_leaf_addr: OctAddr,
    /// The ledgers on the way.
    pub signers: Signers,
}

/// How a settlement order begins.
#[derive(Debug)]
pub enum OrderStep {
    /// Nothing happens.
    Ignore,
    /// The payer is told of the refusal, nothing was debited.
    Reject(OrderRejectV1),
    /// Apply the reservation.
    Reserve(SettlementStart),
}

/// How the order of a payer at `payer` begins: with a reservation where this
/// leaf's hop can be derived and the two leaves have one parent, and with a
/// refusal otherwise.
pub open spec fn begins_as(
    record: NodeRecord,
    payer: OctAddr,
    payee: OctAddr,
    derivable: bool,
    step: OrderStep,
) -> bool {
    match step {
        OrderStep::Ignore => false,
        OrderStep::Reject(reason) => {
            &&& reason == OrderRejectV1::BadRequest
            &&& !derivable || forall|signers: Signers| !#[trigger]
                settle::is_route(payer, payee, signers)
        },
        OrderStep::Reserve(start) => {
            &&& derivable
            &&& settle::is_route(payer, payee, start.signers)
            &&& start.payer_addr == payer
            &&& start.this_addr == record.address->0
            &&& start.payee_leaf_addr == start.signers.payee_leaf
        },
    }
}

/// Check a settlement order before it touches the ledger. `derivable` says
/// whether this leaf's hop could be derived.
pub fn handle_settlement_order(
    record: &NodeRecord,
    sender: &String,
    payee_addr: &OctAddr,
    derivable: bool,
) -> (r: OrderStep)
    ensures
        if record.address is None || !settle::has_user(record.children@, sender@) {
            r == OrderStep::Ignore
        } else {
            exists|payer: OctAddr| #[trigger]
                settle::user_at(*record, sender@, payer) && begins_as(
                    *record,
                    payer,
                    *payee_addr,
                    derivable,
                    r,
                )
        },
{
    let payer_addr: OctAddr = match settle::user_child_address(record, sender) {
        Some(addr) => addr,
        None => return OrderStep::Ignore,
    };
    proof {
        settle::lemma_addressed_user_is_listed(*record, sender@, payer_addr);
    }
    let this_addr: OctAddr = match &record.address {
        Some(addr) => addr.copied(),
        None => return OrderStep::Ignore,
    };
    let signers: Signers = match settle::expected_signers(&payer_addr, payee_addr) {
        Some(signers) => signers,
        None => return OrderStep::Reject(OrderRejectV1::BadRequest),
    };
    if !derivable {
        return OrderStep::Reject(OrderRejectV1::BadRequest);
    }
    let payee_leaf_addr: OctAddr = signers.payee_leaf.copied();
    OrderStep::Reserve(SettlementStart { payer_addr, this_addr, payee_leaf_addr, signers })
}

/// A cascade that starts, and what waits for its end.
#[derive(Debug)]
pub struct Departure {
    /// The cascade with this leaf's evidence.
    pub forward: SettleForwardV1,
    /// What waits here.
    pub pending: PendingSettlement,
    /// Where the cascade goes first.
    pub next: OctAddr,
}

/// Build the departing cascade and its reservation.
pub fn depart(
    start: &SettlementStart,
    src: &PeerRef,
    msg_id: MsgId,
    order: &PaymentOrder,
    auth: &AuthRef,
    payee_addr: &OctAddr,
    payer_key: &PeerKeys,
    entry: SignedEntry,
    seq: u64,
    hash: Digest,
    now: u64,
) -> (r: Departure)
    requires
        now + SETTLE_TIMEOUT_SECS <= u64::MAX,
    ensures
        r.next == start.signers.common,
        r.forward.order == *order,
        r.forward.auth == *auth,
        r.forward.payer_key == *payer_key,
        r.forward.payer_addr == start.payer_addr,
        r.forward.payee_addr == *payee_addr,
        r.forward.hops@ == seq![SettleHopV1 { signer_addr: start.this_addr, entry }],
        r.pending == (PendingSettlement {
            browser: *src,
            browser_msg_id: msg_id,
            order: *order,
            auth: *auth,
            payer_addr: start.payer_addr,
            payee_addr: *payee_addr,
            payee_leaf_addr: start.payee_leaf_addr,
            local_seq: seq,
            local_hash: hash,
            deadline_secs: (now + SETTLE_TIMEOUT_SECS) as u64,
            reply_v2: true,
        }),
{
    let mut hops: Vec<SettleHopV1> = Vec::new();
    hops.push(SettleHopV1 { signer_addr: start.this_addr.copied(), entry });
    let forward: SettleForwardV1 = SettleForwardV1 {
        order: order.copied(),
        auth: *auth,
        payer_key: payer_key.copied(),
        payer_addr: start.payer_addr.copied(),
        payee_addr: payee_addr.copied(),
        hops,
    };
    let pending: PendingSettlement = PendingSettlement {
        browser: src.copied(),
        browser_msg_id: msg_id,
        order: order.copied(),
        auth: *auth,
        payer_addr: start.payer_addr.copied(),
        payee_addr: payee_addr.copied(),
        payee_leaf_addr: start.payee_leaf_addr.copied(),
        local_seq: seq,
        local_hash: hash,
        deadline_secs: now + SETTLE_TIMEOUT_SECS,
        reply_v2: true,
    };
    Departure { forward, pending, next: start.signers.common.copied() }
}

/// What follows the reservation.
#[derive(Debug)]
pub enum AfterReserve {
    /// The payer is told of the refusal.
    Reject(OrderRejectV1),
    /// Journal the order, keep the reservation and send the cascade.
    Depart {
        /// Sequence number of the reservation.
        seq: u64,
        /// Its hash.
        hash: Digest,
    },
    /// The cascade is still on its way: say nothing, so that its true end can
    /// answer.
    Silent,
    /// Tell the payer where the known settlement stands.
    Answer(SettlementStatusV2),
}

/// How a finished settlement ended.
#[derive(Debug)]
pub enum TerminalOutcome {
    /// The terminal entry applied.
    Applied {
        /// Its sequence number.
        seq: u64,
        /// Its hash.
        hash: Digest,
    },
    /// A later hop refused.
    Rejected(SettleRejectV1),
}

/// The status of a known settlement: that of its cached end, or the bare
/// duplicate of the reservation.
pub open spec fn spec_known_status(
    terminal: Option<TerminalOutcome>,
    seq: u64,
    hash: Digest,
) -> SettlementStatusV2 {
    match terminal {
        Some(TerminalOutcome::Applied { seq, hash }) => SettlementStatusV2::Duplicate {
            entry_seq: seq,
            entry_hash: hash,
        },
        Some(TerminalOutcome::Rejected(reason)) => settle::spec_reject_to_status(reason),
        None => SettlementStatusV2::Duplicate { entry_seq: seq, entry_hash: hash },
    }
}

/// Decide what follows the reservation. `has_evidence` says whether the payer's
/// row and the appended entry could be read back, `within_bound` whether the
/// cascade fits its bounds; `terminal` is the cached end of this payment and
/// `in_flight` says whether it still waits.
pub fn after_reserve(
    outcome: HopOutcome,
    has_evidence: bool,
    within_bound: bool,
    terminal: &Option<TerminalOutcome>,
    in_flight: bool,
) -> (r: AfterReserve)
    ensures
        match outcome {
            HopOutcome::Applied { seq, hash } => if !has_evidence {
                r == AfterReserve::Reject(OrderRejectV1::Internal)
            } else if !within_bound {
                r == AfterReserve::Reject(OrderRejectV1::BadRequest)
            } else {
                r == (AfterReserve::Depart { seq, hash })
            },
            HopOutcome::Duplicate { seq, hash } => if *terminal is None && in_flight {
                r == AfterReserve::Silent
            } else {
                r == AfterReserve::Answer(spec_known_status(*terminal, seq, hash))
            },
            HopOutcome::Rejected { reason } => r == AfterReserve::Reject(reason),
        },
{
    match outcome {
        HopOutcome::Applied { seq, hash } => {
            if !has_evidence {
                AfterReserve::Reject(OrderRejectV1::Internal)
            } else if !within_bound {
                AfterReserve::Reject(OrderRejectV1::BadRequest)
            } else {
                AfterReserve::Depart { seq, hash }
            }
        },
        HopOutcome::Duplicate { seq, hash } => match terminal {
            Some(TerminalOutcome::Applied { seq: end_seq, hash: end_hash }) => AfterReserve::Answer(
                SettlementStatusV2::Duplicate { entry_seq: *end_seq, entry_hash: *end_hash },
            ),
            Some(TerminalOutcome::Rejected(reason)) => AfterReserve::Answer(
                settle::settle_reject_to_status(reason),
            ),
            None => {
                if in_flight {
                    AfterReserve::Silent
                } else {
                    AfterReserve::Answer(
                        SettlementStatusV2::Duplicate { entry_seq: seq, entry_hash: hash },
                    )
                }
            },
        },
        HopOutcome::Rejected { reason } => AfterReserve::Reject(reason),
    }
}

/// A proof that a leaf's ledger holds an entry.
#[derive(Debug)]
pub struct EntryProofV1 {
    /// The leaf.
    pub leaf_addr: OctAddr,
    /// The entry.
    pub entry: SignedEntry,
    /// The registry row of its signer.
    pub signer: PeerKeys,
    /// The ledger key that the commitment names.
    pub commitment_key: LedgerPubKey,
    /// How many entries are committed to.
    pub entry_count: u64,
    /// The position of the entry in the tree.
    pub index: u32,
    /// The size of the tree.
    pub tree_size: u32,
}

/// What the cryptography says of a proof.
#[derive(Debug, Clone, Copy)]
pub struct ProofChecks {
    /// The entry is a terminal credit of the order's payee.
    pub credits_payee: bool,
    /// The proof is well formed and within its bounds.
    pub well_formed: bool,
    /// The entry is included under the committed root.
    pub included: bool,
}

/// The proof shows that the payee's leaf holds this very terminal entry.
pub open spec fn proves_terminal(
    proof: EntryProofV1,
    checks: ProofChecks,
    payee_leaf_addr: OctAddr,
    terminal_seq: u64,
    terminal_hash: Digest,
) -> bool {
    &&& proof.leaf_addr == payee_leaf_addr
    &&& proof.entry.hash == Some(terminal_hash)
    &&& proof.entry.entry.seq == terminal_seq
    &&& checks.credits_payee
    &&& proof.signer.role == PeerRole::Node
    &&& proof.signer.ledger matches Some(key)
    &&& proof.entry.spec_verifies(key)
    &&& proof.commitment_key == key
    &&& checks.well_formed
    &&& proof.entry_count == proof.tree_size
    &&& proof.index < proof.tree_size
    &&& proof.entry.entry.seq < proof.tree_size
    &&& checks.included
}

/// Fully verify a terminal leaf's inclusion proof before the origin accepts a
/// success.
pub fn verify_terminal_proof(
    proof: &EntryProofV1,
    checks: ProofChecks,
    payee_leaf_addr: &OctAddr,
    terminal_seq: u64,
    terminal_hash: &Digest,
) -> (r: bool)
    ensures
        r == proves_terminal(
            *proof,
            checks,
            *payee_leaf_addr,
            terminal_seq,
            *terminal_hash,
        ),
{
    if !proof.leaf_addr.same(payee_leaf_addr) {
        return false;
    }
    let named: bool = match &proof.entry.hash {
        Some(hash) => terminal_seq == proof.entry.entry.seq && text::same32(terminal_hash, hash),
        None => false,
    };
    if !named || !checks.credits_payee || proof.signer.role != PeerRole::Node {
        return false;
    }
    let key: LedgerPubKey = match proof.signer.ledger {
        Some(key) => key,
        None => return false,
    };
    proof.entry.verifies(&key) && text::same32(&proof.commitment_key, &key) && checks.well_formed
        && proof.entry_count == proof.tree_size as u64 && proof.index < proof.tree_size
        && proof.entry.entry.seq < proof.tree_size as u64 && checks.included
}

/// The end of a cascade, as reported to its origin.
#[derive(Debug)]
pub enum SettleOutcomeV2 {
    /// The terminal entry applied.
    Applied {
        /// Its sequence number.
        terminal_seq: u64,
        /// Its hash.
        terminal_hash: Digest,
        /// The proof.
        proof: EntryProofV1,
    },
    /// A hop refused.
    Rejected {
        /// Why.
        reason: SettleRejectV1,
    },
}

/// What the origin makes of a reported end.
#[derive(Debug)]
pub enum ResultStep {
    /// Nothing: the pending settlement stays.
    Ignore,
    /// The settlement is over: forget the pending one and tell the payer.
    Resolve {
        /// Where the settlement stands.
        status: SettlementStatusV2,
        /// Whether the reported proof goes to the payer.
        with_proof: bool,
        /// Whether the reported end is remembered.
        remember: bool,
        /// Whether the payer gets a fresh receipt.
        with_receipt: bool,
    },
}

/// Who may report this end: a success only the payee's leaf, a refusal any of
/// the three ledgers on the way.
pub open spec fn may_report(
    outcome: SettleOutcomeV2,
    src: OctAddr,
    pending: PendingSettlement,
) -> bool {
    match outcome {
        SettleOutcomeV2::Applied { .. } => src == pending.payee_leaf_addr,
        SettleOutcomeV2::Rejected { .. } => exists|signers: Signers| #[trigger]
            settle::is_route(pending.payer_addr, pending.payee_addr, signers) && signers.includes(
                src,
            ),
    }
}

/// Handle the reported end of a cascade at its origin. A success whose proof
/// fails is resolved as indeterminate, since the payer's debit stands, and is
/// not remembered.
pub fn handle_settle_result(
    pending: &Option<PendingSettlement>,
    src: &OctAddr,
    outcome: &SettleOutcomeV2,
    checks: ProofChecks,
) -> (r: ResultStep)
    ensures
        match *pending {
            None => r == ResultStep::Ignore,
            Some(waiting) => if !may_report(*outcome, *src, waiting) {
                r == ResultStep::Ignore
            } else {
                match *outcome {
                    SettleOutcomeV2::Applied { terminal_seq, terminal_hash, proof } => {
                        if proves_terminal(
                            proof,
                            checks,
                            waiting.payee_leaf_addr,
                            terminal_seq,
                            terminal_hash,
                        ) {
                            r == (ResultStep::Resolve {
                                status: SettlementStatusV2::Applied {
                                    entry_seq: terminal_seq,
                                    entry_hash: terminal_hash,
                                },
                                with_proof: true,
                                remember: true,
                                with_receipt: true,
                            })
                        } else {
                            r == (ResultStep::Resolve {
                                status: SettlementStatusV2::Indeterminate {
                                    reason: OrderRejectV1::Internal,
                                },
                                with_proof: false,
                                remember: false,
                                with_receipt: true,
                            })
                        }
                    },
                    SettleOutcomeV2::Rejected { reason } => r == (ResultStep::Resolve {
                        status: settle::spec_reject_to_status(reason),
                        with_proof: false,
                        remember: true,
                        with_receipt: reason is IntermediateRejected || reason is Malformed,
                    }),
                }
            },
        },
{
    let pending: &PendingSettlement = match pending {
        Some(pending) => pending,
        None => return ResultStep::Ignore,
    };
    match outcome {
        SettleOutcomeV2::Applied { terminal_seq, terminal_hash, proof } => {
            if !src.same(&pending.payee_leaf_addr) {
                return ResultStep::Ignore;
            }
            if verify_terminal_proof(
                proof,
                checks,
                &pending.payee_leaf_addr,
                *terminal_seq,
                terminal_hash,
            ) {
                ResultStep::Resolve {
                    status: SettlementStatusV2::Applied {
                        entry_seq: *terminal_seq,
                        entry_hash: *terminal_hash,
                    },
                    with_proof: true,
                    remember: true,
                    with_receipt: true,
                }
            } else {
                ResultStep::Resolve {
                    status: SettlementStatusV2::Indeterminate { reason: OrderRejectV1::Internal },
                    with_proof: false,
                    remember: false,
                    with_receipt: true,
                }
            }
        },
        SettleOutcomeV2::Rejected { reason } => {
            let expected: bool = match settle::expected_signers(
                &pending.payer_addr,
                &pending.payee_addr,
            ) {
                Some(signers) => {
                    proof {
                        assert forall|other: Signers| #[trigger]
                            settle::is_route(
                            pending.payer_addr,
                            pending.payee_addr,
                            other,
                        ) implies other == signers by {
                            settle::law_route_has_three_ledgers(
                                pending.payer_addr,
                                pending.payee_addr,
                                other,
                                signers,
                            );
                        }
                    }
                    signers.contains(src)
                },
                None => false,
            };
            if !expected {
                return ResultStep::Ignore;
            }
            let status: SettlementStatusV2 = settle::settle_reject_to_status(reason);
            let with_receipt: bool = match &status {
                SettlementStatusV2::Rejected { reason: _ } => false,
                _ => true,
            };
            ResultStep::Resolve { status, with_proof: false, remember: true, with_receipt }
        },
    }
}

/// An answer to a waiting payer.
#[derive(Debug)]
pub struct OrderAnswer {
    /// Where to send it.
    pub to: OctAddr,
    /// The message it answers.
    pub reply_to: MsgId,
    /// The payment.
    pub order_hash: Digest,
    /// What it says.
    pub body: OrderReply,
}

/// The answer about a pending settlement, in the format that its payer takes.
pub fn answer_pending(pending: &PendingSettlement, status: SettlementStatusV2) -> (r: OrderAnswer)
    ensures
        r.to == pending.browser.addr,
        r.reply_to == pending.browser_msg_id,
        r.order_hash == pending.order.hash,
        pending.reply_v2 ==> r.body == spec_settlement_reply(status),
        !pending.reply_v2 ==> r.body is V1 && r.body->entry_seq == status_entry(status).0
            && r.body->entry_hash == status_entry(status).1,
        !pending.reply_v2 ==> (r.body->V1_status == OrderStatusV1::Applied <==> status is Applied),
        !pending.reply_v2 ==> (r.body->V1_status == OrderStatusV1::Duplicate
            <==> status is Duplicate),
        !pending.reply_v2 ==> (r.body->reason == match status {
            SettlementStatusV2::Partial { failed_at, reason } => Some(reason),
            SettlementStatusV2::Rejected { reason } => Some(reason),
            SettlementStatusV2::Indeterminate { reason } => Some(reason),
            _ => None,
        }),
{
    let body: OrderReply = if pending.reply_v2 {
        settlement_reply(status)
    } else {
        plain_reply(&status)
    };
    OrderAnswer {
        to: pending.browser.addr.copied(),
        reply_to: pending.browser_msg_id,
        order_hash: pending.order.hash,
        body,
    }
}

/// What a payer is told when its settlement timed out or was evicted. The
/// origin waits only after its own hop applied, so the end is unknown, never a
/// refusal before the debit; a payer that takes the plain result has no other
/// word for it than an internal refusal.
pub open spec fn is_timeout_answer(pending: PendingSettlement, answer: OrderAnswer) -> bool {
    &&& answer.to == pending.browser.addr
    &&& answer.reply_to == pending.browser_msg_id
    &&& answer.order_hash == pending.order.hash
    &&& answer.body == (if pending.reply_v2 {
        OrderReply::V2 {
            status: SettlementStatusV2::Indeterminate { reason: OrderRejectV1::Internal },
        }
    } else {
        OrderReply::V1 {
            status: OrderStatusV1::Rejected,
            entry_seq: None,
            entry_hash: None,
            reason: Some(OrderRejectV1::Internal),
        }
    })
}

/// The answer to a payer whose settlement timed out or was evicted.
pub fn timeout_result(pending: &PendingSettlement) -> (r: OrderAnswer)
    ensures
        is_timeout_answer(*pending, r),
{
    answer_pending(
        pending,
        SettlementStatusV2::Indeterminate { reason: OrderRejectV1::Internal },
    )
}

/// The answers to all payers whose settlements timed out, in order.
pub fn sweep_settlements(expired: &Vec<PendingSettlement>) -> (r: Vec<OrderAnswer>)
    ensures
        r@.len() == expired@.len(),
        forall|i: int|
            0 <= i < r@.len() ==> is_timeout_answer(expired@[i], #[trigger] r@[i]),
{
    let mut answers: Vec<OrderAnswer> = Vec::new();
    let mut i: usize = 0;
    while i < expired.len()
        invariant
            i <= expired@.len(),
            answers@.len() == i,
            forall|j: int|
                0 <= j < i ==> is_timeout_answer(expired@[j], #[trigger] answers@[j]),
        decreases expired@.len() - i,
    {
        answers.push(timeout_result(&expired[i]));
        i = i + 1;
    }
    answers
}

/// The envelope that passes a cascade on: the same message to the next ledger,
/// over a path that names this node, with one forward less.
pub fn relay_settle_forward(
    env: &Envelope,
    next: &OctAddr,
    msg_type: u16,
    payload: Vec<u8>,
    path: Vec<PeerRef>,
) -> (r: Envelope)
    ensures
        r.src == env.src,
        r.dst == *next,
        r.msg_id == env.msg_id,
        r.msg_type == msg_type,
        r.nonce == env.nonce,
        r.payload@ == payload@,
        r.ttl == (if env.ttl == 0 {
            0
        } else {
            env.ttl - 1
        }),
        r.hop_chain@ == path@,
{
    Envelope {
        src: env.src.copied(),
        dst: next.copied(),
        msg_id: env.msg_id,
        msg_type,
        nonce: env.nonce,
        payload,
        ttl: env.ttl.saturating_sub(1),
        hop_chain: path,
    }
}

/// A settlement that begins at a leaf reaches the common parent as its turn,
/// with the leaf's hop carried and the leaf as the whole path.
pub proof fn law_departure_is_the_first_turn(
    record: NodeRecord,
    sender: Seq<char>,
    payer: OctAddr,
    payee: OctAddr,
    start: SettlementStart,
    this: PeerRef,
)
    requires
        settle::user_at(record, sender, payer),
        begins_as(record, payer, payee, true, OrderStep::Reserve(start)),
        this.addr == start.this_addr,
    ensures
        start.this_addr == start.signers.payer_leaf,
        settle::is_turn(1, start.signers.common, seq![this], start.signers),
{
}

/// A payer that takes settlement results hears of a success of a same-leaf
/// order only where a proof goes with it.
pub proof fn law_no_success_without_proof(outcome: ApplyOutcome, status: SettlementStatusV2)
    requires
        is_same_leaf_status(outcome, false, status),
    ensures
        !settle::claims_success(status),
{
}

/// A success is accepted at the origin only where the payee's leaf holds the
/// entry that was reported, under the key that its commitment names.
pub proof fn law_accepted_success_is_shown(
    proof: EntryProofV1,
    checks: ProofChecks,
    leaf: OctAddr,
    seq: u64,
    hash: Digest,
)
    requires
        proves_terminal(proof, checks, leaf, seq, hash),
    ensures
        proof.leaf_addr == leaf,
        proof.signer.ledger == Some(proof.commitment_key),
        proof.entry.spec_verifies(proof.commitment_key),
        proof.entry.hash == Some(hash),
        seq < proof.entry_count,
{
}

/// A remembered end is told to a later submission of the same order without a
/// second debit: an applied end as a duplicate of the terminal entry, a refusal
/// as the refusal that the first submission was told.
pub proof fn law_repeat_tells_the_same_end(
    reason: SettleRejectV1,
    seq: u64,
    hash: Digest,
    end_seq: u64,
    end_hash: Digest,
)
    ensures
        spec_known_status(Some(TerminalOutcome::Rejected(reason)), seq, hash)
            == settle::spec_reject_to_status(reason),
        spec_known_status(
            Some(TerminalOutcome::Applied { seq: end_seq, hash: end_hash }),
            seq,
            hash,
        ) == (SettlementStatusV2::Duplicate { entry_seq: end_seq, entry_hash: end_hash }),
{
}

/// The address at `slot` below `up`.
pub open spec fn below(up: OctAddr, slot: u8) -> OctAddr {
    OctAddr::Child(Box::new(up), slot)
}

/// A refusal ends a settlement whichever of the three ledgers it comes from: the
/// payer's leaf, the parent of both leaves, or the payee's leaf. From any other
/// address it is ignored. What a later hop refused is a partial cascade that
/// names that hop, a malformed cascade leaves the end unknown, and only a refusal
/// before the debit spares the payer a receipt.
pub proof fn law_any_ledger_on_the_way_refuses(
    pending: PendingSettlement,
    common: OctAddr,
    a: u8,
    b: u8,
    s: u8,
    t: u8,
    src: OctAddr,
    reason: SettleRejectV1,
    checks: ProofChecks,
    r: ResultStep,
)
    requires
        a != b,
        pending.payer_addr == below(below(common, a), s),
        pending.payee_addr == below(below(common, b), t),
        call_ensures(
            handle_settle_result,
            (&Some(pending), &src, &(SettleOutcomeV2::Rejected { reason }), checks),
            r,
        ),
    ensures
        r is Resolve <==> src == below(common, a) || src == common || src == below(common, b),
        r matches ResultStep::Resolve { status, with_proof, remember, with_receipt } ==> {
            &&& !with_proof
            &&& remember
            &&& match reason {
                SettleRejectV1::IntermediateRejected { at, reason } => status == (
                SettlementStatusV2::Partial { failed_at: at, reason }) && with_receipt,
                SettleRejectV1::Malformed => status == (SettlementStatusV2::Indeterminate {
                    reason: OrderRejectV1::BadRequest,
                }) && with_receipt,
                SettleRejectV1::PayerRejected => status == (SettlementStatusV2::Rejected {
                    reason: OrderRejectV1::BadRequest,
                }) && !with_receipt,
                SettleRejectV1::RouteTooDeep => status == (SettlementStatusV2::Rejected {
                    reason: OrderRejectV1::BadRequest,
                }) && !with_receipt,
            }
        },
{
    let payer = pending.payer_addr;
    let payee = pending.payee_addr;
    let signers = Signers {
        payer_leaf: below(common, a),
        common,
        payee_leaf: below(common, b),
    };
    assert(settle::is_route(payer, payee, signers));
    assert forall|others: Signers| #[trigger] settle::is_route(payer, payee, others) implies others
        == signers by {
        settle::law_route_has_three_ledgers(payer, payee, others, signers);
    }
    lemma_three_signers(signers, src);
}

proof fn lemma_three_signers(signers: Signers, src: OctAddr)
    ensures
        signers.includes(src) <==> src == signers.payer_leaf || src == signers.common || src
            == signers.payee_leaf,
{
    assert(signers.spec_at(0) == signers.payer_leaf);
    assert(signers.spec_at(1) == signers.common);
    assert(signers.spec_at(2) == signers.payee_leaf);
}

/// Between two users without a common grandparent, or of one leaf, nobody may
/// report a refusal.
pub proof fn law_no_refusal_without_a_route(
    pending: PendingSettlement,
    src: OctAddr,
    reason: SettleRejectV1,
    checks: ProofChecks,
    r: ResultStep,
)
    requires
        forall|common: OctAddr, a: u8, b: u8, s: u8, t: u8|
            a != b ==> !(pending.payer_addr == #[trigger] below(below(common, a), s)
                && pending.payee_addr == #[trigger] below(below(common, b), t)),
        call_ensures(
            handle_settle_result,
            (&Some(pending), &src, &(SettleOutcomeV2::Rejected { reason }), checks),
            r,
        ),
    ensures
        r == ResultStep::Ignore,
{
    let payer = pending.payer_addr;
    let payee = pending.payee_addr;
    assert forall|signers: Signers| !#[trigger] settle::is_route(payer, payee, signers) by {
        if settle::is_route(payer, payee, signers) {
            let a = signers.payer_leaf.spec_slot()->0;
            let b = signers.payee_leaf.spec_slot()->0;
            let s = payer.spec_slot()->0;
            let t = payee.spec_slot()->0;
            assert(payer == below(below(signers.common, a), s));
            assert(payee == below(below(signers.common, b), t));
            assert(a != b);
        }
    }
}

/// What the payee's leaf refuses, before or at its own hop, reaches the payer as
/// a partial cascade that names that leaf and its reason.
pub proof fn law_payee_leaf_refusal_reaches_the_payer(
    turn: settle::Turn,
    record: NodeRecord,
    forward: SettleForwardV1,
    signers: Signers,
    leaf: PeerRef,
    derivable: bool,
    refusal: SettleRejectV1,
    pending: PendingSettlement,
    common: OctAddr,
    a: u8,
    b: u8,
    s: u8,
    t: u8,
    checks: ProofChecks,
    r: ResultStep,
)
    requires
        a != b,
        pending.payer_addr == below(below(common, a), s),
        pending.payee_addr == below(below(common, b), t),
        leaf.addr == below(common, b),
        signers.payer_leaf == below(common, a),
        turn.terminal,
        !settle::has_user(record.children@, forward.order.to@),
        call_ensures(
            settle::check_forward,
            (turn, &Some(record), &forward, &signers, &leaf, derivable),
            settle::ForwardStep::Refuse(refusal),
        ),
        call_ensures(
            handle_settle_result,
            (&Some(pending), &leaf.addr, &(SettleOutcomeV2::Rejected { reason: refusal }), checks),
            r,
        ),
    ensures
        r matches ResultStep::Resolve { status, with_proof, remember, with_receipt } && status == (
        SettlementStatusV2::Partial { failed_at: leaf.node, reason: OrderRejectV1::NotAChild }),
{
    if settle::user_at(record, forward.order.to@, forward.payee_addr) {
        settle::lemma_addressed_user_is_listed(record, forward.order.to@, forward.payee_addr);
    }
    law_any_ledger_on_the_way_refuses(
        pending,
        common,
        a,
        b,
        s,
        t,
        leaf.addr,
        refusal,
        checks,
        r,
    );
}

/// What a ledger after the payer's refused at its hop reaches the payer as a
/// partial cascade that names that ledger and its reason.
pub proof fn law_refused_hop_reaches_the_payer(
    why: OrderRejectV1,
    recovered: Option<SignedEntry>,
    order: PaymentOrder,
    role: wire::HopRole,
    legs: Vec<wire::Posting>,
    ledger: PeerRef,
    refusal: SettleRejectV1,
    pending: PendingSettlement,
    common: OctAddr,
    a: u8,
    b: u8,
    s: u8,
    t: u8,
    checks: ProofChecks,
    r: ResultStep,
)
    requires
        a != b,
        pending.payer_addr == below(below(common, a), s),
        pending.payee_addr == below(below(common, b), t),
        ledger.addr == common || ledger.addr == below(common, b),
        call_ensures(
            settle::after_hop,
            (HopOutcome::Rejected { reason: why }, &recovered, &order, role, &legs, &ledger),
            settle::AfterHop::Refuse(refusal),
        ),
        call_ensures(
            handle_settle_result,
            (&Some(pending), &ledger.addr, &(SettleOutcomeV2::Rejected { reason: refusal }), checks),
            r,
        ),
    ensures
        r matches ResultStep::Resolve { status, with_proof, remember, with_receipt } && status == (
        SettlementStatusV2::Partial { failed_at: ledger.node, reason: why }) && with_receipt,
{
    law_any_ledger_on_the_way_refuses(
        pending,
        common,
        a,
        b,
        s,
        t,
        ledger.addr,
        refusal,
        checks,
        r,
    );
}

/// A reported success is heard only from the payee's leaf. It is believed, and
/// told with its proof, exactly where the proof is that leaf's, holds the very
/// entry that was reported, credits the payee, and is signed by the leaf's own
/// registered ledger key under its commitment. Where it is not believed the end
/// is unknown, and nothing is remembered.
pub proof fn law_success_needs_the_leaf_and_its_proof(
    pending: PendingSettlement,
    src: OctAddr,
    seq: u64,
    hash: Digest,
    proof: EntryProofV1,
    checks: ProofChecks,
    r: ResultStep,
)
    requires
        call_ensures(
            handle_settle_result,
            (
                &Some(pending),
                &src,
                &(SettleOutcomeV2::Applied { terminal_seq: seq, terminal_hash: hash, proof }),
                checks,
            ),
            r,
        ),
    ensures
        src != pending.payee_leaf_addr ==> r == ResultStep::Ignore,
        src == pending.payee_leaf_addr ==> r is Resolve,
        r matches ResultStep::Resolve { status, with_proof, remember, with_receipt } ==> {
            let shown = proof.leaf_addr == src && proof.entry.hash == Some(hash)
                && proof.entry.entry.seq == seq && checks.credits_payee && checks.well_formed
                && checks.included && proof.signer.role == PeerRole::Node && proof.signer.ledger
                == Some(proof.commitment_key) && proof.entry.valid_under@.contains(
                proof.commitment_key,
            ) && proof.entry_count == proof.tree_size && proof.index < proof.tree_size && seq
                < proof.tree_size;
            &&& with_receipt
            &&& with_proof == shown
            &&& remember == shown
            &&& status == (if shown {
                SettlementStatusV2::Applied { entry_seq: seq, entry_hash: hash }
            } else {
                SettlementStatusV2::Indeterminate { reason: OrderRejectV1::Internal }
            })
        },
{
}

/// Without a waiting settlement no report does anything.
pub proof fn law_nothing_waiting_nothing_told(
    src: OctAddr,
    outcome: SettleOutcomeV2,
    checks: ProofChecks,
    r: ResultStep,
)
    requires
        call_ensures(
            handle_settle_result,
            (&None::<PendingSettlement>, &src, &outcome, checks),
            r,
        ),
    ensures
        r == ResultStep::Ignore,
{
}

/// An order that is submitted again after its settlement was refused is told the
/// very status that the refusal was told as; after it applied, it is told of a
/// duplicate of the terminal entry; and while it is on its way, nothing.
pub proof fn law_resubmission_is_told_the_same_end(
    pending: PendingSettlement,
    src: OctAddr,
    reason: SettleRejectV1,
    checks: ProofChecks,
    first: ResultStep,
    seq: u64,
    hash: Digest,
    evidence: bool,
    bound: bool,
    in_flight: bool,
    end_seq: u64,
    end_hash: Digest,
    after_refusal: AfterReserve,
    after_success: AfterReserve,
    meanwhile: AfterReserve,
)
    requires
        call_ensures(
            handle_settle_result,
            (&Some(pending), &src, &(SettleOutcomeV2::Rejected { reason }), checks),
            first,
        ),
        first is Resolve,
        call_ensures(
            after_reserve,
            (
                HopOutcome::Duplicate { seq, hash },
                evidence,
                bound,
                &Some(TerminalOutcome::Rejected(reason)),
                in_flight,
            ),
            after_refusal,
        ),
        call_ensures(
            after_reserve,
            (
                HopOutcome::Duplicate { seq, hash },
                evidence,
                bound,
                &Some(TerminalOutcome::Applied { seq: end_seq, hash: end_hash }),
                in_flight,
            ),
            after_success,
        ),
        call_ensures(
            after_reserve,
            (
                HopOutcome::Duplicate { seq, hash },
                evidence,
                bound,
                &None::<TerminalOutcome>,
                true,
            ),
            meanwhile,
        ),
    ensures
        after_refusal == AfterReserve::Answer(first->status),
        after_success == AfterReserve::Answer(
            SettlementStatusV2::Duplicate { entry_seq: end_seq, entry_hash: end_hash },
        ),
        meanwhile == AfterReserve::Silent,
{
}

/// An order to a user of a sibling leaf reserves at the payer's leaf: the payer
/// sits below this leaf at its slot, and the cascade runs through this leaf, the
/// parent of both leaves and the payee's leaf.
pub proof fn law_sibling_leaf_order_reserves(
    record: NodeRecord,
    k: int,
    sender: String,
    common: OctAddr,
    a: u8,
    b: u8,
    t: u8,
    derivable: bool,
    r: OrderStep,
)
    requires
        record.address == Some(below(common, a)),
        settle::first_user(record.children@, sender@, k),
        call_ensures(
            handle_settlement_order,
            (&record, &sender, &below(below(common, b), t), derivable),
            r,
        ),
    ensures
        a != b && derivable ==> (r matches OrderStep::Reserve(start) && start.payer_addr == below(
            below(common, a),
            record.children@[k].slot,
        ) && start.this_addr == below(common, a) && start.payee_leaf_addr == below(common, b)
            && start.signers.payer_leaf == below(common, a) && start.signers.common == common
            && start.signers.payee_leaf == below(common, b)),
        a == b || !derivable ==> r == OrderStep::Reject(OrderRejectV1::BadRequest),
{
    let children = record.children@;
    assert(children[k].kind == crate::record::ChildKind::User);
    assert(settle::has_user(children, sender@));
    let at = below(below(common, a), children[k].slot);
    assert(settle::user_at(record, sender@, at));
    let payee = below(below(common, b), t);
    let payer = choose|payer: OctAddr| #[trigger]
        settle::user_at(record, sender@, payer) && begins_as(
            record,
            payer,
            payee,
            derivable,
            r,
        );
    settle::lemma_user_address_unique(record, sender@, payer, at);
    if a != b {
        let signers = Signers {
            payer_leaf: below(common, a),
            common,
            payee_leaf: below(common, b),
        };
        assert(settle::is_route(payer, payee, signers));
        if r is Reserve {
            settle::law_route_has_three_ledgers(payer, payee, signers, r->Reserve_0.signers);
        }
    }
}

/// The answer to a settlement goes back to the user that sent the order, as an
/// answer to its message, about its order; and a settlement that departs waits
/// the agreed time and not longer.
pub proof fn law_answer_returns_to_the_sender(
    start: SettlementStart,
    src: PeerRef,
    msg_id: MsgId,
    order: PaymentOrder,
    auth: AuthRef,
    payee_addr: OctAddr,
    payer_key: PeerKeys,
    entry: SignedEntry,
    seq: u64,
    hash: Digest,
    now: u64,
    departure: Departure,
    status: SettlementStatusV2,
    answer: OrderAnswer,
)
    requires
        now + 30 <= u64::MAX,
        call_ensures(
            depart,
            (&start, &src, msg_id, &order, &auth, &payee_addr, &payer_key, entry, seq, hash, now),
            departure,
        ),
        call_ensures(answer_pending, (&departure.pending, status), answer),
    ensures
        answer.to == src.addr,
        answer.reply_to == msg_id,
        answer.order_hash == order.hash,
        answer.body == (if status is Applied || status is Duplicate {
            OrderReply::V3 { status }
        } else {
            OrderReply::V2 { status }
        }),
        departure.pending.deadline_secs == now + 30,
        departure.pending.payer_addr == start.payer_addr,
        departure.pending.payee_addr == payee_addr,
        departure.pending.payee_leaf_addr == start.payee_leaf_addr,
        departure.pending.local_seq == seq && departure.pending.local_hash == hash,
        departure.next == start.signers.common,
        departure.forward.order == order && departure.forward.auth == auth,
        departure.forward.payer_key == payer_key,
        departure.forward.payer_addr == start.payer_addr,
        departure.forward.payee_addr == payee_addr,
        departure.forward.hops@.len() == 1,
        departure.forward.hops@[0].signer_addr == start.this_addr,
        departure.forward.hops@[0].entry == entry,
{
}

/// A settlement that timed out is never told as a success nor as a refusal
/// before the debit: its payer hears that the end is unknown.
pub proof fn law_timeout_is_indeterminate(pending: PendingSettlement, answer: OrderAnswer)
    requires
        call_ensures(timeout_result, (&pending,), answer),
    ensures
        answer.to == pending.browser.addr,
        answer.reply_to == pending.browser_msg_id,
        answer.order_hash == pending.order.hash,
        pending.reply_v2 ==> (answer.body matches OrderReply::V2 { status } && (
        status matches SettlementStatusV2::Indeterminate { reason } && reason
            == OrderRejectV1::Internal)),
        !pending.reply_v2 ==> (answer.body matches OrderReply::V1 {
            status,
            entry_seq,
            entry_hash,
            reason,
        } && status == OrderStatusV1::Rejected && entry_seq is None && entry_hash is None && reason
            == Some(OrderRejectV1::Internal)),
{
}

/// What a sender of either kind is told of a same-leaf order: the plain result
/// repeats the outcome; the settlement result repeats its coordinates under a
/// success that is shown, its reason under a refusal, and calls a success that
/// cannot be shown unknown.
pub proof fn law_same_leaf_reply_repeats_the_outcome(
    outcome: ApplyOutcome,
    has_proof: bool,
    plain: OrderReply,
    full: OrderReply,
)
    requires
        call_ensures(apply_same_leaf_order, (&outcome, false, has_proof), plain),
        call_ensures(apply_same_leaf_order, (&outcome, true, has_proof), full),
    ensures
        plain matches OrderReply::V1 { status, entry_seq, entry_hash, reason } && status
            == outcome.status && entry_seq == outcome.entry_seq && entry_hash == outcome.entry_hash
            && reason == outcome.reason,
        outcome.status == OrderStatusV1::Applied && has_proof && outcome.entry_seq is Some
            && outcome.entry_hash is Some ==> full == (OrderReply::V3 {
            status: SettlementStatusV2::Applied {
                entry_seq: outcome.entry_seq->0,
                entry_hash: outcome.entry_hash->0,
            },
        }),
        outcome.status == OrderStatusV1::Duplicate && has_proof && outcome.entry_seq is Some
            && outcome.entry_hash is Some ==> full == (OrderReply::V3 {
            status: SettlementStatusV2::Duplicate {
                entry_seq: outcome.entry_seq->0,
                entry_hash: outcome.entry_hash->0,
            },
        }),
        outcome.status != OrderStatusV1::Rejected && !has_proof ==> full == (OrderReply::V2 {
            status: SettlementStatusV2::Indeterminate { reason: OrderRejectV1::Internal },
        }),
        outcome.status == OrderStatusV1::Rejected && outcome.reason is Some ==> full == (
        OrderReply::V2 { status: SettlementStatusV2::Rejected { reason: outcome.reason->0 } }),
{
}

/// A ledger message is acted on only by its kind and its sender. An order of the
/// first form is applied here and answered in that form. A balance is told to a
/// user child at its own address alone. An order of the second form is refused to
/// anyone else, applied here where the payee is a user child too, and settled
/// otherwise. Anything that cannot be read, or comes before there is a record, is
/// passed over.
pub proof fn law_ledger_messages_go_by_kind(
    payload: Option<LedgerPayload>,
    record: Option<NodeRecord>,
    src: PeerRef,
    at: bool,
    listed: bool,
    r: LedgerAction,
)
    requires
        call_ensures(dispatch_ledger_envelope, (&payload, &record, &src), r),
        record is Some ==> call_ensures(
            settle::user_child_is_at,
            (&record->0, &src.node, &src.addr),
            at,
        ),
        record is Some ==> (payload matches Some(LedgerPayload::OrderV2 { order }) ==> call_ensures(
            settle::lists_user,
            (&record->0, &order.to),
            listed,
        )),
    ensures
        payload is None || record is None ==> r is Skip,
        record is Some ==> (payload matches Some(said) ==> match said {
            LedgerPayload::OrderV1 { .. } => r == (LedgerAction::ApplySameLeaf { reply_v2: false }),
            LedgerPayload::BalanceQuery => if at { r is AnswerBalance } else { r is Skip },
            LedgerPayload::OrderV2 { .. } => {
                &&& !at <==> r is RejectNotAChild
                &&& at && listed <==> r == (LedgerAction::ApplySameLeaf { reply_v2: true })
                &&& at && !listed <==> r is Settle
            },
            LedgerPayload::UserReply => r is Skip,
        }),
{
}

/// A settlement is answered in the form that carries proof exactly where it says
/// success. In the plain form a success has the entry's place and hash and no
/// reason, and anything else its reason and no entry.
pub proof fn law_answers_show_what_they_claim(
    status: SettlementStatusV2,
    full: OrderReply,
    plain: OrderReply,
)
    requires
        call_ensures(settlement_reply, (status,), full),
        call_ensures(plain_reply, (&status,), plain),
    ensures
        status is Applied || status is Duplicate ==> full == (OrderReply::V3 { status }),
        !(status is Applied || status is Duplicate) ==> full == (OrderReply::V2 { status }),
        plain matches OrderReply::V1 { status: said, entry_seq, entry_hash, reason } && match status {
            SettlementStatusV2::Applied { entry_seq: seq, entry_hash: hash } => said
                == OrderStatusV1::Applied && entry_seq == Some(seq) && entry_hash == Some(hash)
                && reason is None,
            SettlementStatusV2::Duplicate { entry_seq: seq, entry_hash: hash } => said
                == OrderStatusV1::Duplicate && entry_seq == Some(seq) && entry_hash == Some(hash)
                && reason is None,
            SettlementStatusV2::Partial { failed_at, reason: why } => said
                == OrderStatusV1::Rejected && entry_seq is None && entry_hash is None && reason
                == Some(why),
            SettlementStatusV2::Rejected { reason: why } => said == OrderStatusV1::Rejected
                && entry_seq is None && entry_hash is None && reason == Some(why),
            SettlementStatusV2::Indeterminate { reason: why } => said == OrderStatusV1::Rejected
                && entry_seq is None && entry_hash is None && reason == Some(why),
        },
{
}

/// Only a user child's order is taken; anyone else's is rejected as not a child's,
/// with no entry. What was applied, now or before, is journaled, and proof of it is
/// wanted only for an answer that can carry it, from a node with an address.
pub proof fn law_only_user_children_order(
    record: NodeRecord,
    sender: String,
    listed: bool,
    refusal: Option<ApplyOutcome>,
    status: OrderStatusV1,
    journaled: bool,
    reply_v2: bool,
    outcome: ApplyOutcome,
    addressed: bool,
    wanted: Option<u64>,
)
    requires
        call_ensures(settle::lists_user, (&record, &sender), listed),
        call_ensures(check_sender, (&record, &sender), refusal),
        call_ensures(is_journaled, (status,), journaled),
        call_ensures(wanted_proof, (reply_v2, &outcome, addressed), wanted),
    ensures
        refusal is None <==> listed,
        refusal matches Some(told) ==> told.status == OrderStatusV1::Rejected && told.entry_seq
            is None && told.entry_hash is None && told.reason == Some(OrderRejectV1::NotAChild),
        journaled <==> status == OrderStatusV1::Applied || status == OrderStatusV1::Duplicate,
        wanted is Some ==> reply_v2 && addressed && wanted == outcome.entry_seq && outcome.status
            != OrderStatusV1::Rejected,
        reply_v2 && addressed && outcome.status != OrderStatusV1::Rejected ==> wanted
            == outcome.entry_seq,
{
}

/// A terminal proof stands where every part of it does: the payee's leaf, the entry
/// at the place and under the hash that were told, the credit to the payee, a node's
/// key that signed both the entry and the commitment, and the entry's place in a
/// tree of as many leaves as the commitment counts.
pub proof fn law_terminal_proof_stands_in_every_part(
    proof_of: EntryProofV1,
    checks: ProofChecks,
    payee_leaf_addr: OctAddr,
    terminal_seq: u64,
    terminal_hash: Digest,
    r: bool,
)
    requires
        call_ensures(
            verify_terminal_proof,
            (&proof_of, checks, &payee_leaf_addr, terminal_seq, &terminal_hash),
            r,
        ),
    ensures
        proof_of.leaf_addr != payee_leaf_addr ==> !r,
        proof_of.entry.hash != Some(terminal_hash) ==> !r,
        proof_of.entry.entry.seq != terminal_seq ==> !r,
        !checks.credits_payee || !checks.well_formed || !checks.included ==> !r,
        proof_of.signer.role != PeerRole::Node || proof_of.signer.ledger is None ==> !r,
        !proof_of.entry.valid_under@.contains(proof_of.commitment_key) ==> !r,
        proof_of.signer.ledger != Some(proof_of.commitment_key) ==> !r,
        proof_of.entry_count != proof_of.tree_size ==> !r,
        proof_of.index >= proof_of.tree_size ==> !r,
        proof_of.leaf_addr == payee_leaf_addr && proof_of.entry.hash == Some(terminal_hash)
            && proof_of.entry.entry.seq == terminal_seq && checks.credits_payee
            && checks.well_formed && checks.included && proof_of.signer.role == PeerRole::Node
            && proof_of.signer.ledger == Some(proof_of.commitment_key)
            && proof_of.entry.valid_under@.contains(proof_of.commitment_key)
            && proof_of.entry_count == proof_of.tree_size && proof_of.index < proof_of.tree_size
            && terminal_seq < proof_of.tree_size ==> r,
{
}

/// Every settlement that ran out of time is answered to its own sender, and none is
/// answered as done.
pub proof fn law_every_expired_settlement_is_answered(
    expired: Vec<PendingSettlement>,
    r: Vec<OrderAnswer>,
    i: int,
)
    requires
        call_ensures(sweep_settlements, (&expired,), r),
    ensures
        r@.len() == expired@.len(),
        0 <= i < r@.len() ==> {
            let answer = r@[i];
            &&& answer.to == expired@[i].browser.addr
            &&& answer.reply_to == expired@[i].browser_msg_id
            &&& answer.order_hash == expired@[i].order.hash
            &&& answer.body matches OrderReply::V1 { status, .. } ==> status
                == OrderStatusV1::Rejected
            &&& answer.body matches OrderReply::V2 { status } ==> status is Indeterminate
            &&& !(answer.body is V3)
        },
{
}

/// A settlement that is passed on keeps its sender, its name and its nonce, and
/// loses one of its hops to live.
pub proof fn law_relayed_settlement_keeps_its_sender(
    env: Envelope,
    next: OctAddr,
    msg_type: u16,
    payload: Vec<u8>,
    path: Vec<PeerRef>,
    r: Envelope,
)
    requires
        call_ensures(relay_settle_forward, (&env, &next, msg_type, payload, path), r),
    ensures
        r.src == env.src,
        r.dst == next,
        r.msg_id == env.msg_id,
        r.msg_type == msg_type,
        r.nonce == env.nonce,
        r.payload@ == payload@,
        r.hop_chain@ == path@,
        env.ttl > 0 ==> r.ttl + 1 == env.ttl,
        env.ttl == 0 ==> r.ttl == 0,
{
}

/// A payment that was reserved departs under its own entry where the entry can be
/// shown and the route fits its bounds; otherwise it is refused, as internal or as a
/// bad request. One that was reserved before is told its known end, and while it
/// still waits for it nothing. A refused reservation keeps its reason.
pub proof fn law_reservations_depart_or_are_answered(
    outcome: HopOutcome,
    has_evidence: bool,
    within_bound: bool,
    terminal: Option<TerminalOutcome>,
    in_flight: bool,
    r: AfterReserve,
)
    requires
        call_ensures(
            after_reserve,
            (outcome, has_evidence, within_bound, &terminal, in_flight),
            r,
        ),
    ensures
        outcome matches HopOutcome::Applied { seq, hash } ==> {
            &&& r is Depart <==> has_evidence && within_bound
            &&& r matches AfterReserve::Depart { seq: s, hash: h } ==> s == seq && h == hash
            &&& !has_evidence ==> r == AfterReserve::Reject(OrderRejectV1::Internal)
            &&& has_evidence && !within_bound ==> r == AfterReserve::Reject(
                OrderRejectV1::BadRequest,
            )
        },
        outcome matches HopOutcome::Duplicate { seq, hash } ==> {
            &&& r is Silent <==> terminal is None && in_flight
            &&& terminal is None && !in_flight ==> r == AfterReserve::Answer(
                SettlementStatusV2::Duplicate { entry_seq: seq, entry_hash: hash },
            )
            &&& terminal matches Some(TerminalOutcome::Applied { seq: s, hash: h }) ==> r
                == AfterReserve::Answer(
                SettlementStatusV2::Duplicate { entry_seq: s, entry_hash: h },
            )
            &&& terminal matches Some(TerminalOutcome::Rejected(why)) ==> (
            r matches AfterReserve::Answer(told) && !(told is Applied) && !(told is Duplicate))
        },
        outcome matches HopOutcome::Rejected { reason } ==> r == AfterReserve::Reject(reason),
{
}

/// A pending payment is answered to its own sender, in the form it was asked in: in
/// the plain form with the entry's place and hash under a success, and with the
/// reason otherwise.
pub proof fn law_plain_answers_repeat_the_status(
    pending: PendingSettlement,
    status: SettlementStatusV2,
    answer: OrderAnswer,
)
    requires
        !pending.reply_v2,
        call_ensures(answer_pending, (&pending, status), answer),
    ensures
        answer.to == pending.browser.addr,
        answer.reply_to == pending.browser_msg_id,
        answer.order_hash == pending.order.hash,
        answer.body matches OrderReply::V1 { status: said, entry_seq, entry_hash, reason } && match status {
            SettlementStatusV2::Applied { entry_seq: seq, entry_hash: hash } => said
                == OrderStatusV1::Applied && entry_seq == Some(seq) && entry_hash == Some(hash)
                && reason is None,
            SettlementStatusV2::Duplicate { entry_seq: seq, entry_hash: hash } => said
                == OrderStatusV1::Duplicate && entry_seq == Some(seq) && entry_hash == Some(hash)
                && reason is None,
            SettlementStatusV2::Partial { failed_at, reason: why } => said
                == OrderStatusV1::Rejected && entry_seq is None && entry_hash is None && reason
                == Some(why),
            SettlementStatusV2::Rejected { reason: why } => said == OrderStatusV1::Rejected
                && entry_seq is None && entry_hash is None && reason == Some(why),
            SettlementStatusV2::Indeterminate { reason: why } => said == OrderStatusV1::Rejected
                && entry_seq is None && entry_hash is None && reason == Some(why),
        },
{
}

/// A success without coordinates of its own is told at place zero with a hash of
/// zeros, as a success still.
pub proof fn law_success_without_entry_is_told_with_zeros(
    outcome: ApplyOutcome,
    full: OrderReply,
)
    requires
        outcome.status != OrderStatusV1::Rejected,
        outcome.entry_seq is None,
        outcome.entry_hash is None,
        call_ensures(apply_same_leaf_order, (&outcome, true, true), full),
    ensures
        full matches OrderReply::V3 { status } && match status {
            SettlementStatusV2::Applied { entry_seq, entry_hash } => outcome.status
                == OrderStatusV1::Applied && entry_seq == 0 && forall|i: int|
                0 <= i < 32 ==> #[trigger] entry_hash[i] == 0,
            SettlementStatusV2::Duplicate { entry_seq, entry_hash } => outcome.status
                == OrderStatusV1::Duplicate && entry_seq == 0 && forall|i: int|
                0 <= i < 32 ==> #[trigger] entry_hash[i] == 0,
            _ => false,
        },
{
}

} // verus!
