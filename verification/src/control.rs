//! The local control engine: the node's links and the judge of who may change
//! them.
//!
//! A signature says which operator key signed; the registry says which node
//! that key speaks for. Neither says that the request is authorised: that is
//! decided here. Topology requests are for the node's own operator and for the
//! senior node child, admin requests for the node's own operator and for keys
//! that hold a grant.
//!
//! Requests that change something are handled in steps. The first step changes
//! the state in memory and says what to save; what the save came to, and what
//! was signed in between, is handed back to the next step.
use crate::addr::{OctAddr, MAX_SLOT};
use crate::admin_store;
use crate::admin_store::{AdminScope, AdminStore, AdminStoreError, SignedAdminGrant};
use crate::control_msg;
use crate::control_msg::{
    AdminPendingJoin, ChildSnapshot, ControlError, ControlReply, ControlRequest, CreateChild,
    DeliveryStatus, JoinApproval, JoinRejection, MoveChild, NodeSnapshot, ParentSnapshot,
    PeerInsertError, RejectCode, SignedControl,
};
use crate::control_store;
use crate::control_store::{ControlStore, JoinRequest, OutboundJoin};
use crate::record;
use crate::record::{ChildEntry, ChildKind, NodeRecord, ParentLink, RecordStore};
use crate::text;
use crate::textmap::TextMap;
use crate::wire;
use crate::wire::{LedgerPubKey, OperatorPubKey, PeerKeys, PeerRole};
use vstd::prelude::*;

verus! {

/// Name of the peer registry file inside the data dir.
pub const PEERS_FILE: &'static str = "ledger_peers.json";

/// Name of the audit log inside the data dir.
pub const CONTROL_AUDIT_FILE: &'static str = "control_audit.jsonl";

/// The most applicants that wait for approval at a time.
pub const MAX_PENDING_JOINS: usize = 64;

/// The most decisions that are kept for redelivery.
pub const MAX_STORED_DECISIONS: usize = 64;

/// Who an authenticated request acts as.
#[derive(Debug, Clone, Copy, PartialEq, Eq, Structural)]
pub enum Authority {
    /// This node's own operator.
    SelfOperator,
    /// An operator with a grant for this node.
    Delegated(AdminScope),
    /// The senior child.
    Peer,
}

/// What a queued frame answers.
#[derive(Debug, Clone, Copy, PartialEq, Eq, Structural)]
pub enum OutboundKind {
    /// A join was approved.
    Approved,
    /// A join was refused.
    Rejected,
}

impl OutboundKind {
    /// The label of the kind.
    pub open spec fn spec_label(self) -> Seq<char> {
        match self {
            OutboundKind::Approved => "join-approved"@,
            OutboundKind::Rejected => "join-rejected"@,
        }
    }

    /// The label for logs and audit lines.
    pub fn label(self) -> (r: &'static str)
        ensures
            r@ == self.spec_label(),
    {
        match self {
            OutboundKind::Approved => "join-approved",
            OutboundKind::Rejected => "join-rejected",
        }
    }
}

/// A frame to be delivered to an applicant.
#[derive(Debug)]
pub struct OutboundControl {
    /// The applicant.
    pub target: String,
    /// The frame.
    pub signed: SignedControl,
    /// What it is.
    pub kind: OutboundKind,
}

/// Bounds of the control protocol.
#[derive(Debug, Clone, Copy)]
pub struct ControlLimits {
    /// The format version that is understood.
    pub format_version: u32,
    /// For how long a request may stand, in seconds.
    pub max_ttl: u64,
    /// For how long requests made here stand, in seconds.
    pub ttl: u64,
    /// The version of admin grants that is understood.
    pub grant_version: u32,
}

/// What the cryptography, the registry and the structural checks say of a
/// request.
#[derive(Debug)]
pub struct Verdicts {
    /// The signature holds under the controller's key.
    pub signature: bool,
    /// Why the registry does not know the controller as the origin's operator;
    /// none when it does.
    pub registration: Option<ControlError>,
    /// The body of the request is well formed.
    pub well_formed: bool,
    /// Why the registry refuses the row that the request brings; none when it
    /// takes it.
    pub insertion: Option<PeerInsertError>,
    /// This node's ledger key, where it can be had.
    pub parent_ledger: Option<LedgerPubKey>,
}

/// Which documents a step has changed.
#[derive(Debug, Clone, Copy, PartialEq, Eq, Structural)]
pub struct Saves {
    /// The node record.
    pub record: bool,
    /// The peer registry.
    pub peers: bool,
    /// The joins in flight.
    pub pending: bool,
}

/// The links as they were before a parent was adopted.
#[derive(Debug)]
pub struct Backup {
    /// The record.
    pub record: RecordStore,
    /// The registry.
    pub peers: TextMap<PeerKeys>,
}

/// What a request came to so far.
#[derive(Debug)]
pub enum Progress {
    /// It is answered.
    Done(ControlReply),
    /// Save what changed; the answer is `then`, or an internal failure.
    Save {
        /// What changed.
        saves: Saves,
        /// The answer.
        then: ControlReply,
    },
    /// Save the record and the registry of the adopted parent link.
    AdoptParent {
        /// What to go back to if that fails.
        backup: Backup,
    },
    /// Save what changed, sign the decision and queue it for delivery.
    Announce {
        /// What changed.
        saves: Saves,
        /// The decision.
        decision: ControlRequest,
        /// The answer.
        then: ControlReply,
    },
}

/// Child `i` is a node child that joined no later than any other, and among
/// those that joined with it has the smallest id.
pub open spec fn senior_at(children: Seq<ChildEntry>, i: int) -> bool {
    &&& 0 <= i < children.len()
    &&& children[i].kind == ChildKind::Node
    &&& forall|j: int|
        0 <= j < children.len() && (#[trigger] children[j]).kind == ChildKind::Node
            ==> children[i].date_joined < children[j].date_joined || (children[i].date_joined
            == children[j].date_joined && !text::text_less(
            children[j].child_id@,
            children[i].child_id@,
        ))
}

/// `id` is the senior node child. User children are never senior.
pub open spec fn is_senior(children: Seq<ChildEntry>, id: Seq<char>) -> bool {
    exists|i: int| #[trigger] senior_at(children, i) && children[i].child_id@ == id
}

proof fn lemma_senior_unique(children: Seq<ChildEntry>, i: int, j: int)
    requires
        senior_at(children, i),
        senior_at(children, j),
    ensures
        children[i].child_id@ == children[j].child_id@,
{
    text::law_text_order(children[i].child_id@, children[j].child_id@, children[i].child_id@);
}

/// There is at most one senior child, and there is one as soon as there is a
/// node child.
pub proof fn law_one_senior_child(children: Seq<ChildEntry>, a: Seq<char>, b: Seq<char>, k: int)
    ensures
        is_senior(children, a) && is_senior(children, b) ==> a == b,
        0 <= k < children.len() && children[k].kind == ChildKind::Node ==> exists|i: int| #[trigger]
            senior_at(children, i),
{
    if is_senior(children, a) && is_senior(children, b) {
        let i = choose|i: int| #[trigger] senior_at(children, i) && children[i].child_id@ == a;
        let j = choose|j: int| #[trigger] senior_at(children, j) && children[j].child_id@ == b;
        lemma_senior_unique(children, i, j);
    }
    if 0 <= k < children.len() && children[k].kind == ChildKind::Node {
        let best = lemma_senior_exists(children, children.len() as int, k);
    }
}

/// `i` is senior among the first `n` children.
spec fn leads(children: Seq<ChildEntry>, n: int, i: int) -> bool {
    &&& 0 <= i < n
    &&& children[i].kind == ChildKind::Node
    &&& forall|j: int|
        0 <= j < n && (#[trigger] children[j]).kind == ChildKind::Node
            ==> children[i].date_joined < children[j].date_joined || (children[i].date_joined
            == children[j].date_joined && !text::text_less(
            children[j].child_id@,
            children[i].child_id@,
        ))
}

proof fn lemma_lead_step(children: Seq<ChildEntry>, n: int, i: int)
    requires
        0 <= n < children.len(),
        leads(children, n, i),
    ensures
        children[n].kind != ChildKind::Node ==> leads(children, n + 1, i),
        children[n].kind == ChildKind::Node && (children[n].date_joined < children[i].date_joined
            || (children[n].date_joined == children[i].date_joined && text::text_less(
            children[n].child_id@,
            children[i].child_id@,
        ))) ==> leads(children, n + 1, n),
        children[n].kind == ChildKind::Node && !(children[n].date_joined < children[i].date_joined
            || (children[n].date_joined == children[i].date_joined && text::text_less(
            children[n].child_id@,
            children[i].child_id@,
        ))) ==> leads(children, n + 1, i),
{
    let a = children[n].child_id@;
    text::law_text_order(a, a, a);
    assert forall|j: int| 0 <= j < n && (#[trigger] children[j]).kind == ChildKind::Node && (
    children[n].date_joined < children[i].date_joined || (children[n].date_joined
        == children[i].date_joined && text::text_less(
        children[n].child_id@,
        children[i].child_id@,
    ))) implies children[n].date_joined < children[j].date_joined || (children[n].date_joined
        == children[j].date_joined && !text::text_less(
        children[j].child_id@,
        children[n].child_id@,
    )) by {
        text::law_text_order(children[j].child_id@, a, children[i].child_id@);
    }
}

proof fn lemma_senior_exists(children: Seq<ChildEntry>, n: int, k: int) -> (best: int)
    requires
        0 <= k < n <= children.len(),
        children[k].kind == ChildKind::Node,
    ensures
        leads(children, n, best),
        n == children.len() ==> senior_at(children, best),
    decreases n,
{
    let last = n - 1;
    let best = if k < last {
        let earlier = lemma_senior_exists(children, last, k);
        lemma_lead_step(children, last, earlier);
        if leads(children, n, earlier) {
            earlier
        } else {
            last
        }
    } else if exists|m: int|
        0 <= m < last && (#[trigger] children[m]).kind == ChildKind::Node {
        let m = choose|m: int| 0 <= m < last && (#[trigger] children[m]).kind == ChildKind::Node;
        let earlier = lemma_senior_exists(children, last, m);
        lemma_lead_step(children, last, earlier);
        if leads(children, n, earlier) {
            earlier
        } else {
            last
        }
    } else {
        text::law_text_order(
            children[last].child_id@,
            children[last].child_id@,
            children[last].child_id@,
        );
        last
    };
    best
}

/// The position of the senior node child.
fn senior_position(children: &Vec<ChildEntry>) -> (r: Option<usize>)
    ensures
        match r {
            Some(i) => senior_at(children@, i as int),
            None => forall|i: int| !#[trigger] senior_at(children@, i),
        },
{
    let mut best: Option<usize> = None;
    let mut n: usize = 0;
    while n < children.len()
        invariant
            n <= children@.len(),
            match best {
                Some(i) => leads(children@, n as int, i as int),
                None => forall|j: int|
                    0 <= j < n ==> (#[trigger] children@[j]).kind != ChildKind::Node,
            },
        decreases children@.len() - n,
    {
        if children[n].kind == ChildKind::Node {
            match best {
                Some(i) => {
                    proof {
                        lemma_lead_step(children@, n as int, i as int);
                    }
                    if children[n].date_joined < children[i].date_joined || (children[n].date_joined
                        == children[i].date_joined && text::text_before(
                        &children[n].child_id,
                        &children[i].child_id,
                    )) {
                        best = Some(n);
                    }
                },
                None => {
                    proof {
                        let a = children@[n as int].child_id@;
                        text::law_text_order(a, a, a);
                    }
                    best = Some(n);
                },
            }
        } else {
            match best {
                Some(i) => {
                    proof {
                        lemma_lead_step(children@, n as int, i as int);
                    }
                },
                None => {},
            }
        }
        n = n + 1;
    }
    best
}

/// Whether `id` is the senior node child.
pub fn is_senior_child(children: &Vec<ChildEntry>, id: &String) -> (r: bool)
    ensures
        r == is_senior(children@, id@),
{
    match senior_position(children) {
        Some(i) => {
            let r: bool = children[i].child_id == *id;
            proof {
                assert(senior_at(children@, i as int));
                if is_senior(children@, id@) {
                    let j = choose|j: int| #[trigger]
                        senior_at(children@, j) && children@[j].child_id@ == id@;
                    lemma_senior_unique(children@, i as int, j);
                }
            }
            r
        },
        None => false,
    }
}

/// The role of a child in the registry.
pub open spec fn spec_role(kind: ChildKind) -> PeerRole {
    match kind {
        ChildKind::Node => PeerRole::Node,
        ChildKind::User => PeerRole::User,
    }
}

fn role_of(kind: ChildKind) -> (r: PeerRole)
    ensures
        r == spec_role(kind),
{
    match kind {
        ChildKind::Node => PeerRole::Node,
        ChildKind::User => PeerRole::User,
    }
}

/// A copy of the registry rows.
fn copied_rows(rows: &TextMap<PeerKeys>) -> (r: TextMap<PeerKeys>)
    requires
        rows.wf(),
    ensures
        r.wf(),
        r@ == rows@,
{
    let mut r: TextMap<PeerKeys> = TextMap::new();
    let mut i: usize = 0;
    while i < rows.keys.len()
        invariant
            rows.wf(),
            r.wf(),
            i <= rows.keys@.len(),
            forall|k: Seq<char>| #[trigger]
                r@.contains_key(k) ==> rows@.contains_key(k) && r@[k] == rows@[k],
            forall|j: int| 0 <= j < i ==> r@.contains_key((#[trigger] rows.keys@[j])@),
        decreases rows.keys@.len() - i,
    {
        proof {
            rows.lemma_entry(i as int);
        }
        r.insert(rows.keys[i].clone(), rows.values[i].copied());
        i = i + 1;
    }
    proof {
        assert forall|k: Seq<char>| #[trigger] rows@.contains_key(k) implies r@.contains_key(k) by {
            let j = choose|j: int| 0 <= j < rows.keys@.len() && (#[trigger] rows.keys@[j])@ == k;
            assert(r@.contains_key(rows.keys@[j]@));
        }
        assert(r@ =~= rows@);
    }
    r
}

/// The contents of the engine.
#[verifier::ext_equal]
pub ghost struct ControlState {
    pub node_id: Seq<char>,
    pub operator: OperatorPubKey,
    pub record: record::RecordState,
    pub peers: Map<Seq<char>, PeerKeys>,
    pub queue: Seq<JoinRequest>,
    pub asked: Option<OutboundJoin>,
    pub admins: Seq<SignedAdminGrant>,
    pub outbound: Seq<OutboundControl>,
    pub decisions: Seq<SignedControl>,
}

/// The child that a decision answers.
pub open spec fn decision_target(signed: SignedControl) -> Option<Seq<char>> {
    match signed.request {
        ControlRequest::JoinApproved(approval) => Some(approval.child@),
        ControlRequest::JoinRejected(rejection) => Some(rejection.child@),
        _ => None,
    }
}

/// The stored decisions: each answers a join, each another child's, and not too
/// many.
pub open spec fn decisions_ok(decisions: Seq<SignedControl>) -> bool {
    &&& decisions.len() <= MAX_STORED_DECISIONS
    &&& forall|i: int|
        0 <= i < decisions.len() ==> decision_target(#[trigger] decisions[i]) is Some
    &&& forall|i: int, j: int|
        0 <= i < j < decisions.len() ==> decision_target(#[trigger] decisions[i])
            != decision_target(#[trigger] decisions[j])
}

/// The local control engine.
#[derive(Debug)]
pub struct ControlNode {
    node_id: String,
    operator: OperatorPubKey,
    record: RecordStore,
    peers: TextMap<PeerKeys>,
    pending: ControlStore,
    admins: AdminStore,
    outbound: Vec<OutboundControl>,
    decisions: Vec<SignedControl>,
}

impl View for ControlNode {
    type V = ControlState;

    closed spec fn view(&self) -> ControlState {
        ControlState {
            node_id: self.node_id@,
            operator: self.operator,
            record: self.record@,
            peers: self.peers@,
            queue: self.pending.queue(),
            asked: self.pending.asked(),
            admins: self.admins@,
            outbound: self.outbound@,
            decisions: self.decisions@,
        }
    }
}

impl ControlState {
    /// The record is valid, at most one join is queued per applicant and one
    /// grant stored per key, and the stored decisions are in order.
    pub open spec fn ok(self) -> bool {
        &&& self.record.valid()
        &&& control_store::distinct_nodes(self.queue)
        &&& admin_store::distinct_admins(self.admins)
        &&& decisions_ok(self.decisions)
    }

    /// Who may change the topology: the node's own operator under its own id,
    /// and the senior child as the registry knows it.
    pub open spec fn authority(self, signed: SignedControl, verdicts: Verdicts) -> Result<
        Authority,
        RejectCode,
    > {
        if signed.origin@ == self.node_id {
            if signed.controller == self.operator && verdicts.signature {
                Ok(Authority::SelfOperator)
            } else {
                Err(RejectCode::Unauthorized)
            }
        } else if !is_senior(self.record.children, signed.origin@) {
            Err(RejectCode::Unauthorized)
        } else {
            match verdicts.registration {
                Some(err) => Err(control_msg::control_code(err)),
                None => Ok(Authority::Peer),
            }
        }
    }

    /// Who may use the admin surface, which is addressed to this node itself:
    /// its own operator, or a key with a grant that holds now.
    pub open spec fn is_admin_authority(
        self,
        signed: SignedControl,
        now: u64,
        got: Result<Authority, RejectCode>,
    ) -> bool {
        if signed.origin@ != self.node_id || !signed.request.spec_is_admin() {
            got == Err::<Authority, RejectCode>(RejectCode::Unauthorized)
        } else if signed.controller == self.operator {
            got == Ok::<Authority, RejectCode>(Authority::SelfOperator)
        } else {
            match got {
                Ok(Authority::Delegated(scope)) => admin_store::is_active(
                    self.admins,
                    signed.controller,
                    now,
                    scope,
                ),
                Err(RejectCode::Unauthorized) => forall|scope: AdminScope|
                    !#[trigger] admin_store::is_active(self.admins, signed.controller, now, scope),
                _ => false,
            }
        }
    }
}

/// The request is refused and nothing changes.
pub open spec fn refused(
    pre: ControlState,
    post: ControlState,
    r: Progress,
    code: RejectCode,
) -> bool {
    post == pre && r == Progress::Done(ControlReply::Rejected(code))
}

/// The snapshot shows the node and its record: the parent where both the link
/// and an address are there, and each child with its derived address.
pub open spec fn is_snapshot(
    node_id: Seq<char>,
    state: record::RecordState,
    shown: NodeSnapshot,
) -> bool {
    &&& shown.node_id@ == node_id
    &&& shown.address == state.address
    &&& match (state.parent, state.address) {
        (Some(link), Some(OctAddr::Child(up, _))) => {
            &&& shown.parent matches Some(parent)
            &&& parent.node_id == link.parent_id
            &&& parent.slot == link.slot
            &&& parent.address == *up
        },
        _ => shown.parent is None,
    }
    &&& shown.children@.len() == state.children.len()
    &&& forall|i: int|
        0 <= i < state.children.len() ==> is_child_shown(
            state.children[i],
            state.address,
            #[trigger] shown.children@[i],
        )
}

/// The child as shown.
pub open spec fn is_child_shown(
    child: ChildEntry,
    address: Option<OctAddr>,
    shown: ChildSnapshot,
) -> bool {
    &&& shown.child_id == child.child_id
    &&& shown.kind == child.kind
    &&& shown.slot == child.slot
    &&& shown.date_joined == child.date_joined
    &&& shown.address == (match address {
        Some(up) => Some(OctAddr::Child(Box::new(up), child.slot)),
        None => None,
    })
}

/// How a join request is met.
pub ghost enum JoinStep {
    Refuse(RejectCode),
    AlreadyQueued,
    Queue,
}

/// A join request must be the applicant's own, well formed and in time; then it
/// is queued once, while there is a slot for it and room in the queue.
pub open spec fn join_step(
    pre: ControlState,
    signed: SignedControl,
    join: JoinRequest,
    now: u64,
    verdicts: Verdicts,
) -> JoinStep {
    if !verdicts.signature || signed.controller != join.operator || signed.origin@ != join.node@ {
        JoinStep::Refuse(RejectCode::Unauthorized)
    } else if !verdicts.well_formed || now > join.expiry {
        JoinStep::Refuse(RejectCode::BadRequest)
    } else if control_store::is_queued(pre.queue, join.node@) {
        JoinStep::AlreadyQueued
    } else if join.desired_slot matches Some(slot) && record::slot_taken(
        pre.record.children,
        slot as int,
    ) {
        JoinStep::Refuse(RejectCode::SlotTaken)
    } else if join.desired_slot is None && (forall|s: int|
        0 <= s <= MAX_SLOT ==> #[trigger] record::slot_taken(pre.record.children, s)) {
        JoinStep::Refuse(RejectCode::Capacity)
    } else if pre.queue.len() >= MAX_PENDING_JOINS {
        JoinStep::Refuse(RejectCode::Capacity)
    } else {
        JoinStep::Queue
    }
}

/// What a join request comes to.
pub open spec fn joins(
    pre: ControlState,
    signed: SignedControl,
    join: JoinRequest,
    now: u64,
    verdicts: Verdicts,
    post: ControlState,
    r: Progress,
) -> bool {
    match join_step(pre, signed, join, now, verdicts) {
        JoinStep::Refuse(code) => refused(pre, post, r, code),
        JoinStep::AlreadyQueued => post == pre && r == Progress::Done(ControlReply::Pending),
        JoinStep::Queue => {
            &&& post == (ControlState { queue: pre.queue.push(join), ..pre })
            &&& r == (Progress::Save {
                saves: Saves { record: false, peers: false, pending: true },
                then: ControlReply::Pending,
            })
        },
    }
}

/// The row for an approving parent.
pub open spec fn parent_row(signed: SignedControl, approval: JoinApproval) -> PeerKeys {
    PeerKeys {
        node_id: signed.origin,
        operator: signed.controller,
        ledger: Some(approval.parent_ledger),
        role: PeerRole::Node,
    }
}

/// The registry with the approving parent in it. An equal row stays; a row of
/// the same operator and role takes the new ledger key; any other row is a
/// conflict.
pub open spec fn with_parent_row(
    peers: Map<Seq<char>, PeerKeys>,
    row: PeerKeys,
    insertion: Option<PeerInsertError>,
) -> Result<Map<Seq<char>, PeerKeys>, RejectCode> {
    let id = row.node_id@;
    if peers.contains_key(id) {
        let existing = peers[id];
        if existing.same_row(row) {
            Ok(peers)
        } else if existing.operator == row.operator && existing.role == row.role {
            if insertion is Some {
                Err(RejectCode::Unauthorized)
            } else {
                Ok(peers.insert(id, PeerKeys { ledger: row.ledger, ..existing }))
            }
        } else {
            Err(RejectCode::Unauthorized)
        }
    } else if insertion is Some {
        Err(RejectCode::Unauthorized)
    } else {
        Ok(peers.insert(id, row))
    }
}

/// Why an approval is not for the join that this node has asked for.
pub open spec fn approval_fault(
    asked: Option<OutboundJoin>,
    signed: SignedControl,
    approval: JoinApproval,
    verdicts: Verdicts,
) -> Option<RejectCode> {
    if !verdicts.signature {
        Some(RejectCode::Unauthorized)
    } else {
        match asked {
            None => Some(RejectCode::NotAttached),
            Some(join) => if join.parent@ != signed.origin@ || join.request.node@ != approval.child@
                || approval.nonce != join.request.nonce || (join.pinned_operator matches Some(key)
                && signed.controller != key) {
                Some(RejectCode::Unauthorized)
            } else if wire::is_zero(approval.parent_ledger) {
                Some(RejectCode::BadRequest)
            } else {
                None
            },
        }
    }
}

/// The record with the approving parent's link, before the address is set.
pub open spec fn with_parent_link(
    state: record::RecordState,
    signed: SignedControl,
    approval: JoinApproval,
) -> record::RecordState {
    record::RecordState {
        parent: Some(
            ParentLink { parent_id: signed.origin, slot: approval.slot, generation: 0 },
        ),
        ..state
    }
}

/// What an approval comes to: it must answer the join that this node has asked
/// for, by its nonce and, where an invite pinned it, by the parent's key. Then
/// the link, the address and the parent's row are taken over together.
pub open spec fn adopts(
    pre: ControlState,
    signed: SignedControl,
    approval: JoinApproval,
    verdicts: Verdicts,
    post: ControlState,
    r: Progress,
) -> bool {
    let linked = with_parent_link(pre.record, signed, approval);
    let placed = linked.with_address(Some(approval.address));
    match approval_fault(pre.asked, signed, approval, verdicts) {
        Some(code) => refused(pre, post, r, code),
        None => if linked.fault() is Some {
            refused(pre, post, r, control_msg::record_code(linked.fault()->0))
        } else if placed.fault() is Some {
            refused(pre, post, r, control_msg::record_code(placed.fault()->0))
        } else {
            match with_parent_row(pre.peers, parent_row(signed, approval), verdicts.insertion) {
                Err(code) => refused(pre, post, r, code),
                Ok(rows) => {
                    &&& post == (ControlState { record: placed, peers: rows, ..pre })
                    &&& r matches Progress::AdoptParent { backup }
                    &&& backup.record@ == pre.record
                    &&& backup.peers@ == pre.peers
                    &&& backup.peers.wf()
                },
            }
        },
    }
}

/// What a refusal of the outbound join comes to. A refusal that the pinned key
/// did not sign cancels nothing.
pub open spec fn abandons(
    pre: ControlState,
    signed: SignedControl,
    verdicts: Verdicts,
    post: ControlState,
    r: Progress,
) -> bool {
    if !verdicts.signature {
        refused(pre, post, r, RejectCode::Unauthorized)
    } else if !verdicts.well_formed {
        refused(pre, post, r, RejectCode::BadRequest)
    } else {
        match pre.asked {
            None => post == pre && r == Progress::Done(ControlReply::Accepted),
            Some(join) => if join.parent@ != signed.origin@ || (join.pinned_operator matches Some(
                key,
            ) && signed.controller != key) {
                refused(pre, post, r, RejectCode::Unauthorized)
            } else {
                &&& post == (ControlState { asked: None, ..pre })
                &&& r == (Progress::Save {
                    saves: Saves { record: false, peers: false, pending: true },
                    then: ControlReply::Accepted,
                })
            },
        }
    }
}

/// The slot that a child gets, or the code it is refused with.
pub open spec fn attach_got(
    state: record::RecordState,
    child: Seq<char>,
    slot: Option<u8>,
    got: Result<u8, RejectCode>,
) -> bool {
    match got {
        Ok(s) => RecordStore::spec_attach(state, child, slot, Ok::<u8, record::RecordFault>(s)),
        Err(code) => exists|fault: record::RecordFault| #[trigger]
            RecordStore::spec_attach(state, child, slot, Err::<u8, record::RecordFault>(fault))
                && code == control_msg::record_code(fault),
    }
}

/// The row that a new child brings.
pub open spec fn child_row(create: CreateChild) -> PeerKeys {
    PeerKeys {
        node_id: create.child,
        operator: create.operator,
        ledger: create.ledger,
        role: spec_role(create.kind),
    }
}

/// What attaching a child comes to, once it is authorised: the record and the
/// registry change together or not at all.
pub open spec fn creates(
    pre: ControlState,
    create: CreateChild,
    verdicts: Verdicts,
    got: Result<u8, RejectCode>,
    post: ControlState,
    r: Progress,
) -> bool {
    &&& attach_got(pre.record, create.child@, create.slot, got)
    &&& match got {
        Err(code) => refused(pre, post, r, code),
        Ok(slot) => match verdicts.insertion {
            Some(err) => refused(pre, post, r, control_msg::insert_code(err)),
            None => {
                &&& post == (ControlState {
                    record: pre.record.with_child(
                        ChildEntry {
                            child_id: create.child,
                            kind: create.kind,
                            slot,
                            date_joined: create.date_joined,
                        },
                    ),
                    peers: pre.peers.insert(create.child@, child_row(create)),
                    ..pre
                })
                &&& r == (Progress::Save {
                    saves: Saves { record: true, peers: true, pending: false },
                    then: ControlReply::Accepted,
                })
            },
        },
    }
}

/// Child `i` is the first one named `id`.
pub open spec fn first_child(children: Seq<ChildEntry>, id: Seq<char>, i: int) -> bool {
    &&& 0 <= i < children.len()
    &&& children[i].child_id@ == id
    &&& forall|j: int| 0 <= j < i ==> (#[trigger] children[j]).child_id@ != id
}

/// The record without child `i`.
pub open spec fn without_child(state: record::RecordState, i: int) -> record::RecordState {
    record::RecordState { children: state.children.remove(i), ..state }
}

/// The answer to a change of the record alone.
pub open spec fn record_saved() -> Progress {
    Progress::Save {
        saves: Saves { record: true, peers: false, pending: false },
        then: ControlReply::Accepted,
    }
}

/// What removing a child comes to, once it is authorised. Its registry row
/// stays.
pub open spec fn detaches(
    pre: ControlState,
    child: Seq<char>,
    post: ControlState,
    r: Progress,
) -> bool {
    if !record::has_child(pre.record.children, child) {
        refused(pre, post, r, RejectCode::NotFound)
    } else {
        exists|i: int| #[trigger]
            first_child(pre.record.children, child, i) && post == (ControlState {
                record: without_child(pre.record, i),
                ..pre
            }) && r == record_saved()
    }
}

/// What re-slotting child `i` comes to: it keeps its kind and the date of its
/// joining and goes to the end of the list.
pub open spec fn reslots(
    pre: ControlState,
    moved: MoveChild,
    i: int,
    got: Result<u8, RejectCode>,
    post: ControlState,
    r: Progress,
) -> bool {
    let base = without_child(pre.record, i);
    &&& attach_got(base, moved.child@, moved.slot, got)
    &&& match got {
        Err(code) => refused(pre, post, r, code),
        Ok(slot) => {
            &&& post == (ControlState {
                record: base.with_child(
                    ChildEntry {
                        child_id: moved.child,
                        kind: pre.record.children[i].kind,
                        slot,
                        date_joined: pre.record.children[i].date_joined,
                    },
                ),
                ..pre
            })
            &&& r == record_saved()
        },
    }
}

/// What moving a child comes to, once it is authorised: only re-slotting below
/// this node is supported.
pub open spec fn moves(
    pre: ControlState,
    moved: MoveChild,
    post: ControlState,
    r: Progress,
) -> bool {
    if moved.new_parent@ != pre.node_id {
        refused(pre, post, r, RejectCode::BadRequest)
    } else if !record::has_child(pre.record.children, moved.child@) {
        refused(pre, post, r, RejectCode::NotFound)
    } else {
        exists|i: int, got: Result<u8, RejectCode>|
            first_child(pre.record.children, moved.child@, i) && #[trigger] reslots(
                pre,
                moved,
                i,
                got,
                post,
                r,
            )
    }
}

/// What setting the address comes to, once it is authorised.
pub open spec fn readdresses(
    pre: ControlState,
    address: Option<OctAddr>,
    post: ControlState,
    r: Progress,
) -> bool {
    let next = pre.record.with_address(address);
    match next.fault() {
        Some(fault) => refused(pre, post, r, control_msg::record_code(fault)),
        None => post == (ControlState { record: next, ..pre }) && r == record_saved(),
    }
}

impl ControlNode {
    /// The registry is in order.
    pub closed spec fn rows_ok(&self) -> bool {
        self.peers.wf()
    }

    /// The engine is in order.
    pub open spec fn wf(&self) -> bool {
        self.rows_ok() && self@.ok()
    }

    /// Build an engine from stores that are already open.
    pub fn new(
        node_id: String,
        operator: OperatorPubKey,
        record: RecordStore,
        peers: TextMap<PeerKeys>,
        pending: ControlStore,
        admins: AdminStore,
    ) -> (r: ControlNode)
        requires
            record.wf(),
            peers.wf(),
            pending.wf(),
            admins.wf(),
        ensures
            r.wf(),
            r@ == (ControlState {
                node_id: node_id@,
                operator,
                record: record@,
                peers: peers@,
                queue: pending.queue(),
                asked: pending.asked(),
                admins: admins@,
                outbound: Seq::empty(),
                decisions: Seq::empty(),
            }),
    {
        ControlNode {
            node_id,
            operator,
            record,
            peers,
            pending,
            admins,
            outbound: Vec::new(),
            decisions: Vec::new(),
        }
    }

    /// This node's id.
    pub fn node_id(&self) -> (r: &String)
        ensures
            r@ == self@.node_id,
    {
        &self.node_id
    }

    /// This node's record.
    pub fn record(&self) -> (r: &NodeRecord)
        ensures
            r@ == self@.record,
    {
        self.record.record()
    }

    /// This node's peer registry.
    pub fn peers(&self) -> (r: &TextMap<PeerKeys>)
        requires
            self.wf(),
        ensures
            r@ == self@.peers,
            r.wf(),
    {
        &self.peers
    }

    /// The joins in flight.
    pub fn pending(&self) -> (r: &ControlStore)
        ensures
            r.queue() == self@.queue,
            r.asked() == self@.asked,
    {
        &self.pending
    }

    /// The admin grants.
    pub fn admins(&self) -> (r: &AdminStore)
        ensures
            r@ == self@.admins,
    {
        &self.admins
    }

    /// This node's operator key.
    pub fn operator_public(&self) -> (r: OperatorPubKey)
        ensures
            r == self@.operator,
    {
        self.operator
    }

    /// Take the frames that are queued for delivery.
    pub fn take_outbound(&mut self) -> (r: Vec<OutboundControl>)
        requires
            old(self).wf(),
        ensures
            final(self).wf(),
            r@ == old(self)@.outbound,
            final(self)@ == (ControlState { outbound: Seq::empty(), ..old(self)@ }),
    {
        let mut taken: Vec<OutboundControl> = Vec::new();
        std::mem::swap(&mut taken, &mut self.outbound);
        taken
    }

    /// Authenticate and authorise a topology-changing request.
    pub fn authorize(&self, signed: &SignedControl, verdicts: &Verdicts) -> (r: Result<
        Authority,
        RejectCode,
    >)
        ensures
            r == self@.authority(*signed, *verdicts),
    {
        if signed.origin == self.node_id {
            if text::same32(&signed.controller, &self.operator) && verdicts.signature {
                return Ok(Authority::SelfOperator);
            }
            return Err(RejectCode::Unauthorized);
        }
        if !is_senior_child(&self.record.record().children, &signed.origin) {
            return Err(RejectCode::Unauthorized);
        }
        match &verdicts.registration {
            Some(err) => Err(control_msg::map_control_error(err)),
            None => Ok(Authority::Peer),
        }
    }

    /// Authenticate and authorise an admin request.
    pub fn authorize_admin(&self, signed: &SignedControl, now: u64) -> (r: Result<
        Authority,
        RejectCode,
    >)
        requires
            self.wf(),
        ensures
            self@.is_admin_authority(*signed, now, r),
    {
        if signed.origin != self.node_id {
            return Err(RejectCode::Unauthorized);
        }
        if !signed.request.is_admin() {
            return Err(RejectCode::Unauthorized);
        }
        if text::same32(&signed.controller, &self.operator) {
            return Ok(Authority::SelfOperator);
        }
        match self.admins.active_scope(&signed.controller, now) {
            Some(scope) => Ok(Authority::Delegated(scope)),
            None => Err(RejectCode::Unauthorized),
        }
    }

    /// Take over freshly loaded grants; where the load failed, serve none.
    pub fn refresh_admins(&mut self, loaded: Result<AdminStore, AdminStoreError>)
        requires
            old(self).wf(),
            loaded matches Ok(store) ==> store.wf(),
        ensures
            final(self).wf(),
            final(self)@ == (ControlState {
                admins: match loaded {
                    Ok(store) => store@,
                    Err(_) => Seq::empty(),
                },
                ..old(self)@
            }),
    {
        match self.admins.reload(loaded) {
            Ok(()) => {},
            Err(_) => {
                self.admins = AdminStore::empty();
            },
        }
    }

    /// The node's current links.
    pub fn snapshot(&self) -> (r: NodeSnapshot)
        requires
            self.wf(),
        ensures
            is_snapshot(self@.node_id, self@.record, r),
    {
        let record: &NodeRecord = self.record.record();
        let parent: Option<ParentSnapshot> = match (&record.parent, &record.address) {
            (Some(link), Some(address)) => match address.parent() {
                Some(parent_address) => Some(
                    ParentSnapshot {
                        node_id: link.parent_id.clone(),
                        slot: link.slot,
                        address: parent_address,
                    },
                ),
                None => None,
            },
            _ => None,
        };
        let mut children: Vec<ChildSnapshot> = Vec::new();
        let mut i: usize = 0;
        while i < record.children.len()
            invariant
                i <= record.children@.len(),
                children@.len() == i,
                forall|j: int|
                    0 <= j < i ==> is_child_shown(
                        record.children@[j],
                        record.address,
                        #[trigger] children@[j],
                    ),
            decreases record.children@.len() - i,
        {
            let child: &ChildEntry = &record.children[i];
            let address: Option<OctAddr> = match &record.address {
                Some(up) => Some(up.child(child.slot)),
                None => None,
            };
            children.push(
                ChildSnapshot {
                    child_id: child.child_id.clone(),
                    kind: child.kind,
                    slot: child.slot,
                    address,
                    date_joined: child.date_joined,
                },
            );
            i = i + 1;
        }
        NodeSnapshot {
            node_id: self.node_id.clone(),
            address: record::copied_address(&record.address),
            parent,
            children,
        }
    }

    fn handle_join(
        &mut self,
        signed: &SignedControl,
        join: &JoinRequest,
        now: u64,
        verdicts: &Verdicts,
    ) -> (r: Progress)
        requires
            old(self).wf(),
        ensures
            final(self).wf(),
            joins(old(self)@, *signed, *join, now, *verdicts, final(self)@, r),
    {
        if !verdicts.signature || !text::same32(&signed.controller, &join.operator)
            || signed.origin != join.node {
            return Progress::Done(ControlReply::Rejected(RejectCode::Unauthorized));
        }
        if !verdicts.well_formed || now > join.expiry {
            return Progress::Done(ControlReply::Rejected(RejectCode::BadRequest));
        }
        if self.pending.pending_for(&join.node).is_some() {
            return Progress::Done(ControlReply::Pending);
        }
        match join.desired_slot {
            Some(slot) => {
                if record::is_slot_taken(&self.record.record().children, slot) {
                    return Progress::Done(ControlReply::Rejected(RejectCode::SlotTaken));
                }
            },
            None => {
                if record::lowest_free_slot(&self.record.record().children).is_none() {
                    return Progress::Done(ControlReply::Rejected(RejectCode::Capacity));
                }
            },
        }
        if self.pending.pending().len() >= MAX_PENDING_JOINS {
            return Progress::Done(ControlReply::Rejected(RejectCode::Capacity));
        }
        self.pending.add_pending(join.copied());
        Progress::Save {
            saves: Saves { record: false, peers: false, pending: true },
            then: ControlReply::Pending,
        }
    }

    /// The registry with the approving parent in it.
    fn rows_with_parent(
        &self,
        signed: &SignedControl,
        approval: &JoinApproval,
        insertion: &Option<PeerInsertError>,
    ) -> (r: Result<TextMap<PeerKeys>, RejectCode>)
        requires
            self.wf(),
        ensures
            match with_parent_row(self@.peers, parent_row(*signed, *approval), *insertion) {
                Ok(rows) => r matches Ok(got) && got.wf() && got@ == rows,
                Err(code) => r == Err::<TextMap<PeerKeys>, RejectCode>(code),
            },
    {
        let row: PeerKeys = PeerKeys {
            node_id: signed.origin.clone(),
            operator: signed.controller,
            ledger: Some(approval.parent_ledger),
            role: PeerRole::Node,
        };
        let mut rows: TextMap<PeerKeys> = copied_rows(&self.peers);
        match self.peers.get(&signed.origin) {
            Some(existing) => {
                if existing.same(&row) {
                    return Ok(rows);
                }
                if text::same32(&existing.operator, &row.operator) && existing.role == row.role {
                    if insertion.is_some() {
                        return Err(RejectCode::Unauthorized);
                    }
                    let next: PeerKeys = PeerKeys {
                        node_id: existing.node_id.clone(),
                        operator: existing.operator,
                        ledger: row.ledger,
                        role: existing.role,
                    };
                    rows.insert(signed.origin.clone(), next);
                    return Ok(rows);
                }
                Err(RejectCode::Unauthorized)
            },
            None => {
                if insertion.is_some() {
                    return Err(RejectCode::Unauthorized);
                }
                rows.insert(signed.origin.clone(), row);
                Ok(rows)
            },
        }
    }

    fn handle_join_approved(
        &mut self,
        signed: &SignedControl,
        approval: &JoinApproval,
        verdicts: &Verdicts,
    ) -> (r: Progress)
        requires
            old(self).wf(),
        ensures
            final(self).wf(),
            adopts(old(self)@, *signed, *approval, *verdicts, final(self)@, r),
    {
        if !verdicts.signature {
            return Progress::Done(ControlReply::Rejected(RejectCode::Unauthorized));
        }
        match self.pending.outbound() {
            None => {
                return Progress::Done(ControlReply::Rejected(RejectCode::NotAttached));
            },
            Some(join) => {
                if join.parent != signed.origin || join.request.node != approval.child
                    || approval.nonce != join.request.nonce {
                    return Progress::Done(ControlReply::Rejected(RejectCode::Unauthorized));
                }
                match &join.pinned_operator {
                    Some(key) => {
                        if !text::same32(&signed.controller, key) {
                            return Progress::Done(
                                ControlReply::Rejected(RejectCode::Unauthorized),
                            );
                        }
                    },
                    None => {},
                }
                if wire::all_zero(&approval.parent_ledger) {
                    return Progress::Done(ControlReply::Rejected(RejectCode::BadRequest));
                }
            },
        }
        let ghost linked = with_parent_link(self@.record, *signed, *approval);
        let ghost placed = linked.with_address(Some(approval.address));
        proof {
            record::law_no_fault_is_valid(linked);
            record::law_no_fault_is_valid(placed);
        }
        let mut next: RecordStore = self.record.copied();
        match next.set_parent(signed.origin.clone(), approval.slot) {
            Err(err) => {
                return Progress::Done(ControlReply::Rejected(control_msg::map_record_error(&err)));
            },
            Ok(_) => {},
        }
        match next.set_address(approval.address.copied()) {
            Err(err) => {
                return Progress::Done(ControlReply::Rejected(control_msg::map_record_error(&err)));
            },
            Ok(_) => {},
        }
        let mut rows: TextMap<PeerKeys> = match self.rows_with_parent(
            signed,
            approval,
            &verdicts.insertion,
        ) {
            Ok(rows) => rows,
            Err(code) => return Progress::Done(ControlReply::Rejected(code)),
        };
        std::mem::swap(&mut self.record, &mut next);
        std::mem::swap(&mut self.peers, &mut rows);
        Progress::AdoptParent { backup: Backup { record: next, peers: rows } }
    }

    /// Conclude the adoption of a parent. Where the links could not be saved
    /// they are as before; otherwise the outbound join is over.
    pub fn parent_saved(&mut self, backup: Backup, saved: bool) -> (r: Progress)
        requires
            old(self).wf(),
            backup.record.wf(),
            backup.peers.wf(),
        ensures
            final(self).wf(),
            if saved {
                &&& final(self)@ == (ControlState { asked: None, ..old(self)@ })
                &&& r == (Progress::Save {
                    saves: Saves { record: false, peers: false, pending: true },
                    then: ControlReply::Accepted,
                })
            } else {
                &&& final(self)@ == (ControlState {
                    record: backup.record@,
                    peers: backup.peers@,
                    ..old(self)@
                })
                &&& r == Progress::Done(ControlReply::Rejected(RejectCode::Internal))
            },
    {
        if !saved {
            self.record = backup.record;
            self.peers = backup.peers;
            return Progress::Done(ControlReply::Rejected(RejectCode::Internal));
        }
        self.pending.clear_outbound();
        Progress::Save {
            saves: Saves { record: false, peers: false, pending: true },
            then: ControlReply::Accepted,
        }
    }

    fn handle_join_rejected(&mut self, signed: &SignedControl, verdicts: &Verdicts) -> (r: Progress)
        requires
            old(self).wf(),
        ensures
            final(self).wf(),
            abandons(old(self)@, *signed, *verdicts, final(self)@, r),
    {
        if !verdicts.signature {
            return Progress::Done(ControlReply::Rejected(RejectCode::Unauthorized));
        }
        if !verdicts.well_formed {
            return Progress::Done(ControlReply::Rejected(RejectCode::BadRequest));
        }
        match self.pending.outbound() {
            None => {
                return Progress::Done(ControlReply::Accepted);
            },
            Some(join) => {
                if join.parent != signed.origin {
                    return Progress::Done(ControlReply::Rejected(RejectCode::Unauthorized));
                }
                match &join.pinned_operator {
                    Some(key) => {
                        if !text::same32(&signed.controller, key) {
                            return Progress::Done(
                                ControlReply::Rejected(RejectCode::Unauthorized),
                            );
                        }
                    },
                    None => {},
                }
            },
        }
        self.pending.clear_outbound();
        Progress::Save {
            saves: Saves { record: false, peers: false, pending: true },
            then: ControlReply::Accepted,
        }
    }

    fn handle_create_child(&mut self, create: &CreateChild, verdicts: &Verdicts) -> (r: Progress)
        requires
            old(self).wf(),
        ensures
            final(self).wf(),
            exists|got: Result<u8, RejectCode>| #[trigger]
                creates(old(self)@, *create, *verdicts, got, final(self)@, r),
    {
        let ghost pre = self@;
        let mut next: RecordStore = self.record.copied();
        match next.attach_child(
            create.child.clone(),
            create.kind,
            create.slot,
            create.date_joined,
        ) {
            Err(err) => {
                let code: RejectCode = control_msg::map_record_error(&err);
                let r: Progress = Progress::Done(ControlReply::Rejected(code));
                assert(creates(pre, *create, *verdicts, Err(code), self@, r));
                return r;
            },
            Ok(_) => {},
        }
        let ghost slot = choose|s: u8|
            RecordStore::spec_attach(
                pre.record,
                create.child@,
                create.slot,
                Ok::<u8, record::RecordFault>(s),
            ) && next@ == pre.record.with_child(
                ChildEntry {
                    child_id: create.child,
                    kind: create.kind,
                    slot: s,
                    date_joined: create.date_joined,
                },
            );
        match &verdicts.insertion {
            Some(err) => {
                let r: Progress = Progress::Done(
                    ControlReply::Rejected(control_msg::map_ledger_error(err)),
                );
                assert(creates(pre, *create, *verdicts, Ok(slot), self@, r));
                return r;
            },
            None => {},
        }
        self.record = next;
        self.peers.insert(
            create.child.clone(),
            PeerKeys {
                node_id: create.child.clone(),
                operator: create.operator,
                ledger: create.ledger,
                role: role_of(create.kind),
            },
        );
        let r: Progress = Progress::Save {
            saves: Saves { record: true, peers: true, pending: false },
            then: ControlReply::Accepted,
        };
        assert(creates(pre, *create, *verdicts, Ok(slot), self@, r));
        r
    }

    fn handle_detach_child(&mut self, child: &String) -> (r: Progress)
        requires
            old(self).wf(),
        ensures
            final(self).wf(),
            detaches(old(self)@, child@, final(self)@, r),
    {
        let ghost pre = self@;
        match self.record.detach_child(child) {
            Err(err) => {
                return Progress::Done(ControlReply::Rejected(control_msg::map_record_error(&err)));
            },
            Ok(_) => {},
        }
        proof {
            let i = choose|i: int|
                {
                    &&& 0 <= i < pre.record.children.len()
                    &&& #[trigger] pre.record.children[i].child_id@ == child@
                    &&& forall|j: int|
                        0 <= j < i ==> (#[trigger] pre.record.children[j]).child_id@ != child@
                    &&& self.record@ == (record::RecordState {
                        children: pre.record.children.remove(i),
                        ..pre.record
                    })
                };
            assert(first_child(pre.record.children, child@, i));
        }
        Progress::Save {
            saves: Saves { record: true, peers: false, pending: false },
            then: ControlReply::Accepted,
        }
    }

    fn handle_move_child(&mut self, moved: &MoveChild) -> (r: Progress)
        requires
            old(self).wf(),
        ensures
            final(self).wf(),
            moves(old(self)@, *moved, final(self)@, r),
    {
        let ghost pre = self@;
        if moved.new_parent != self.node_id {
            return Progress::Done(ControlReply::Rejected(RejectCode::BadRequest));
        }
        let position: usize = match record::child_position(
            &self.record.record().children,
            &moved.child,
        ) {
            Some(position) => position,
            None => return Progress::Done(ControlReply::Rejected(RejectCode::NotFound)),
        };
        let kind: ChildKind = self.record.record().children[position].kind;
        let date_joined: u64 = self.record.record().children[position].date_joined;
        let ghost at = position as int;
        assert(first_child(pre.record.children, moved.child@, at));
        assert(record::has_child(pre.record.children, moved.child@)) by {
            assert(pre.record.children[at].child_id@ == moved.child@);
        }
        let mut next: RecordStore = self.record.copied();
        match next.detach_child(&moved.child) {
            Err(err) => {
                return Progress::Done(ControlReply::Rejected(control_msg::map_record_error(&err)));
            },
            Ok(_) => {},
        }
        proof {
            let i = choose|i: int|
                {
                    &&& 0 <= i < pre.record.children.len()
                    &&& #[trigger] pre.record.children[i].child_id@ == moved.child@
                    &&& forall|j: int|
                        0 <= j < i ==> (#[trigger] pre.record.children[j]).child_id@
                            != moved.child@
                    &&& next@ == (record::RecordState {
                        children: pre.record.children.remove(i),
                        ..pre.record
                    })
                };
            if i < at {
                assert(pre.record.children[i].child_id@ != moved.child@);
            } else if at < i {
                assert(pre.record.children[at].child_id@ != moved.child@);
            }
            assert(next@ == without_child(pre.record, at));
        }
        let ghost base = next@;
        match next.attach_child(moved.child.clone(), kind, moved.slot, date_joined) {
            Err(err) => {
                let code: RejectCode = control_msg::map_record_error(&err);
                let r: Progress = Progress::Done(ControlReply::Rejected(code));
                assert(reslots(pre, *moved, at, Err(code), self@, r));
                return r;
            },
            Ok(_) => {},
        }
        let ghost slot = choose|s: u8|
            RecordStore::spec_attach(
                base,
                moved.child@,
                moved.slot,
                Ok::<u8, record::RecordFault>(s),
            ) && next@ == base.with_child(
                ChildEntry { child_id: moved.child, kind, slot: s, date_joined },
            );
        self.record = next;
        let r: Progress = Progress::Save {
            saves: Saves { record: true, peers: false, pending: false },
            then: ControlReply::Accepted,
        };
        assert(reslots(pre, *moved, at, Ok(slot), self@, r));
        r
    }

    fn handle_set_address(&mut self, address: &Option<OctAddr>) -> (r: Progress)
        requires
            old(self).wf(),
        ensures
            final(self).wf(),
            readdresses(old(self)@, *address, final(self)@, r),
    {
        proof {
            record::law_no_fault_is_valid(self@.record.with_address(*address));
            record::law_detaching_keeps_validity(self@.record, 0);
        }
        match address {
            Some(address) => match self.record.set_address(address.copied()) {
                Err(err) => {
                    return Progress::Done(
                        ControlReply::Rejected(control_msg::map_record_error(&err)),
                    );
                },
                Ok(_) => {},
            },
            None => match self.record.unset_address() {
                Err(err) => {
                    return Progress::Done(
                        ControlReply::Rejected(control_msg::map_record_error(&err)),
                    );
                },
                Ok(_) => {},
            },
        }
        Progress::Save {
            saves: Saves { record: true, peers: false, pending: false },
            then: ControlReply::Accepted,
        }
    }
}

/// Why a waiting join cannot be approved as asked, nothing being changed.
pub open spec fn precheck_fault(
    pre: ControlState,
    child: Seq<char>,
    slot: Option<u8>,
) -> Option<RejectCode> {
    if !control_store::is_queued(pre.queue, child) {
        Some(RejectCode::NotFound)
    } else if pre.record.address is None {
        Some(RejectCode::NotAttached)
    } else {
        match slot {
            Some(s) => if s > MAX_SLOT {
                Some(RejectCode::SlotOutOfRange)
            } else if record::slot_taken(pre.record.children, s as int) {
                Some(RejectCode::SlotTaken)
            } else {
                None
            },
            None => if forall|s: int|
                0 <= s <= MAX_SLOT ==> #[trigger] record::slot_taken(pre.record.children, s) {
                Some(RejectCode::Capacity)
            } else {
                None
            },
        }
    }
}

/// `s` is the slot that an approval gives: the one that was named, or the
/// lowest free one.
pub open spec fn is_given_slot(pre: ControlState, slot: Option<u8>, s: u8) -> bool {
    match slot {
        Some(named) => s == named,
        None => record::is_lowest_free(pre.record.children, s as int),
    }
}

/// The row that an approved applicant brings.
pub open spec fn applicant_row(request: JoinRequest) -> PeerKeys {
    PeerKeys {
        node_id: request.node,
        operator: request.operator,
        ledger: request.ledger,
        role: spec_role(request.kind),
    }
}

/// The approval that answers a request.
pub open spec fn approval_of(
    pre: ControlState,
    request: JoinRequest,
    s: u8,
    now: u64,
    parent_ledger: LedgerPubKey,
) -> JoinApproval {
    JoinApproval {
        child: request.node,
        child_operator: request.operator,
        child_ledger: request.ledger,
        kind: request.kind,
        slot: s,
        address: OctAddr::Child(Box::new(pre.record.address->0), s),
        date_joined: now,
        nonce: request.nonce,
        parent_ledger,
    }
}

/// The approval of the request at `i` on slot `s` comes to `post` and `r`. Where
/// the record or the registry refuses the child, the request goes to the end of
/// the queue and nothing else changes.
pub open spec fn approves_at(
    pre: ControlState,
    now: u64,
    parent_ledger: LedgerPubKey,
    insertion: Option<PeerInsertError>,
    i: int,
    s: u8,
    post: ControlState,
    r: Result<JoinApproval, ControlError>,
) -> bool {
    let request = pre.queue[i];
    let requeued = ControlState { queue: pre.queue.remove(i).push(request), ..pre };
    if request.node@ == pre.record.node_id {
        &&& post == requeued
        &&& r matches Err(ControlError::Codec(m))
        &&& m@ == record::RecordFault::SelfReference(request.node@).text()
    } else if record::has_child(pre.record.children, request.node@) {
        &&& post == requeued
        &&& r matches Err(ControlError::Codec(m))
        &&& m@ == record::RecordFault::DuplicateChild(request.node@).text()
    } else {
        match insertion {
            Some(err) => {
                &&& post == requeued
                &&& r matches Err(ControlError::Codec(m))
                &&& m@ == err.spec_message()
            },
            None => {
                &&& post == (ControlState {
                    record: pre.record.with_child(
                        ChildEntry {
                            child_id: request.node,
                            kind: request.kind,
                            slot: s,
                            date_joined: now,
                        },
                    ),
                    peers: pre.peers.insert(request.node@, applicant_row(request)),
                    queue: pre.queue.remove(i),
                    ..pre
                })
                &&& r == Ok::<JoinApproval, ControlError>(
                    approval_of(pre, request, s, now, parent_ledger),
                )
            },
        }
    }
}

/// What approving a waiting join comes to.
pub open spec fn approves(
    pre: ControlState,
    node: Seq<char>,
    slot: Option<u8>,
    now: u64,
    parent_ledger: LedgerPubKey,
    insertion: Option<PeerInsertError>,
    post: ControlState,
    r: Result<JoinApproval, ControlError>,
) -> bool {
    match precheck_fault(pre, node, slot) {
        Some(code) => {
            &&& post == pre
            &&& match code {
                RejectCode::SlotOutOfRange => r == Err::<JoinApproval, ControlError>(
                    ControlError::SlotOutOfRange(slot->0),
                ),
                RejectCode::NotFound => r matches Err(ControlError::Codec(m)) && m@
                    == "no pending join for '"@ + node + "'"@,
                RejectCode::NotAttached => r matches Err(ControlError::Codec(m)) && m@
                    == "this node has no asserted address"@,
                RejectCode::SlotTaken => r matches Err(ControlError::Codec(m)) && m@ == "slot "@
                    + text::decimal(slot->0 as nat) + " is already taken"@,
                _ => r matches Err(ControlError::Codec(m)) && m@ == "node is full"@,
            }
        },
        None => exists|i: int, s: u8|
            control_store::queued_at(pre.queue, node, i) && is_given_slot(pre, slot, s)
                && #[trigger] approves_at(pre, now, parent_ledger, insertion, i, s, post, r),
    }
}

/// The waiting join as shown to an admin.
pub open spec fn is_pending_shown(request: JoinRequest, shown: AdminPendingJoin) -> bool {
    &&& shown.child == request.node
    &&& shown.kind == request.kind
    &&& shown.operator == request.operator
    &&& shown.desired_slot == request.desired_slot
    &&& shown.expiry == request.expiry
}

/// The waiting joins as shown to an admin: all of them, up to the bound of the
/// queue.
pub open spec fn are_pending_shown(queue: Seq<JoinRequest>, shown: Seq<AdminPendingJoin>) -> bool {
    &&& shown.len() == (if queue.len() <= MAX_PENDING_JOINS {
        queue.len()
    } else {
        MAX_PENDING_JOINS as nat
    })
    &&& forall|i: int| 0 <= i < shown.len() ==> is_pending_shown(queue[i], #[trigger] shown[i])
}

/// What an admin's approval comes to, once it is authorised.
pub open spec fn admin_approves(
    pre: ControlState,
    child: Seq<char>,
    slot: Option<u8>,
    now: u64,
    verdicts: Verdicts,
    got: Result<JoinApproval, ControlError>,
    post: ControlState,
    r: Progress,
) -> bool {
    if !verdicts.well_formed {
        refused(pre, post, r, RejectCode::BadRequest)
    } else {
        match (precheck_fault(pre, child, slot), verdicts.parent_ledger) {
            (Some(code), _) => refused(pre, post, r, code),
            (None, None) => refused(pre, post, r, RejectCode::Internal),
            (None, Some(parent_ledger)) => {
                &&& approves(
                    pre,
                    child,
                    slot,
                    now,
                    parent_ledger,
                    verdicts.insertion,
                    post,
                    got,
                )
                &&& match got {
                    Err(_) => r == Progress::Done(ControlReply::Rejected(RejectCode::Internal)),
                    Ok(approval) => r == (Progress::Announce {
                        saves: Saves { record: true, peers: true, pending: true },
                        decision: ControlRequest::JoinApproved(approval),
                        then: ControlReply::AdminApproved {
                            child: approval.child,
                            slot: approval.slot,
                            address: approval.address,
                            delivery: DeliveryStatus::Unreachable,
                        },
                    }),
                }
            },
        }
    }
}

/// What an admin's refusal of the request at `i` comes to.
pub open spec fn rejects_at(
    pre: ControlState,
    child: String,
    reason: Option<String>,
    i: int,
    post: ControlState,
    r: Progress,
) -> bool {
    &&& control_store::queued_at(pre.queue, child@, i)
    &&& post == (ControlState { queue: pre.queue.remove(i), ..pre })
    &&& r matches Progress::Announce { saves, decision, then }
    &&& saves == (Saves { record: false, peers: false, pending: true })
    &&& then == (ControlReply::AdminRejected { child, delivery: DeliveryStatus::Unreachable })
    &&& decision matches ControlRequest::JoinRejected(rejection)
    &&& rejection.child == child
    &&& rejection.nonce == pre.queue[i].nonce
    &&& rejection.reason@ == (match reason {
        Some(reason) => reason@,
        None => "rejected"@,
    })
}

/// What an admin's refusal comes to, once it is authorised.
pub open spec fn admin_rejects(
    pre: ControlState,
    child: String,
    reason: Option<String>,
    verdicts: Verdicts,
    post: ControlState,
    r: Progress,
) -> bool {
    if !verdicts.well_formed {
        refused(pre, post, r, RejectCode::BadRequest)
    } else if !control_store::is_queued(pre.queue, child@) {
        refused(pre, post, r, RejectCode::NotFound)
    } else {
        exists|i: int| #[trigger] rejects_at(pre, child, reason, i, post, r)
    }
}

/// Decision `i` is the one for `child`.
pub open spec fn decided_at(decisions: Seq<SignedControl>, child: Seq<char>, i: int) -> bool {
    0 <= i < decisions.len() && decision_target(decisions[i]) == Some(child)
}

/// Some decision is stored for `child`.
pub open spec fn is_decided(decisions: Seq<SignedControl>, child: Seq<char>) -> bool {
    exists|i: int| #[trigger] decided_at(decisions, child, i)
}

/// What sending decision `i` again comes to: the stored frame as it is.
pub open spec fn resends(
    pre: ControlState,
    i: int,
    child: Seq<char>,
    post: ControlState,
    r: Progress,
) -> bool {
    let stored = pre.decisions[i];
    &&& decided_at(pre.decisions, child, i)
    &&& match stored.request {
        ControlRequest::JoinApproved(approval) => {
            &&& post == (ControlState {
                outbound: pre.outbound.push(
                    OutboundControl {
                        target: approval.child,
                        signed: stored,
                        kind: OutboundKind::Approved,
                    },
                ),
                ..pre
            })
            &&& r == Progress::Done(
                ControlReply::AdminApproved {
                    child: approval.child,
                    slot: approval.slot,
                    address: approval.address,
                    delivery: DeliveryStatus::Unreachable,
                },
            )
        },
        ControlRequest::JoinRejected(rejection) => {
            &&& post == (ControlState {
                outbound: pre.outbound.push(
                    OutboundControl {
                        target: rejection.child,
                        signed: stored,
                        kind: OutboundKind::Rejected,
                    },
                ),
                ..pre
            })
            &&& r == Progress::Done(
                ControlReply::AdminRejected {
                    child: rejection.child,
                    delivery: DeliveryStatus::Unreachable,
                },
            )
        },
        _ => false,
    }
}

/// What a redelivery comes to, once it is authorised.
pub open spec fn redelivers(
    pre: ControlState,
    child: Seq<char>,
    verdicts: Verdicts,
    post: ControlState,
    r: Progress,
) -> bool {
    if !verdicts.well_formed {
        refused(pre, post, r, RejectCode::BadRequest)
    } else if !is_decided(pre.decisions, child) {
        refused(pre, post, r, RejectCode::NotFound)
    } else {
        exists|i: int| #[trigger] resends(pre, i, child, post, r)
    }
}

/// The decisions without the one for `child`.
pub open spec fn undecided(decisions: Seq<SignedControl>, child: Seq<char>) -> Seq<SignedControl> {
    decisions.filter(|stored: SignedControl| decision_target(stored) != Some(child))
}

/// The decisions with a new one, the most recent for its child and the last in
/// the list; the oldest gives way where there are too many.
pub open spec fn with_decision(
    decisions: Seq<SignedControl>,
    signed: SignedControl,
) -> Seq<SignedControl> {
    match decision_target(signed) {
        None => decisions,
        Some(child) => {
            let all = undecided(decisions, child).push(signed);
            if all.len() > MAX_STORED_DECISIONS {
                all.skip(all.len() - MAX_STORED_DECISIONS)
            } else {
                all
            }
        },
    }
}

proof fn lemma_undecided(decisions: Seq<SignedControl>, child: Seq<char>)
    requires
        decisions_ok(decisions),
    ensures
        decisions_ok(undecided(decisions, child)),
        undecided(decisions, child).len() <= decisions.len(),
        !is_decided(undecided(decisions, child), child),
        forall|i: int|
            0 <= i < undecided(decisions, child).len() ==> exists|k: int|
                0 <= k < decisions.len() && decisions[k] == #[trigger] undecided(
                    decisions,
                    child,
                )[i],
    decreases decisions.len(),
{
    reveal(Seq::filter);
    let kept = undecided(decisions, child);
    if decisions.len() > 0 {
        let init = decisions.drop_last();
        let last = decisions.last();
        assert(decisions_ok(init)) by {
            assert forall|i: int| 0 <= i < init.len() implies decision_target(
                #[trigger] init[i],
            ) is Some by {
                assert(init[i] == decisions[i]);
            }
            assert forall|i: int, j: int| 0 <= i < j < init.len() implies decision_target(
                #[trigger] init[i],
            ) != decision_target(#[trigger] init[j]) by {
                assert(init[i] == decisions[i] && init[j] == decisions[j]);
            }
        }
        lemma_undecided(init, child);
        let kept_init = undecided(init, child);
        if decision_target(last) != Some(child) {
            assert(kept =~= kept_init.push(last));
            assert forall|i: int| 0 <= i < kept.len() implies exists|k: int|
                0 <= k < decisions.len() && decisions[k] == #[trigger] kept[i] by {
                if i < kept_init.len() {
                    let k = choose|k: int| 0 <= k < init.len() && init[k] == kept_init[i];
                    assert(decisions[k] == kept[i]);
                } else {
                    assert(decisions[decisions.len() - 1] == kept[i]);
                }
            }
            assert forall|i: int| 0 <= i < kept.len() implies decision_target(
                #[trigger] kept[i],
            ) is Some by {
                let k = choose|k: int| 0 <= k < decisions.len() && decisions[k] == kept[i];
                assert(decision_target(decisions[k]) is Some);
            }
            assert forall|i: int, j: int| 0 <= i < j < kept.len() implies decision_target(
                #[trigger] kept[i],
            ) != decision_target(#[trigger] kept[j]) by {
                assert(kept[i] == kept_init[i]);
                if j < kept_init.len() {
                    assert(kept[j] == kept_init[j]);
                } else {
                    let k = choose|k: int| 0 <= k < init.len() && init[k] == kept_init[i];
                    assert(decisions[k] == kept[i]);
                    assert(decision_target(decisions[k]) != decision_target(
                        decisions[decisions.len() - 1],
                    ));
                }
            }
            assert forall|i: int| !#[trigger] decided_at(kept, child, i) by {
                if 0 <= i < kept_init.len() {
                    assert(!decided_at(kept_init, child, i));
                }
            }
        } else {
            assert(kept =~= kept_init);
            assert forall|i: int| 0 <= i < kept.len() implies exists|k: int|
                0 <= k < decisions.len() && decisions[k] == #[trigger] kept[i] by {
                let k = choose|k: int| 0 <= k < init.len() && init[k] == kept_init[i];
                assert(decisions[k] == kept[i]);
            }
        }
    } else {
        assert(kept =~= decisions);
    }
}

proof fn lemma_with_decision(decisions: Seq<SignedControl>, signed: SignedControl)
    requires
        decisions_ok(decisions),
        decision_target(signed) is Some,
    ensures
        decisions_ok(with_decision(decisions, signed)),
        with_decision(decisions, signed).len() > 0,
        with_decision(decisions, signed).last() == signed,
{
    let child = decision_target(signed)->0;
    lemma_undecided(decisions, child);
    let kept = undecided(decisions, child);
    let all = kept.push(signed);
    assert forall|i: int, j: int| 0 <= i < j < all.len() implies decision_target(
        #[trigger] all[i],
    ) != decision_target(#[trigger] all[j]) by {
        if j == kept.len() {
            assert(!decided_at(kept, child, i));
            assert(all[i] == kept[i]);
        } else {
            assert(all[i] == kept[i] && all[j] == kept[j]);
        }
    }
    assert forall|i: int| 0 <= i < all.len() implies decision_target(
        #[trigger] all[i],
    ) is Some by {
        if i < kept.len() {
            assert(all[i] == kept[i]);
        }
    }
    let next = with_decision(decisions, signed);
    if all.len() > MAX_STORED_DECISIONS {
        let n = all.len() - MAX_STORED_DECISIONS;
        assert forall|i: int, j: int| 0 <= i < j < next.len() implies decision_target(
            #[trigger] next[i],
        ) != decision_target(#[trigger] next[j]) by {
            assert(next[i] == all[i + n] && next[j] == all[j + n]);
        }
        assert forall|i: int| 0 <= i < next.len() implies decision_target(
            #[trigger] next[i],
        ) is Some by {
            assert(next[i] == all[i + n]);
        }
    }
}

/// A stored decision is the last word for its child, and what the list held for
/// other children stays but for at most the oldest.
pub proof fn law_last_decision_stands(decisions: Seq<SignedControl>, signed: SignedControl)
    requires
        decisions_ok(decisions),
        decision_target(signed) is Some,
    ensures
        decisions_ok(with_decision(decisions, signed)),
        with_decision(decisions, signed).last() == signed,
        forall|i: int| #[trigger]
            decided_at(with_decision(decisions, signed), decision_target(signed)->0, i) ==> i
                == with_decision(decisions, signed).len() - 1,
{
    lemma_with_decision(decisions, signed);
    let next = with_decision(decisions, signed);
    assert forall|i: int| #[trigger] decided_at(next, decision_target(signed)->0, i) implies i
        == next.len() - 1 by {
        if i < next.len() - 1 {
            assert(decision_target(next[i]) != decision_target(next[next.len() - 1]));
        }
    }
}

/// What the outcome of a save makes of the answer.
pub fn saved(then: ControlReply, ok: bool) -> (r: ControlReply)
    ensures
        r == (if ok {
            then
        } else {
            ControlReply::Rejected(RejectCode::Internal)
        }),
{
    if ok {
        then
    } else {
        ControlReply::Rejected(RejectCode::Internal)
    }
}

/// What the checks on every direct request come to, in this order: the format
/// version, the signature, and the time in which the request stands.
pub open spec fn spec_check_request(
    signed: SignedControl,
    signature: bool,
    limits: ControlLimits,
    now: u64,
) -> Option<RejectCode> {
    if signed.version != limits.format_version {
        Some(RejectCode::BadVersion)
    } else if !signature {
        Some(RejectCode::Unauthorized)
    } else if now > signed.expiry {
        Some(RejectCode::Expired)
    } else if signed.expiry > now + limits.max_ttl {
        Some(RejectCode::BadRequest)
    } else {
        None
    }
}

/// Check what every direct request must meet before it is looked at.
pub fn check_request(
    signed: &SignedControl,
    signature: bool,
    limits: &ControlLimits,
    now: u64,
) -> (r: Option<RejectCode>)
    ensures
        r == spec_check_request(*signed, signature, *limits, now),
{
    if signed.version != limits.format_version {
        return Some(RejectCode::BadVersion);
    }
    if !signature {
        return Some(RejectCode::Unauthorized);
    }
    if now > signed.expiry {
        return Some(RejectCode::Expired);
    }
    if signed.expiry > now.saturating_add(limits.max_ttl) {
        return Some(RejectCode::BadRequest);
    }
    None
}

/// What a request comes to that passed the checks and the replay guard.
pub open spec fn dispatched(
    pre: ControlState,
    signed: SignedControl,
    now: u64,
    verdicts: Verdicts,
    post: ControlState,
    r: Progress,
) -> bool {
    match signed.request {
        ControlRequest::Join(join) => joins(pre, signed, join, now, verdicts, post, r),
        ControlRequest::JoinApproved(approval) => adopts(pre, signed, approval, verdicts, post, r),
        ControlRequest::JoinRejected(_) => abandons(pre, signed, verdicts, post, r),
        _ => if signed.request.spec_is_admin() {
            exists|authority: Result<Authority, RejectCode>| #[trigger]
                pre.is_admin_authority(signed, now, authority) && match authority {
                    Err(code) => refused(pre, post, r, code),
                    Ok(_) => admin_done(pre, signed, now, verdicts, post, r),
                }
        } else {
            match pre.authority(signed, verdicts) {
                Err(code) => refused(pre, post, r, code),
                Ok(_) => topology_done(pre, signed, verdicts, post, r),
            }
        },
    }
}

/// What an authorised topology request comes to.
pub open spec fn topology_done(
    pre: ControlState,
    signed: SignedControl,
    verdicts: Verdicts,
    post: ControlState,
    r: Progress,
) -> bool {
    match signed.request {
        ControlRequest::CreateChild(create) => exists|got: Result<u8, RejectCode>| #[trigger]
            creates(pre, create, verdicts, got, post, r),
        ControlRequest::DetachChild(child) => detaches(pre, child@, post, r),
        ControlRequest::MoveChild(moved) => moves(pre, moved, post, r),
        ControlRequest::SetAddress(address) => readdresses(pre, address, post, r),
        ControlRequest::Query => post == pre && (r matches Progress::Done(
            ControlReply::Snapshot(shown),
        ) && is_snapshot(pre.node_id, pre.record, shown)),
        _ => false,
    }
}

/// What an authorised admin request comes to.
pub open spec fn admin_done(
    pre: ControlState,
    signed: SignedControl,
    now: u64,
    verdicts: Verdicts,
    post: ControlState,
    r: Progress,
) -> bool {
    match signed.request {
        ControlRequest::AdminQuery => post == pre && (r matches Progress::Done(
            ControlReply::AdminSnapshot { node, pending },
        ) && is_snapshot(pre.node_id, pre.record, node) && are_pending_shown(pre.queue, pending@)),
        ControlRequest::AdminApproveJoin { child, slot } => exists|got: Result<
            JoinApproval,
            ControlError,
        >| #[trigger]
            admin_approves(pre, child@, slot, now, verdicts, got, post, r),
        ControlRequest::AdminRejectJoin { child, reason } => admin_rejects(
            pre,
            child,
            reason,
            verdicts,
            post,
            r,
        ),
        ControlRequest::AdminRedeliverJoin { child } => redelivers(pre, child@, verdicts, post, r),
        _ => false,
    }
}

/// What a request comes to: the checks come first, then the replay guard, and
/// only what passed both is dispatched.
pub open spec fn received(
    pre: ControlState,
    signed: SignedControl,
    replayed: bool,
    limits: ControlLimits,
    now: u64,
    verdicts: Verdicts,
    post: ControlState,
    r: Progress,
) -> bool {
    match spec_check_request(signed, verdicts.signature, limits, now) {
        Some(code) => refused(pre, post, r, code),
        None => if replayed {
            refused(pre, post, r, RejectCode::Replay)
        } else {
            dispatched(pre, signed, now, verdicts, post, r)
        },
    }
}

impl ControlNode {
    /// Handle a request. `replayed` is what the replay guard says of its origin,
    /// controller and nonce; a request that fails [`check_request`] is refused
    /// whatever the guard says, so it is to be marked there only once it passed.
    pub fn receive_at(
        &mut self,
        signed: &SignedControl,
        replayed: bool,
        limits: &ControlLimits,
        now: u64,
        verdicts: &Verdicts,
    ) -> (r: Progress)
        requires
            old(self).wf(),
        ensures
            final(self).wf(),
            received(old(self)@, *signed, replayed, *limits, now, *verdicts, final(self)@, r),
    {
        match check_request(signed, verdicts.signature, limits, now) {
            Some(code) => return Progress::Done(ControlReply::Rejected(code)),
            None => {},
        }
        if replayed {
            return Progress::Done(ControlReply::Rejected(RejectCode::Replay));
        }
        match &signed.request {
            ControlRequest::Join(join) => {
                return self.handle_join(signed, join, now, verdicts);
            },
            ControlRequest::JoinApproved(approval) => {
                return self.handle_join_approved(signed, approval, verdicts);
            },
            ControlRequest::JoinRejected(_) => {
                return self.handle_join_rejected(signed, verdicts);
            },
            _ => {},
        }
        let ghost pre = self@;
        if signed.request.is_admin() {
            let authority: Result<Authority, RejectCode> = self.authorize_admin(signed, now);
            assert(pre.is_admin_authority(*signed, now, authority));
            match authority {
                Err(code) => return Progress::Done(ControlReply::Rejected(code)),
                Ok(_) => {},
            }
            return self.admin_request(signed, now, verdicts);
        }
        match self.authorize(signed, verdicts) {
            Err(code) => return Progress::Done(ControlReply::Rejected(code)),
            Ok(_) => {},
        }
        match &signed.request {
            ControlRequest::CreateChild(create) => self.handle_create_child(create, verdicts),
            ControlRequest::DetachChild(child) => self.handle_detach_child(child),
            ControlRequest::MoveChild(moved) => self.handle_move_child(moved),
            ControlRequest::SetAddress(address) => self.handle_set_address(address),
            _ => Progress::Done(ControlReply::Snapshot(self.snapshot())),
        }
    }

    fn admin_request(&mut self, signed: &SignedControl, now: u64, verdicts: &Verdicts) -> (r:
        Progress)
        requires
            old(self).wf(),
            signed.request.spec_is_admin(),
        ensures
            final(self).wf(),
            admin_done(old(self)@, *signed, now, *verdicts, final(self)@, r),
    {
        match &signed.request {
            ControlRequest::AdminApproveJoin { child, slot } => {
                self.handle_admin_approve_join(child, *slot, now, verdicts)
            },
            ControlRequest::AdminRejectJoin { child, reason } => {
                self.handle_admin_reject_join(child, reason, verdicts)
            },
            ControlRequest::AdminRedeliverJoin { child } => {
                self.handle_admin_redeliver_join(child, verdicts)
            },
            _ => self.handle_admin_query(),
        }
    }

    fn handle_admin_query(&self) -> (r: Progress)
        requires
            self.wf(),
        ensures
            r matches Progress::Done(ControlReply::AdminSnapshot { node, pending }) && is_snapshot(
                self@.node_id,
                self@.record,
                node,
            ) && are_pending_shown(self@.queue, pending@),
    {
        let queue: &Vec<JoinRequest> = self.pending.pending();
        let mut pending: Vec<AdminPendingJoin> = Vec::new();
        let mut i: usize = 0;
        while i < queue.len() && i < MAX_PENDING_JOINS
            invariant
                i <= queue@.len(),
                i <= MAX_PENDING_JOINS,
                pending@.len() == i,
                forall|j: int|
                    0 <= j < i ==> is_pending_shown(queue@[j], #[trigger] pending@[j]),
            decreases queue@.len() - i,
        {
            pending.push(
                AdminPendingJoin {
                    child: queue[i].node.clone(),
                    kind: queue[i].kind,
                    operator: queue[i].operator,
                    desired_slot: queue[i].desired_slot,
                    expiry: queue[i].expiry,
                },
            );
            i = i + 1;
        }
        Progress::Done(ControlReply::AdminSnapshot { node: self.snapshot(), pending })
    }

    /// Check an approval against the current state, changing nothing.
    pub fn precheck_approve(&self, child: &String, slot: Option<u8>) -> (r: Result<(), RejectCode>)
        ensures
            r == (match precheck_fault(self@, child@, slot) {
                Some(code) => Err::<(), RejectCode>(code),
                None => Ok(()),
            }),
    {
        if self.pending.pending_for(child).is_none() {
            return Err(RejectCode::NotFound);
        }
        if self.record.record().address.is_none() {
            return Err(RejectCode::NotAttached);
        }
        match slot {
            Some(s) => {
                if s > MAX_SLOT {
                    return Err(RejectCode::SlotOutOfRange);
                }
                if record::is_slot_taken(&self.record.record().children, s) {
                    return Err(RejectCode::SlotTaken);
                }
                Ok(())
            },
            None => {
                match record::lowest_free_slot(&self.record.record().children) {
                    Some(s) => {
                        assert(!record::slot_taken(self@.record.children, s as int));
                        Ok(())
                    },
                    None => Err(RejectCode::Capacity),
                }
            },
        }
    }

    /// Consume the waiting join of `node`: give it a slot, attach it, register
    /// its keys, and return the approval to send. Save the record, the registry
    /// and the joins in flight afterwards.
    pub fn approve_pending(
        &mut self,
        node: &String,
        slot: Option<u8>,
        now: u64,
        parent_ledger: LedgerPubKey,
        insertion: &Option<PeerInsertError>,
    ) -> (r: Result<JoinApproval, ControlError>)
        requires
            old(self).wf(),
        ensures
            final(self).wf(),
            approves(
                old(self)@,
                node@,
                slot,
                now,
                parent_ledger,
                *insertion,
                final(self)@,
                r,
            ),
    {
        let ghost pre = self@;
        if self.pending.pending_for(node).is_none() {
            return Err(
                ControlError::Codec(text::between("no pending join for '", node.as_str(), "'")),
            );
        }
        let base: OctAddr = match &self.record.record().address {
            Some(base) => base.copied(),
            None => {
                return Err(ControlError::Codec("this node has no asserted address".to_owned()));
            },
        };
        let given: u8 = match slot {
            Some(s) => {
                if s > MAX_SLOT {
                    return Err(ControlError::SlotOutOfRange(s));
                }
                if record::is_slot_taken(&self.record.record().children, s) {
                    return Err(
                        ControlError::Codec(
                            text::between(
                                "slot ",
                                text::u64_text(s as u64).as_str(),
                                " is already taken",
                            ),
                        ),
                    );
                }
                s
            },
            None => match record::lowest_free_slot(&self.record.record().children) {
                Some(s) => {
                    assert(!record::slot_taken(pre.record.children, s as int));
                    s
                },
                None => return Err(ControlError::Codec("node is full".to_owned())),
            },
        };
        assert(is_given_slot(pre, slot, given));
        let request: JoinRequest = match self.pending.remove_pending(node) {
            Some(request) => request,
            None => {
                assert(false);
                return Err(ControlError::Codec("node is full".to_owned()));
            },
        };
        let ghost at = choose|i: int| #[trigger]
            control_store::queued_at(pre.queue, node@, i) && request == pre.queue[i]
                && self.pending.queue() == pre.queue.remove(i);
        let mut next: RecordStore = self.record.copied();
        match next.attach_child(request.node.clone(), request.kind, Some(given), now) {
            Err(err) => {
                let message: String = err.text();
                self.pending.add_pending(request);
                let r: Result<JoinApproval, ControlError> = Err(ControlError::Codec(message));
                assert(approves_at(pre, now, parent_ledger, *insertion, at, given, self@, r));
                return r;
            },
            Ok(_) => {},
        }
        match insertion {
            Some(err) => {
                self.pending.add_pending(request);
                let r: Result<JoinApproval, ControlError> = Err(ControlError::Codec(err.message()));
                assert(approves_at(pre, now, parent_ledger, *insertion, at, given, self@, r));
                return r;
            },
            None => {},
        }
        self.record = next;
        let row: PeerKeys = PeerKeys {
            node_id: request.node.clone(),
            operator: request.operator,
            ledger: request.ledger,
            role: role_of(request.kind),
        };
        self.peers.insert(request.node.clone(), row);
        let r: Result<JoinApproval, ControlError> = Ok(
            JoinApproval {
                child: request.node,
                child_operator: request.operator,
                child_ledger: request.ledger,
                kind: request.kind,
                slot: given,
                address: base.child(given),
                date_joined: now,
                nonce: request.nonce,
                parent_ledger,
            },
        );
        assert(approves_at(pre, now, parent_ledger, *insertion, at, given, self@, r));
        r
    }

    fn handle_admin_approve_join(
        &mut self,
        child: &String,
        slot: Option<u8>,
        now: u64,
        verdicts: &Verdicts,
    ) -> (r: Progress)
        requires
            old(self).wf(),
        ensures
            final(self).wf(),
            exists|got: Result<JoinApproval, ControlError>| #[trigger]
                admin_approves(old(self)@, child@, slot, now, *verdicts, got, final(self)@, r),
    {
        let ghost pre = self@;
        let ghost none: Result<JoinApproval, ControlError> = Err(ControlError::InvalidSignature);
        if !verdicts.well_formed {
            let r: Progress = Progress::Done(ControlReply::Rejected(RejectCode::BadRequest));
            assert(admin_approves(pre, child@, slot, now, *verdicts, none, self@, r));
            return r;
        }
        match self.precheck_approve(child, slot) {
            Err(code) => {
                let r: Progress = Progress::Done(ControlReply::Rejected(code));
                assert(admin_approves(pre, child@, slot, now, *verdicts, none, self@, r));
                return r;
            },
            Ok(_) => {},
        }
        let parent_ledger: LedgerPubKey = match verdicts.parent_ledger {
            Some(key) => key,
            None => {
                let r: Progress = Progress::Done(ControlReply::Rejected(RejectCode::Internal));
                assert(admin_approves(pre, child@, slot, now, *verdicts, none, self@, r));
                return r;
            },
        };
        match self.approve_pending(child, slot, now, parent_ledger, &verdicts.insertion) {
            Err(err) => {
                let r: Progress = Progress::Done(
                    ControlReply::Rejected(control_msg::map_approve_error(&err)),
                );
                proof {
                    let got: Result<JoinApproval, ControlError> = Err(err);
                    let (i, s) = choose|i: int, s: u8|
                        control_store::queued_at(pre.queue, child@, i) && is_given_slot(
                            pre,
                            slot,
                            s,
                        ) && #[trigger] approves_at(
                            pre,
                            now,
                            parent_ledger,
                            verdicts.insertion,
                            i,
                            s,
                            self@,
                            got,
                        );
                    assert(err is Codec);
                    assert(admin_approves(pre, child@, slot, now, *verdicts, got, self@, r));
                }
                r
            },
            Ok(approval) => {
                let then: ControlReply = ControlReply::AdminApproved {
                    child: approval.child.clone(),
                    slot: approval.slot,
                    address: approval.address.copied(),
                    delivery: DeliveryStatus::Unreachable,
                };
                let ghost got: Result<JoinApproval, ControlError> = Ok(approval);
                let r: Progress = Progress::Announce {
                    saves: Saves { record: true, peers: true, pending: true },
                    decision: ControlRequest::JoinApproved(approval),
                    then,
                };
                assert(admin_approves(pre, child@, slot, now, *verdicts, got, self@, r));
                r
            },
        }
    }

    /// Drop the waiting join of `node`. Save the joins in flight afterwards.
    pub fn reject_pending(&mut self, node: &String) -> (r: Option<JoinRequest>)
        requires
            old(self).wf(),
        ensures
            final(self).wf(),
            match r {
                Some(request) => exists|i: int| #[trigger]
                    control_store::queued_at(old(self)@.queue, node@, i) && request == old(self)@.queue[i] && final(self)@ == (ControlState {
                        queue: old(self)@.queue.remove(i),
                        ..old(self)@
                    }),
                None => !control_store::is_queued(old(self)@.queue, node@) && final(self)@ == old(self)@,
            },
    {
        let ghost pre = self@;
        let removed: Option<JoinRequest> = self.pending.remove_pending(node);
        proof {
            if removed is Some {
                let i = choose|i: int| #[trigger]
                    control_store::queued_at(pre.queue, node@, i) && removed->0 == pre.queue[i]
                        && self.pending.queue() == pre.queue.remove(i);
                assert(self@ == (ControlState { queue: pre.queue.remove(i), ..pre }));
            }
        }
        removed
    }

    fn handle_admin_reject_join(
        &mut self,
        child: &String,
        reason: &Option<String>,
        verdicts: &Verdicts,
    ) -> (r: Progress)
        requires
            old(self).wf(),
        ensures
            final(self).wf(),
            admin_rejects(old(self)@, *child, *reason, *verdicts, final(self)@, r),
    {
        let ghost pre = self@;
        if !verdicts.well_formed {
            return Progress::Done(ControlReply::Rejected(RejectCode::BadRequest));
        }
        let request: JoinRequest = match self.reject_pending(child) {
            Some(request) => request,
            None => return Progress::Done(ControlReply::Rejected(RejectCode::NotFound)),
        };
        let ghost at = choose|i: int| #[trigger]
            control_store::queued_at(pre.queue, child@, i) && request == pre.queue[i] && self@ == (
            ControlState { queue: pre.queue.remove(i), ..pre });
        let shown: String = match reason {
            Some(reason) => reason.clone(),
            None => "rejected".to_owned(),
        };
        let r: Progress = Progress::Announce {
            saves: Saves { record: false, peers: false, pending: true },
            decision: ControlRequest::JoinRejected(
                JoinRejection { child: child.clone(), reason: shown, nonce: request.nonce },
            ),
            then: ControlReply::AdminRejected {
                child: child.clone(),
                delivery: DeliveryStatus::Unreachable,
            },
        };
        assert(rejects_at(pre, *child, *reason, at, self@, r));
        r
    }

    /// The stored decision for `child`.
    fn stored_decision(&self, child: &String) -> (r: Option<usize>)
        ensures
            match r {
                Some(i) => decided_at(self@.decisions, child@, i as int),
                None => !is_decided(self@.decisions, child@),
            },
    {
        let mut i: usize = 0;
        while i < self.decisions.len()
            invariant
                i <= self.decisions@.len(),
                self@.decisions == self.decisions@,
                forall|j: int| 0 <= j < i ==> !#[trigger] decided_at(self.decisions@, child@, j),
            decreases self.decisions@.len() - i,
        {
            if targets(&self.decisions[i], child) {
                return Some(i);
            }
            i = i + 1;
        }
        proof {
            assert forall|j: int| !#[trigger] decided_at(self.decisions@, child@, j) by {}
        }
        None
    }

    fn handle_admin_redeliver_join(&mut self, child: &String, verdicts: &Verdicts) -> (r: Progress)
        requires
            old(self).wf(),
        ensures
            final(self).wf(),
            redelivers(old(self)@, child@, *verdicts, final(self)@, r),
    {
        let ghost pre = self@;
        if !verdicts.well_formed {
            return Progress::Done(ControlReply::Rejected(RejectCode::BadRequest));
        }
        let at: usize = match self.stored_decision(child) {
            Some(at) => at,
            None => return Progress::Done(ControlReply::Rejected(RejectCode::NotFound)),
        };
        assert(is_decided(pre.decisions, child@)) by {
            assert(decided_at(pre.decisions, child@, at as int));
        }
        let stored: SignedControl = self.decisions[at].copied();
        let (target, kind, then): (String, OutboundKind, ControlReply) = match &stored.request {
            ControlRequest::JoinApproved(approval) => (
                approval.child.clone(),
                OutboundKind::Approved,
                ControlReply::AdminApproved {
                    child: approval.child.clone(),
                    slot: approval.slot,
                    address: approval.address.copied(),
                    delivery: DeliveryStatus::Unreachable,
                },
            ),
            ControlRequest::JoinRejected(rejection) => (
                rejection.child.clone(),
                OutboundKind::Rejected,
                ControlReply::AdminRejected {
                    child: rejection.child.clone(),
                    delivery: DeliveryStatus::Unreachable,
                },
            ),
            _ => {
                return Progress::Done(ControlReply::Rejected(RejectCode::Internal));
            },
        };
        self.outbound.push(OutboundControl { target, signed: stored, kind });
        let r: Progress = Progress::Done(then);
        assert(resends(pre, at as int, child@, self@, r));
        r
    }

    /// Keep a decision as the most recent one for its child.
    fn store_decision(&mut self, signed: SignedControl)
        requires
            old(self).wf(),
        ensures
            final(self).wf(),
            final(self)@ == (ControlState {
                decisions: with_decision(old(self)@.decisions, signed),
                ..old(self)@
            }),
    {
        let ghost pre = self@;
        let child: String = match &signed.request {
            ControlRequest::JoinApproved(approval) => approval.child.clone(),
            ControlRequest::JoinRejected(rejection) => rejection.child.clone(),
            _ => return ,
        };
        proof {
            lemma_with_decision(pre.decisions, signed);
            lemma_undecided(pre.decisions, child@);
        }
        let mut kept: Vec<SignedControl> = Vec::new();
        let mut i: usize = 0;
        while i < self.decisions.len()
            invariant
                i <= self.decisions@.len(),
                self.decisions@ == pre.decisions,
                self@ == pre,
                kept@ == undecided(pre.decisions.take(i as int), child@),
            decreases self.decisions@.len() - i,
        {
            proof {
                reveal(Seq::filter);
                assert(pre.decisions.take(i + 1).drop_last() =~= pre.decisions.take(i as int));
                assert(pre.decisions.take(i + 1).last() == pre.decisions[i as int]);
            }
            if !targets(&self.decisions[i], &child) {
                kept.push(self.decisions[i].copied());
            }
            i = i + 1;
        }
        assert(pre.decisions.take(i as int) =~= pre.decisions);
        kept.push(signed);
        if kept.len() > MAX_STORED_DECISIONS {
            let extra: usize = kept.len() - MAX_STORED_DECISIONS;
            let newest: Vec<SignedControl> = kept.split_off(extra);
            assert(newest@ =~= with_decision(pre.decisions, signed));
            self.decisions = newest;
        } else {
            self.decisions = kept;
        }
    }

    /// Queue a signed decision for delivery and answer the admin. `signed` is
    /// none when the decision could not be signed.
    pub fn announce(&mut self, signed: Option<SignedControl>, then: ControlReply) -> (r:
        ControlReply)
        requires
            old(self).wf(),
            signed matches Some(decision) ==> decision_target(decision) is Some,
        ensures
            final(self).wf(),
            match signed {
                None => final(self)@ == old(self)@ && r == ControlReply::Rejected(
                    RejectCode::Internal,
                ),
                Some(decision) => {
                    &&& r == then
                    &&& final(self)@.outbound.len() == old(self)@.outbound.len() + 1
                    &&& final(self)@.outbound.drop_last() == old(self)@.outbound
                    &&& final(self)@.outbound.last().signed == decision
                    &&& decision_target(decision) == Some(final(self)@.outbound.last().target@)
                    &&& final(self)@.outbound.last().kind == (if decision.request is JoinApproved {
                        OutboundKind::Approved
                    } else {
                        OutboundKind::Rejected
                    })
                    &&& final(self)@ == (ControlState {
                        decisions: with_decision(old(self)@.decisions, decision),
                        outbound: final(self)@.outbound,
                        ..old(self)@
                    })
                },
            },
    {
        let ghost pre = self@;
        let signed: SignedControl = match signed {
            Some(signed) => signed,
            None => return ControlReply::Rejected(RejectCode::Internal),
        };
        let (target, kind): (String, OutboundKind) = match &signed.request {
            ControlRequest::JoinApproved(approval) => (
                approval.child.clone(),
                OutboundKind::Approved,
            ),
            ControlRequest::JoinRejected(rejection) => (
                rejection.child.clone(),
                OutboundKind::Rejected,
            ),
            _ => return ControlReply::Rejected(RejectCode::Internal),
        };
        self.store_decision(signed.copied());
        self.outbound.push(OutboundControl { target, signed, kind });
        assert(self@.outbound.drop_last() =~= pre.outbound);
        then
    }

    /// Note the join that this node asks for. Save the joins in flight
    /// afterwards.
    pub fn begin_outbound_join(
        &mut self,
        request: JoinRequest,
        parent: String,
        pinned_operator: Option<OperatorPubKey>,
    )
        requires
            old(self).wf(),
        ensures
            final(self).wf(),
            final(self)@ == (ControlState {
                asked: Some(OutboundJoin { request, parent, pinned_operator }),
                ..old(self)@
            }),
    {
        self.pending.set_outbound(request, parent, pinned_operator);
    }

    /// Insert or replace a grant of this node's operator. Save the grants
    /// afterwards. `invalid` is the message of the failed signature check.
    pub fn grant_admin(
        &mut self,
        signed: SignedAdminGrant,
        limits: &ControlLimits,
        invalid: String,
    ) -> (r: Result<(), ControlError>)
        requires
            old(self).wf(),
        ensures
            final(self).wf(),
            if signed.grant.version != limits.grant_version {
                &&& final(self)@ == old(self)@
                &&& r == Err::<(), ControlError>(
                    ControlError::UnsupportedVersion(signed.grant.version),
                )
            } else if signed.grant.node@ != old(self)@.node_id {
                &&& final(self)@ == old(self)@
                &&& r matches Err(ControlError::Codec(m))
                &&& m@ == "admin grant is scoped to node '"@ + signed.grant.node@
                    + "', expected '"@ + old(self)@.node_id + "'"@
            } else if !signed.spec_verifies(old(self)@.operator) {
                &&& final(self)@ == old(self)@
                &&& r == Err::<(), ControlError>(ControlError::Codec(invalid))
            } else {
                &&& r == Ok::<(), ControlError>(())
                &&& final(self)@ == (ControlState {
                    admins: final(self)@.admins,
                    ..old(self)@
                })
                &&& if admin_store::has_grant(old(self)@.admins, signed.grant.admin) {
                    exists|i: int| #[trigger]
                        admin_store::grant_at(old(self)@.admins, signed.grant.admin, i) && final(self)@.admins == old(self)@.admins.update(i, signed)
                } else {
                    final(self)@.admins == old(self)@.admins.push(signed)
                }
            },
    {
        if signed.grant.version != limits.grant_version {
            return Err(ControlError::UnsupportedVersion(signed.grant.version));
        }
        if signed.grant.node != self.node_id {
            let mut message: String = text::between(
                "admin grant is scoped to node '",
                signed.grant.node.as_str(),
                "', expected '",
            );
            message.append(self.node_id.as_str());
            message.append("'");
            return Err(ControlError::Codec(message));
        }
        if !signed.verifies(&self.operator) {
            return Err(ControlError::Codec(invalid));
        }
        self.admins.grant(signed);
        Ok(())
    }

    /// Remove the grant of `admin` and say whether there was one; if so, save
    /// the grants afterwards.
    pub fn revoke_admin(&mut self, admin: &OperatorPubKey) -> (r: bool)
        requires
            old(self).wf(),
        ensures
            final(self).wf(),
            r == admin_store::has_grant(old(self)@.admins, *admin),
            final(self)@ == (ControlState {
                admins: admin_store::without_admin(old(self)@.admins, *admin),
                ..old(self)@
            }),
    {
        self.admins.revoke(admin)
    }
}

/// Whether a decision is for `child`.
fn targets(signed: &SignedControl, child: &String) -> (r: bool)
    ensures
        r == (decision_target(*signed) == Some(child@)),
{
    match &signed.request {
        ControlRequest::JoinApproved(approval) => approval.child == *child,
        ControlRequest::JoinRejected(rejection) => rejection.child == *child,
        _ => false,
    }
}

/// A refused request changes nothing. The one exception is an approval that the
/// record or the registry refuses: its applicant goes back to the end of the
/// queue.
pub proof fn law_refusal_changes_nothing(
    pre: ControlState,
    signed: SignedControl,
    now: u64,
    verdicts: Verdicts,
    post: ControlState,
    r: Progress,
)
    requires
        dispatched(pre, signed, now, verdicts, post, r),
        r is Done,
        r->0 is Rejected,
        !(signed.request is AdminApproveJoin),
    ensures
        post == pre,
{
}

/// No request makes the queue of applicants longer than its bound.
pub proof fn law_join_queue_is_bounded(
    pre: ControlState,
    signed: SignedControl,
    now: u64,
    verdicts: Verdicts,
    post: ControlState,
    r: Progress,
)
    requires
        pre.ok(),
        dispatched(pre, signed, now, verdicts, post, r),
        pre.queue.len() <= MAX_PENDING_JOINS,
    ensures
        post.queue.len() <= MAX_PENDING_JOINS,
{
}

/// One step of an engine: a request that was received, or something that makes
/// the queue of applicants no longer.
pub open spec fn steps_to(pre: ControlState, post: ControlState) -> bool {
    ||| post.queue.len() <= pre.queue.len()
    ||| exists|
        signed: SignedControl,
        replayed: bool,
        limits: ControlLimits,
        now: u64,
        verdicts: Verdicts,
        r: Progress,
    | #[trigger]
        received(pre, signed, replayed, limits, now, verdicts, post, r)
}

/// However many requests come, the queue of applicants stays within its bound
/// and holds at most one request of each node.
pub proof fn law_join_queue_stays_bounded(states: Seq<ControlState>, i: int)
    requires
        forall|k: int| 0 <= k < states.len() ==> (#[trigger] states[k]).ok(),
        forall|k: int|
            0 <= k < states.len() - 1 ==> steps_to(#[trigger] states[k], states[k + 1]),
        0 <= i < states.len(),
        states[0].queue.len() <= MAX_PENDING_JOINS,
    ensures
        states[i].queue.len() <= MAX_PENDING_JOINS,
        control_store::distinct_nodes(states[i].queue),
    decreases i,
{
    assert(states[i].ok());
    if i > 0 {
        law_join_queue_stays_bounded(states, i - 1);
        let pre = states[i - 1];
        let post = states[i];
        assert(steps_to(pre, states[i - 1 + 1]));
        if post.queue.len() > pre.queue.len() {
            let (signed, replayed, limits, now, verdicts, r) = choose|
                signed: SignedControl,
                replayed: bool,
                limits: ControlLimits,
                now: u64,
                verdicts: Verdicts,
                r: Progress,
            | #[trigger]
                received(pre, signed, replayed, limits, now, verdicts, post, r);
            assert(dispatched(pre, signed, now, verdicts, post, r));
            law_join_queue_is_bounded(pre, signed, now, verdicts, post, r);
        }
    }
}

/// An applicant's own request, well formed and in time, that passes the checks.
pub open spec fn sound_join(
    signed: SignedControl,
    join: JoinRequest,
    limits: ControlLimits,
    now: u64,
    verdicts: Verdicts,
) -> bool {
    &&& signed.request == ControlRequest::Join(join)
    &&& spec_check_request(signed, verdicts.signature, limits, now) is None
    &&& signed.controller == join.operator
    &&& signed.origin@ == join.node@
    &&& verdicts.well_formed
    &&& now <= join.expiry
}

/// There is a slot for the applicant: the one it asks for, or any.
pub open spec fn slot_for(children: Seq<ChildEntry>, join: JoinRequest) -> bool {
    match join.desired_slot {
        Some(slot) => !record::slot_taken(children, slot as int),
        None => exists|s: int|
            0 <= s <= MAX_SLOT && !(#[trigger] record::slot_taken(children, s)),
    }
}

/// A sound request of a new applicant joins the queue at its end while there is
/// room, and is refused where the queue is full. An applicant that waits already
/// goes on waiting, and nothing changes.
pub proof fn law_sound_join_waits_while_there_is_room(
    pre: ControlState,
    signed: SignedControl,
    join: JoinRequest,
    limits: ControlLimits,
    now: u64,
    verdicts: Verdicts,
    post: ControlState,
    r: Progress,
)
    requires
        sound_join(signed, join, limits, now, verdicts),
        slot_for(pre.record.children, join),
        received(pre, signed, false, limits, now, verdicts, post, r),
    ensures
        if control_store::is_queued(pre.queue, join.node@) {
            post == pre && r == Progress::Done(ControlReply::Pending)
        } else if pre.queue.len() >= MAX_PENDING_JOINS {
            refused(pre, post, r, RejectCode::Capacity)
        } else {
            &&& post == (ControlState { queue: pre.queue.push(join), ..pre })
            &&& r == (Progress::Save {
                saves: Saves { record: false, peers: false, pending: true },
                then: ControlReply::Pending,
            })
        },
{
}

/// What a replay guard has marked: origin, controller and nonce.
pub type Marks = Set<(Seq<char>, OperatorPubKey, u64)>;

/// What a request is marked by.
pub open spec fn mark_of(signed: SignedControl) -> (Seq<char>, OperatorPubKey, u64) {
    (signed.origin@, signed.controller, signed.nonce)
}

/// A request at a node whose replay guard holds `marks`: the guard is asked and
/// marked once the request passed the checks, and holds `marked` afterwards.
pub open spec fn guarded(
    pre: ControlState,
    marks: Marks,
    signed: SignedControl,
    limits: ControlLimits,
    now: u64,
    verdicts: Verdicts,
    post: ControlState,
    marked: Marks,
    r: Progress,
) -> bool {
    &&& received(pre, signed, marks.contains(mark_of(signed)), limits, now, verdicts, post, r)
    &&& marked == (if spec_check_request(signed, verdicts.signature, limits, now) is None {
        marks.insert(mark_of(signed))
    } else {
        marks
    })
}

/// A request that fails the checks changes nothing and leaves its nonce unused:
/// what is marked stays as it was.
pub proof fn law_failed_check_leaves_no_trace(
    pre: ControlState,
    marks: Marks,
    signed: SignedControl,
    limits: ControlLimits,
    now: u64,
    verdicts: Verdicts,
    post: ControlState,
    marked: Marks,
    r: Progress,
)
    requires
        guarded(pre, marks, signed, limits, now, verdicts, post, marked, r),
        spec_check_request(signed, verdicts.signature, limits, now) is Some,
    ensures
        refused(
            pre,
            post,
            r,
            spec_check_request(signed, verdicts.signature, limits, now)->0,
        ),
        marked == marks,
{
}

/// Whatever a request that passed the checks was answered, the same request
/// again is a replay that changes nothing, in whatever state it finds the node.
pub proof fn law_second_frame_is_a_replay(
    pre: ControlState,
    marks: Marks,
    signed: SignedControl,
    limits: ControlLimits,
    now: u64,
    verdicts: Verdicts,
    post: ControlState,
    marked: Marks,
    r: Progress,
    later: ControlState,
    again: Verdicts,
    end: ControlState,
    marked_again: Marks,
    answer: Progress,
)
    requires
        guarded(pre, marks, signed, limits, now, verdicts, post, marked, r),
        spec_check_request(signed, verdicts.signature, limits, now) is None,
        again.signature == verdicts.signature,
        guarded(later, marked, signed, limits, now, again, end, marked_again, answer),
    ensures
        refused(later, end, answer, RejectCode::Replay),
        marked_again == marked,
{
    assert(marked.insert(mark_of(signed)) =~= marked);
}

/// A delegated admin never changes the topology directly: without this node's
/// operator key and without being the senior child, every topology request is
/// refused, whatever grants are stored.
pub proof fn law_grants_give_no_topology_authority(
    pre: ControlState,
    signed: SignedControl,
    now: u64,
    verdicts: Verdicts,
    post: ControlState,
    r: Progress,
)
    requires
        dispatched(pre, signed, now, verdicts, post, r),
        !signed.request.spec_is_admin(),
        !signed.request.spec_is_join(),
        signed.controller != pre.operator,
        !is_senior(pre.record.children, signed.origin@),
    ensures
        refused(pre, post, r, RejectCode::Unauthorized),
{
}

/// Without this node's operator key and without an active grant the admin
/// surface is closed; in particular the senior child has no part in it.
pub proof fn law_admin_surface_needs_a_grant(
    pre: ControlState,
    signed: SignedControl,
    now: u64,
    verdicts: Verdicts,
    post: ControlState,
    r: Progress,
)
    requires
        dispatched(pre, signed, now, verdicts, post, r),
        signed.request.spec_is_admin(),
        signed.origin@ != pre.node_id || (signed.controller != pre.operator && forall|
            scope: AdminScope,
        |
            !#[trigger] admin_store::is_active(pre.admins, signed.controller, now, scope)),
    ensures
        refused(pre, post, r, RejectCode::Unauthorized),
{
}

/// An approval of an earlier join is never applied to a later one.
pub proof fn law_stale_approvals_are_refused(
    pre: ControlState,
    signed: SignedControl,
    approval: JoinApproval,
    verdicts: Verdicts,
    post: ControlState,
    r: Progress,
)
    requires
        adopts(pre, signed, approval, verdicts, post, r),
        pre.asked matches Some(join) && approval.nonce != join.request.nonce,
    ensures
        refused(pre, post, r, RejectCode::Unauthorized),
{
}

/// The pinned key of an invite binds both answers: no other key can attach this
/// node or cancel its join.
pub proof fn law_pinned_key_binds(
    pre: ControlState,
    signed: SignedControl,
    approval: JoinApproval,
    verdicts: Verdicts,
    post: ControlState,
    r: Progress,
)
    requires
        verdicts.signature,
        verdicts.well_formed,
        pre.asked matches Some(join) && (join.pinned_operator matches Some(key) && key
            != signed.controller),
    ensures
        adopts(pre, signed, approval, verdicts, post, r) ==> refused(
            pre,
            post,
            r,
            RejectCode::Unauthorized,
        ),
        abandons(pre, signed, verdicts, post, r) ==> refused(
            pre,
            post,
            r,
            RejectCode::Unauthorized,
        ),
{
}

/// An approved child sits at a free slot below this node and its address is
/// derived from that slot.
pub proof fn law_approved_child_is_placed(
    pre: ControlState,
    node: Seq<char>,
    slot: Option<u8>,
    now: u64,
    parent_ledger: LedgerPubKey,
    insertion: Option<PeerInsertError>,
    post: ControlState,
    approval: JoinApproval,
)
    requires
        pre.ok(),
        approves(
            pre,
            node,
            slot,
            now,
            parent_ledger,
            insertion,
            post,
            Ok::<JoinApproval, ControlError>(approval),
        ),
    ensures
        approval.child@ == node,
        approval.address.spec_parent() == pre.record.address,
        approval.address.spec_slot() == Some(approval.slot),
        !record::slot_taken(pre.record.children, approval.slot as int),
        approval.slot <= MAX_SLOT,
        record::has_child(post.record.children, node),
        slot matches Some(named) ==> approval.slot == named,
{
    let got = Ok::<JoinApproval, ControlError>(approval);
    let (i, s) = choose|i: int, s: u8|
        control_store::queued_at(pre.queue, node, i) && is_given_slot(pre, slot, s)
            && #[trigger] approves_at(pre, now, parent_ledger, insertion, i, s, post, got);
    let last = post.record.children.len() - 1;
    assert(post.record.children[last].child_id@ == node);
}

/// The two rows are of one child: the same id, kind and date of joining.
pub open spec fn same_member(a: ChildEntry, b: ChildEntry) -> bool {
    a.child_id@ == b.child_id@ && a.kind == b.kind && a.date_joined == b.date_joined
}

/// The child is in the list, at whatever slot.
pub open spec fn has_member(list: Seq<ChildEntry>, child: ChildEntry) -> bool {
    exists|i: int| 0 <= i < list.len() && same_member(child, #[trigger] list[i])
}

/// Every child of the first list is in the second.
pub open spec fn are_members(a: Seq<ChildEntry>, b: Seq<ChildEntry>) -> bool {
    forall|i: int| 0 <= i < a.len() ==> #[trigger] has_member(b, a[i])
}

proof fn lemma_same_members_same_senior(a: Seq<ChildEntry>, b: Seq<ChildEntry>, id: Seq<char>)
    requires
        are_members(a, b),
        are_members(b, a),
        is_senior(a, id),
    ensures
        is_senior(b, id),
{
    let i = choose|i: int| #[trigger] senior_at(a, i) && a[i].child_id@ == id;
    assert(has_member(b, a[i]));
    let j = choose|j: int| 0 <= j < b.len() && same_member(a[i], #[trigger] b[j]);
    assert forall|k: int| 0 <= k < b.len() && (#[trigger] b[k]).kind == ChildKind::Node implies
        b[j].date_joined < b[k].date_joined || (b[j].date_joined == b[k].date_joined
        && !text::text_less(b[k].child_id@, b[j].child_id@)) by {
        assert(has_member(a, b[k]));
        let m = choose|m: int| 0 <= m < a.len() && same_member(b[k], #[trigger] a[m]);
        assert(a[m].kind == ChildKind::Node);
    }
    assert(senior_at(b, j));
}

/// A list in which one child is taken out and put at the end, at another slot,
/// has the same children.
proof fn lemma_reslotting_keeps_members(
    before: Seq<ChildEntry>,
    after: Seq<ChildEntry>,
    i: int,
    placed: ChildEntry,
)
    requires
        0 <= i < before.len(),
        after == before.remove(i).push(placed),
        same_member(before[i], placed),
    ensures
        are_members(before, after),
        are_members(after, before),
{
    let last = after.len() - 1;
    assert forall|j: int| 0 <= j < before.len() implies #[trigger] has_member(after, before[j]) by {
        if j < i {
            assert(same_member(before[j], after[j]));
        } else if j == i {
            assert(same_member(before[j], after[last]));
        } else {
            assert(same_member(before[j], after[j - 1]));
        }
    }
    assert forall|m: int| 0 <= m < after.len() implies #[trigger] has_member(before, after[m]) by {
        if m == last {
            assert(same_member(after[m], before[i]));
        } else if m < i {
            assert(same_member(after[m], before[m]));
        } else {
            assert(same_member(after[m], before[m + 1]));
        }
    }
}

/// Moving a child changes its slot and nothing else. Every child, the moved one
/// too, keeps its id, its kind and the date of its joining; the others keep their
/// slots as well; the moved one sits where it was asked to, or at the lowest slot
/// that the others leave free. So whoever was the senior child is so afterwards.
pub proof fn law_move_keeps_who_the_children_are(
    engine: &mut ControlNode,
    signed: SignedControl,
    replayed: bool,
    limits: ControlLimits,
    now: u64,
    verdicts: Verdicts,
    r: Progress,
    moved: MoveChild,
    k: int,
    id: Seq<char>,
)
    requires
        call_ensures(
            ControlNode::receive_at,
            (engine, &signed, replayed, &limits, now, &verdicts),
            r,
        ),
        signed.request == ControlRequest::MoveChild(moved),
        r is Save,
    ensures
        ({
            let before = old(engine)@.record.children;
            let after = final(engine)@.record.children;
            &&& after.len() == before.len()
            &&& are_members(before, after)
            &&& are_members(after, before)
            &&& 0 <= k < before.len() && before[k].child_id@ != moved.child@ ==> after.contains(
                before[k],
            )
            &&& after.last().child_id@ == moved.child@
            &&& 0 <= k < before.len() && before[k].child_id@ == moved.child@ && (forall|j: int|
                0 <= j < k ==> (#[trigger] before[j]).child_id@ != moved.child@)
                ==> after.last().date_joined == before[k].date_joined && after.last().kind
                == before[k].kind
            &&& moved.slot matches Some(slot) ==> after.last().slot == slot
            &&& moved.slot is None ==> forall|s: int|
                0 <= s < after.last().slot ==> #[trigger] record::slot_taken(after.drop_last(), s)
            &&& is_senior(before, id) <==> is_senior(after, id)
            &&& final(engine)@.record.address == old(engine)@.record.address
            &&& final(engine)@.record.parent == old(engine)@.record.parent
            &&& final(engine)@.peers == old(engine)@.peers
            &&& final(engine)@.queue == old(engine)@.queue
            &&& final(engine)@.admins == old(engine)@.admins
        }),
{
    let pre = old(engine)@;
    let post = final(engine)@;
    let before = pre.record.children;
    let after = post.record.children;
    assert(moves(pre, moved, post, r));
    let (i, got) = choose|i: int, got: Result<u8, RejectCode>|
        first_child(before, moved.child@, i) && #[trigger] reslots(pre, moved, i, got, post, r);
    let rest = before.remove(i);
    assert(after.drop_last() =~= rest);
    lemma_reslotting_keeps_members(before, after, i, after.last());
    if 0 <= k < before.len() && before[k].child_id@ == moved.child@ && (forall|j: int|
        0 <= j < k ==> (#[trigger] before[j]).child_id@ != moved.child@) {
        assert(before[i].child_id@ == moved.child@);
        assert(!(i < k) && !(k < i));
    }
    if 0 <= k < before.len() && before[k].child_id@ != moved.child@ {
        if k < i {
            assert(after[k] == before[k]);
        } else {
            assert(after[k - 1] == before[k]);
        }
    }
    if is_senior(before, id) {
        lemma_same_members_same_senior(before, after, id);
    }
    if is_senior(after, id) {
        lemma_same_members_same_senior(after, before, id);
    }
}

/// Creating a child adds that child and its registry row, and nothing else: at
/// the slot it was asked for or the lowest free one, with the kind and the date
/// that were given, under the keys that were given, as a node or a user.
pub proof fn law_create_adds_one_child(
    engine: &mut ControlNode,
    signed: SignedControl,
    replayed: bool,
    limits: ControlLimits,
    now: u64,
    verdicts: Verdicts,
    r: Progress,
    create: CreateChild,
)
    requires
        call_ensures(
            ControlNode::receive_at,
            (engine, &signed, replayed, &limits, now, &verdicts),
            r,
        ),
        signed.request == ControlRequest::CreateChild(create),
        r is Save,
    ensures
        ({
            let before = old(engine)@.record.children;
            let after = final(engine)@.record.children;
            let rows = old(engine)@.peers;
            let row = final(engine)@.peers[create.child@];
            &&& after.len() == before.len() + 1
            &&& after.drop_last() =~= before
            &&& after.last().child_id == create.child
            &&& after.last().kind == create.kind
            &&& after.last().date_joined == create.date_joined
            &&& after.last().slot <= 7
            &&& create.slot matches Some(slot) ==> after.last().slot == slot
            &&& forall|j: int|
                0 <= j < before.len() ==> (#[trigger] before[j]).slot != after.last().slot
                    && before[j].child_id@ != create.child@
            &&& final(engine)@.peers.dom() =~= rows.dom().insert(create.child@)
            &&& forall|other: Seq<char>|
                other != create.child@ && #[trigger] rows.contains_key(other)
                    ==> final(engine)@.peers[other] == rows[other]
            &&& row.node_id == create.child
            &&& row.operator == create.operator
            &&& row.ledger == create.ledger
            &&& row.role == PeerRole::Node <==> create.kind == ChildKind::Node
            &&& final(engine)@.record.address == old(engine)@.record.address
            &&& final(engine)@.record.parent == old(engine)@.record.parent
            &&& final(engine)@.queue == old(engine)@.queue
        }),
{
    let pre = old(engine)@;
    let post = final(engine)@;
    let got = choose|got: Result<u8, RejectCode>| #[trigger]
        creates(pre, create, verdicts, got, post, r);
    let before = pre.record.children;
    assert forall|j: int| 0 <= j < before.len() implies (#[trigger] before[j]).slot
        != post.record.children.last().slot && before[j].child_id@ != create.child@ by {
        assert(!record::has_child(before, create.child@));
        assert(!record::slot_taken(before, post.record.children.last().slot as int));
    }
}

/// Detaching a child takes that child out and leaves everything else: the other
/// children as they were, and every registry row.
pub proof fn law_detach_takes_out_one_child(
    engine: &mut ControlNode,
    signed: SignedControl,
    replayed: bool,
    limits: ControlLimits,
    now: u64,
    verdicts: Verdicts,
    r: Progress,
    child: String,
    k: int,
)
    requires
        call_ensures(
            ControlNode::receive_at,
            (engine, &signed, replayed, &limits, now, &verdicts),
            r,
        ),
        signed.request == ControlRequest::DetachChild(child),
        r is Save,
    ensures
        ({
            let before = old(engine)@.record.children;
            let after = final(engine)@.record.children;
            &&& before.len() == after.len() + 1
            &&& 0 <= k < before.len() && before[k].child_id@ != child@ ==> after.contains(
                before[k],
            )
            &&& 0 <= k < after.len() ==> before.contains(after[k])
            &&& (forall|i: int, j: int|
                0 <= i < j < before.len() ==> (#[trigger] before[i]).child_id@ != (
                #[trigger] before[j]).child_id@) && 0 <= k < after.len() ==> after[k].child_id@
                != child@
            &&& final(engine)@.peers == old(engine)@.peers
            &&& final(engine)@.record.address == old(engine)@.record.address
            &&& final(engine)@.record.parent == old(engine)@.record.parent
            &&& final(engine)@.queue == old(engine)@.queue
            &&& final(engine)@.admins == old(engine)@.admins
        }),
{
    let pre = old(engine)@;
    let before = pre.record.children;
    let after = final(engine)@.record.children;
    let i = choose|i: int| #[trigger]
        first_child(before, child@, i) && final(engine)@ == (ControlState {
            record: without_child(pre.record, i),
            ..pre
        }) && r == record_saved();
    if 0 <= k < before.len() && before[k].child_id@ != child@ {
        if k < i {
            assert(after[k] == before[k]);
        } else {
            assert(after[k - 1] == before[k]);
        }
    }
    if 0 <= k < after.len() {
        let from = if k < i {
            k
        } else {
            k + 1
        };
        assert(after[k] == before[from]);
    }
}

/// Setting the address stores that address and changes neither the children nor
/// the parent nor anything beside the record.
pub proof fn law_address_is_set_as_asked(
    engine: &mut ControlNode,
    signed: SignedControl,
    replayed: bool,
    limits: ControlLimits,
    now: u64,
    verdicts: Verdicts,
    r: Progress,
    address: Option<OctAddr>,
)
    requires
        call_ensures(
            ControlNode::receive_at,
            (engine, &signed, replayed, &limits, now, &verdicts),
            r,
        ),
        signed.request == ControlRequest::SetAddress(address),
        r is Save,
    ensures
        final(engine)@.record.address == address,
        final(engine)@.record.children == old(engine)@.record.children,
        final(engine)@.record.parent == old(engine)@.record.parent,
        final(engine)@.record.node_id == old(engine)@.record.node_id,
        final(engine)@.peers == old(engine)@.peers,
        final(engine)@.queue == old(engine)@.queue,
        final(engine)@.admins == old(engine)@.admins,
{
}

/// A child that was created can be detached again, and then everyone else is
/// where they were: the list of children is the one from before.
pub proof fn law_detach_undoes_create(
    first: &mut ControlNode,
    second: &mut ControlNode,
    ask: SignedControl,
    undo: SignedControl,
    limits: ControlLimits,
    now: u64,
    verdicts: Verdicts,
    again: Verdicts,
    r: Progress,
    q: Progress,
    create: CreateChild,
)
    requires
        call_ensures(ControlNode::receive_at, (first, &ask, false, &limits, now, &verdicts), r),
        ask.request == ControlRequest::CreateChild(create),
        r is Save,
        old(second)@ == final(first)@,
        call_ensures(ControlNode::receive_at, (second, &undo, false, &limits, now, &again), q),
        undo.request == ControlRequest::DetachChild(create.child),
        q is Save,
    ensures
        final(second)@.record.children =~= old(first)@.record.children,
{
    let pre = old(first)@;
    let mid = final(first)@;
    let got = choose|got: Result<u8, RejectCode>| #[trigger]
        creates(pre, create, verdicts, got, mid, r);
    let children = mid.record.children;
    let i = choose|i: int| #[trigger]
        first_child(children, create.child@, i) && final(second)@ == (ControlState {
            record: without_child(mid.record, i),
            ..mid
        }) && q == record_saved();
    if i < children.len() - 1 {
        assert(pre.record.children[i].child_id@ == create.child@);
        assert(record::has_child(pre.record.children, create.child@));
    }
}

/// The topology changes, and is shown, only for this node's operator under a
/// signature that holds, or for the senior child as its registered operator: a
/// node child that no other node child joined before, nor together with under a
/// smaller id. Everyone else is refused, and nothing changes.
pub proof fn law_topology_is_for_operator_and_senior(
    engine: &mut ControlNode,
    signed: SignedControl,
    replayed: bool,
    limits: ControlLimits,
    now: u64,
    verdicts: Verdicts,
    r: Progress,
    k: int,
)
    requires
        call_ensures(
            ControlNode::receive_at,
            (engine, &signed, replayed, &limits, now, &verdicts),
            r,
        ),
        signed.request is CreateChild || signed.request is DetachChild || signed.request
            is MoveChild || signed.request is SetAddress || signed.request is Query,
        !(r is Done && r->Done_0 is Rejected),
    ensures
        signed.version == limits.format_version,
        verdicts.signature,
        now <= signed.expiry <= now + limits.max_ttl,
        !replayed,
        signed.origin@ == old(engine)@.node_id ==> signed.controller == old(engine)@.operator,
        signed.origin@ != old(engine)@.node_id ==> {
            let children = old(engine)@.record.children;
            &&& verdicts.registration is None
            &&& exists|i: int|
                #![trigger children[i]]
                0 <= i < children.len() && children[i].child_id@ == signed.origin@
                    && children[i].kind == ChildKind::Node && (0 <= k < children.len()
                    && children[k].kind == ChildKind::Node ==> children[i].date_joined
                    <= children[k].date_joined && (children[i].date_joined
                    == children[k].date_joined ==> !text::text_less(
                    children[k].child_id@,
                    children[i].child_id@,
                )))
        },
{
    let children = old(engine)@.record.children;
    if signed.origin@ != old(engine)@.node_id {
        let i = choose|i: int| #[trigger]
            senior_at(children, i) && children[i].child_id@ == signed.origin@;
        assert(children[i].kind == ChildKind::Node);
    }
}

/// A query changes nothing and shows the node as it is: its id and address, each
/// child with its kind, slot and date of joining, and each child's address as this
/// node's with the child's slot behind it.
pub proof fn law_query_shows_the_record(
    engine: &mut ControlNode,
    signed: SignedControl,
    limits: ControlLimits,
    now: u64,
    verdicts: Verdicts,
    r: Progress,
    k: int,
)
    requires
        call_ensures(
            ControlNode::receive_at,
            (engine, &signed, false, &limits, now, &verdicts),
            r,
        ),
        signed.request == ControlRequest::Query,
        signed.version == limits.format_version,
        verdicts.signature,
        now <= signed.expiry <= now + limits.max_ttl,
        signed.origin@ == old(engine)@.node_id,
        signed.controller == old(engine)@.operator,
    ensures
        final(engine)@ == old(engine)@,
        r matches Progress::Done(ControlReply::Snapshot(shown)) && {
            let state = old(engine)@.record;
            &&& shown.node_id@ == old(engine)@.node_id
            &&& shown.address == state.address
            &&& shown.children@.len() == state.children.len()
            &&& 0 <= k < state.children.len() ==> {
                &&& shown.children@[k].child_id == state.children[k].child_id
                &&& shown.children@[k].kind == state.children[k].kind
                &&& shown.children@[k].slot == state.children[k].slot
                &&& shown.children@[k].date_joined == state.children[k].date_joined
                &&& state.address matches Some(up) ==> shown.children@[k].address == Some(
                    OctAddr::Child(Box::new(up), state.children[k].slot),
                )
            }
            &&& shown.parent matches Some(parent) ==> state.parent is Some && parent.node_id
                == state.parent->0.parent_id && parent.slot == state.parent->0.slot
                && state.address == Some(
                OctAddr::Child(Box::new(parent.address), state.address->0.spec_slot()->0),
            )
        },
{
    let state = old(engine)@.record;
    let shown = r->Done_0->Snapshot_0;
    if 0 <= k < state.children.len() {
        assert(is_child_shown(state.children[k], state.address, shown.children@[k]));
    }
}

/// A request's time: it stands from its signing until its expiry, both ends
/// counted, and may not reach further ahead than the longest time allowed.
pub proof fn law_requests_stand_in_their_time(
    signed: SignedControl,
    limits: ControlLimits,
    now: u64,
    r: Option<RejectCode>,
    unsigned: Option<RejectCode>,
)
    requires
        signed.version == limits.format_version,
        call_ensures(check_request, (&signed, true, &limits, now), r),
        call_ensures(check_request, (&signed, false, &limits, now), unsigned),
    ensures
        r is None <==> now <= signed.expiry && signed.expiry - now <= limits.max_ttl,
        signed.expiry < now ==> r == Some(RejectCode::Expired),
        signed.expiry > now + limits.max_ttl ==> r == Some(RejectCode::BadRequest),
        unsigned == Some(RejectCode::Unauthorized),
{
}

/// The senior child is a node child, joined before every other node child or
/// with it, and then has the smaller id. Users do not count, and slots and the
/// order of the list do not matter.
pub proof fn law_seniority_goes_by_joining(
    children: Vec<ChildEntry>,
    reordered: Vec<ChildEntry>,
    id: String,
    r: bool,
    q: bool,
    i: int,
    k: int,
)
    requires
        call_ensures(is_senior_child, (&children, &id), r),
        call_ensures(is_senior_child, (&reordered, &id), q),
        are_members(children@, reordered@),
        are_members(reordered@, children@),
        0 <= i < children@.len(),
        children@[i].child_id@ == id@,
        forall|j: int|
            0 <= j < children@.len() && j != i ==> (#[trigger] children@[j]).child_id@ != id@,
        0 <= k < children@.len(),
        children@[k].kind == ChildKind::Node,
        k != i,
    ensures
        r == q,
        children@[i].kind == ChildKind::User ==> !r,
        children@[k].date_joined < children@[i].date_joined ==> !r,
        children@[k].date_joined == children@[i].date_joined && text::text_less(
            children@[k].child_id@,
            children@[i].child_id@,
        ) ==> !r,
        children@[i].kind == ChildKind::Node && (forall|j: int|
            0 <= j < children@.len() && j != i && (#[trigger] children@[j]).kind == ChildKind::Node
                ==> children@[i].date_joined < children@[j].date_joined) ==> r,
{
    if r {
        lemma_same_members_same_senior(children@, reordered@, id@);
        let a = choose|a: int| #[trigger]
            senior_at(children@, a) && children@[a].child_id@ == id@;
        assert(a == i);
    }
    if q {
        lemma_same_members_same_senior(reordered@, children@, id@);
    }
    if children@[i].kind == ChildKind::Node && (forall|j: int|
        0 <= j < children@.len() && j != i && (#[trigger] children@[j]).kind == ChildKind::Node
            ==> children@[i].date_joined < children@[j].date_joined) {
        let x = children@[i].child_id@;
        text::law_text_order(x, x, x);
        assert(senior_at(children@, i));
    }
}

/// Approving a waiting applicant makes it a child of this node: at the slot that
/// was named or the lowest free one, below this node's address, of the kind and
/// under the keys that it asked with, from now on. It leaves the queue and nobody
/// else does. The decision that goes out answers its very request, by its nonce,
/// and tells it the slot and the address that it got.
pub proof fn law_approval_places_the_applicant(
    engine: &mut ControlNode,
    signed: SignedControl,
    replayed: bool,
    limits: ControlLimits,
    now: u64,
    verdicts: Verdicts,
    child: String,
    slot: Option<u8>,
    saves: Saves,
    decision: ControlRequest,
    then: ControlReply,
    i: int,
)
    requires
        control_store::distinct_nodes(old(engine)@.queue),
        0 <= i < old(engine)@.queue.len(),
        old(engine)@.queue[i].node@ == child@,
        call_ensures(
            ControlNode::receive_at,
            (engine, &signed, replayed, &limits, now, &verdicts),
            Progress::Announce { saves, decision, then },
        ),
        signed.request == (ControlRequest::AdminApproveJoin { child, slot }),
    ensures
        ({
            let pre = old(engine)@;
            let post = final(engine)@;
            let asked = pre.queue[i];
            let placed = post.record.children.last();
            let row = post.peers[child@];
            &&& post.queue =~= pre.queue.remove(i)
            &&& post.record.children.drop_last() =~= pre.record.children
            &&& placed.child_id@ == child@
            &&& placed.kind == asked.kind
            &&& placed.date_joined == now
            &&& slot matches Some(s) ==> placed.slot == s
            &&& slot is None ==> record::is_lowest_free(pre.record.children, placed.slot as int)
            &&& row.node_id@ == child@
            &&& row.operator == asked.operator
            &&& row.ledger == asked.ledger
            &&& row.role == PeerRole::Node <==> asked.kind == ChildKind::Node
            &&& post.record.address == pre.record.address
            &&& post.record.parent == pre.record.parent
            &&& post.admins == pre.admins
            &&& saves.record && saves.peers && saves.pending
            &&& decision matches ControlRequest::JoinApproved(approval)
            &&& approval.child@ == child@
            &&& approval.child_operator == asked.operator
            &&& approval.child_ledger == asked.ledger
            &&& approval.kind == asked.kind
            &&& approval.nonce == asked.nonce
            &&& approval.slot == placed.slot
            &&& approval.date_joined == now
            &&& pre.record.address is Some
            &&& approval.address == OctAddr::Child(Box::new(pre.record.address->0), placed.slot)
            &&& verdicts.parent_ledger == Some(approval.parent_ledger)
            &&& then matches ControlReply::AdminApproved {
                child: told,
                slot: given,
                address,
                delivery,
            }
            &&& told@ == child@
            &&& given == placed.slot
            &&& address == approval.address
        }),
{
    let pre = old(engine)@;
    let post = final(engine)@;
    let r = Progress::Announce { saves, decision, then };
    let got = choose|got: Result<JoinApproval, ControlError>| #[trigger]
        admin_approves(pre, child@, slot, now, verdicts, got, post, r);
    let (j, s) = choose|j: int, s: u8|
        control_store::queued_at(pre.queue, child@, j) && is_given_slot(pre, slot, s)
            && #[trigger] approves_at(
            pre,
            now,
            verdicts.parent_ledger->0,
            verdicts.insertion,
            j,
            s,
            post,
            got,
        );
    assert(pre.queue[j].node@ == pre.queue[i].node@);
    assert(j == i);
}

/// What the parent decides is what the applicant becomes. The decision that an
/// approval sends, handed to the applicant whose request it answers under the
/// parent's name and key, attaches that applicant to this parent: at the slot the
/// parent gave, at the address below the parent's, with the parent's operator and
/// ledger key in its registry.
pub proof fn law_approval_attaches_the_applicant(
    parent: &mut ControlNode,
    ask: SignedControl,
    limits: ControlLimits,
    now: u64,
    parent_verdicts: Verdicts,
    child: String,
    slot: Option<u8>,
    saves: Saves,
    approval: JoinApproval,
    then: ControlReply,
    applicant: &mut ControlNode,
    frame: SignedControl,
    own: JoinRequest,
    later: u64,
    verdicts: Verdicts,
    backup: Backup,
    i: int,
)
    requires
        control_store::distinct_nodes(old(parent)@.queue),
        0 <= i < old(parent)@.queue.len(),
        old(parent)@.queue[i].node@ == child@,
        call_ensures(
            ControlNode::receive_at,
            (parent, &ask, false, &limits, now, &parent_verdicts),
            Progress::Announce { saves, decision: ControlRequest::JoinApproved(approval), then },
        ),
        ask.request == (ControlRequest::AdminApproveJoin { child, slot }),
        frame.request == ControlRequest::JoinApproved(approval),
        frame.origin@ == old(parent)@.node_id,
        frame.controller == old(parent)@.operator,
        old(applicant)@.asked matches Some(join) && join.request == own && join.parent@
            == old(parent)@.node_id,
        !old(applicant)@.peers.contains_key(frame.origin@),
        call_ensures(
            ControlNode::receive_at,
            (applicant, &frame, false, &limits, later, &verdicts),
            Progress::AdoptParent { backup },
        ),
    ensures
        own.node@ == child@,
        own.nonce == approval.nonce,
        ({
            let record = final(applicant)@.record;
            let row = final(applicant)@.peers[frame.origin@];
            &&& record.parent matches Some(link)
            &&& link.parent_id@ == old(parent)@.node_id
            &&& link.slot == approval.slot
            &&& record.address == Some(
                OctAddr::Child(Box::new(old(parent)@.record.address->0), link.slot),
            )
            &&& record.children == old(applicant)@.record.children
            &&& row.operator == old(parent)@.operator
            &&& row.ledger == parent_verdicts.parent_ledger
            &&& row.role == PeerRole::Node
            &&& backup.record@ == old(applicant)@.record
            &&& backup.peers@ == old(applicant)@.peers
        }),
{
    law_approval_places_the_applicant(
        parent,
        ask,
        false,
        limits,
        now,
        parent_verdicts,
        child,
        slot,
        saves,
        ControlRequest::JoinApproved(approval),
        then,
        i,
    );
}

/// An approval that does not answer the request this node has made, or does not
/// come from the parent it asked or from the key it was given, attaches it to
/// nobody: nothing changes.
pub proof fn law_foreign_approvals_attach_nobody(
    engine: &mut ControlNode,
    signed: SignedControl,
    limits: ControlLimits,
    now: u64,
    verdicts: Verdicts,
    approval: JoinApproval,
    r: Progress,
)
    requires
        call_ensures(
            ControlNode::receive_at,
            (engine, &signed, false, &limits, now, &verdicts),
            r,
        ),
        signed.request == ControlRequest::JoinApproved(approval),
        match old(engine)@.asked {
            None => true,
            Some(join) => join.parent@ != signed.origin@ || join.request.node@ != approval.child@
                || join.request.nonce != approval.nonce || (join.pinned_operator is Some
                && join.pinned_operator != Some(signed.controller)),
        },
    ensures
        final(engine)@ == old(engine)@,
        r is Done && r->Done_0 is Rejected,
{
}

/// A rejected applicant leaves the queue and nobody else does; the decision that
/// goes out names it, answers its request by its nonce, and gives the reason that
/// was given. The record and the registry stay.
pub proof fn law_rejection_drops_the_applicant(
    engine: &mut ControlNode,
    signed: SignedControl,
    replayed: bool,
    limits: ControlLimits,
    now: u64,
    verdicts: Verdicts,
    child: String,
    reason: Option<String>,
    saves: Saves,
    decision: ControlRequest,
    then: ControlReply,
    i: int,
)
    requires
        control_store::distinct_nodes(old(engine)@.queue),
        0 <= i < old(engine)@.queue.len(),
        old(engine)@.queue[i].node@ == child@,
        call_ensures(
            ControlNode::receive_at,
            (engine, &signed, replayed, &limits, now, &verdicts),
            Progress::Announce { saves, decision, then },
        ),
        signed.request == (ControlRequest::AdminRejectJoin { child, reason }),
    ensures
        ({
            let pre = old(engine)@;
            let post = final(engine)@;
            &&& post.queue =~= pre.queue.remove(i)
            &&& post.record == pre.record
            &&& post.peers == pre.peers
            &&& post.admins == pre.admins
            &&& saves.pending
            &&& decision matches ControlRequest::JoinRejected(rejection)
            &&& rejection.child@ == child@
            &&& rejection.nonce == pre.queue[i].nonce
            &&& reason matches Some(text) ==> rejection.reason@ == text@
            &&& then matches ControlReply::AdminRejected { child: told, delivery }
            &&& told@ == child@
        }),
{
    let pre = old(engine)@;
    let r = Progress::Announce { saves, decision, then };
    let j = choose|j: int| #[trigger] rejects_at(pre, child, reason, j, final(engine)@, r);
    assert(pre.queue[j].node@ == pre.queue[i].node@);
    assert(j == i);
}

/// A decision is sent again exactly as it was signed, to the child it is for,
/// and nothing else changes.
pub proof fn law_redelivery_repeats_the_decision(
    engine: &mut ControlNode,
    signed: SignedControl,
    replayed: bool,
    limits: ControlLimits,
    now: u64,
    verdicts: Verdicts,
    child: String,
    r: Progress,
)
    requires
        call_ensures(
            ControlNode::receive_at,
            (engine, &signed, replayed, &limits, now, &verdicts),
            r,
        ),
        signed.request == (ControlRequest::AdminRedeliverJoin { child }),
        !(r is Done && r->Done_0 is Rejected),
    ensures
        ({
            let pre = old(engine)@;
            let post = final(engine)@;
            let sent = post.outbound.last();
            &&& post.outbound.drop_last() =~= pre.outbound
            &&& post.outbound.len() == pre.outbound.len() + 1
            &&& sent.target@ == child@
            &&& pre.decisions.contains(sent.signed)
            &&& match sent.signed.request {
                ControlRequest::JoinApproved(approval) => approval.child@ == child@ && sent.kind
                    == OutboundKind::Approved,
                ControlRequest::JoinRejected(rejection) => rejection.child@ == child@ && sent.kind
                    == OutboundKind::Rejected,
                _ => false,
            }
            &&& post.record == pre.record
            &&& post.queue == pre.queue
            &&& post.peers == pre.peers
            &&& post.decisions == pre.decisions
        }),
{
    let pre = old(engine)@;
    let post = final(engine)@;
    let i = choose|i: int| #[trigger] resends(pre, i, child@, post, r);
    assert(pre.decisions[i] == post.outbound.last().signed);
    assert(post.outbound.drop_last() =~= pre.outbound);
}

/// The admin surface answers only requests that are addressed to this node and
/// come under its operator's key, or under a key that a stored grant names and
/// that has not expired. Everyone else is refused, and nothing changes.
pub proof fn law_admin_surface_is_for_operator_and_grantees(
    engine: &mut ControlNode,
    signed: SignedControl,
    replayed: bool,
    limits: ControlLimits,
    now: u64,
    verdicts: Verdicts,
    r: Progress,
)
    requires
        call_ensures(
            ControlNode::receive_at,
            (engine, &signed, replayed, &limits, now, &verdicts),
            r,
        ),
        signed.request is AdminQuery || signed.request is AdminApproveJoin || signed.request
            is AdminRejectJoin || signed.request is AdminRedeliverJoin,
        !(r is Done && r->Done_0 is Rejected),
    ensures
        verdicts.signature,
        !replayed,
        now <= signed.expiry,
        signed.origin@ == old(engine)@.node_id,
        signed.controller == old(engine)@.operator || exists|i: int|
            #![trigger old(engine)@.admins[i]]
            0 <= i < old(engine)@.admins.len() && old(engine)@.admins[i].grant.admin
                == signed.controller && now <= old(engine)@.admins[i].grant.expiry,
{
    let pre = old(engine)@;
    let got = choose|got: Result<Authority, RejectCode>| #[trigger]
        pre.is_admin_authority(signed, now, got) && match got {
            Err(code) => refused(pre, final(engine)@, r, code),
            Ok(_) => admin_done(pre, signed, now, verdicts, final(engine)@, r),
        };
    if signed.controller != pre.operator {
        let scope = got->Ok_0->Delegated_0;
        let i = choose|i: int| #[trigger]
            admin_store::grant_at(pre.admins, signed.controller, i) && now
                <= pre.admins[i].grant.expiry && pre.admins[i].grant.scope == scope;
        assert(pre.admins[i].grant.admin == signed.controller);
    }
}

/// An admin sees the node and every waiting applicant, in order, each with the
/// kind, the key, the slot and the time it asked with; and seeing changes nothing.
pub proof fn law_admin_query_shows_the_queue(
    engine: &mut ControlNode,
    signed: SignedControl,
    limits: ControlLimits,
    now: u64,
    verdicts: Verdicts,
    r: Progress,
    k: int,
)
    requires
        call_ensures(
            ControlNode::receive_at,
            (engine, &signed, false, &limits, now, &verdicts),
            r,
        ),
        signed.request == ControlRequest::AdminQuery,
        signed.version == limits.format_version,
        verdicts.signature,
        now <= signed.expiry <= now + limits.max_ttl,
        signed.origin@ == old(engine)@.node_id,
        signed.controller == old(engine)@.operator,
        old(engine)@.queue.len() <= 64,
    ensures
        final(engine)@ == old(engine)@,
        r matches Progress::Done(ControlReply::AdminSnapshot { node, pending }) && {
            let queue = old(engine)@.queue;
            &&& node.node_id@ == old(engine)@.node_id
            &&& node.address == old(engine)@.record.address
            &&& node.children@.len() == old(engine)@.record.children.len()
            &&& pending@.len() == queue.len()
            &&& 0 <= k < queue.len() ==> {
                &&& pending@[k].child == queue[k].node
                &&& pending@[k].kind == queue[k].kind
                &&& pending@[k].operator == queue[k].operator
                &&& pending@[k].desired_slot == queue[k].desired_slot
                &&& pending@[k].expiry == queue[k].expiry
            }
        },
{
    let pre = old(engine)@;
    let got = choose|got: Result<Authority, RejectCode>| #[trigger]
        pre.is_admin_authority(signed, now, got) && match got {
            Err(code) => refused(pre, final(engine)@, r, code),
            Ok(_) => admin_done(pre, signed, now, verdicts, final(engine)@, r),
        };
    let pending = r->Done_0->pending;
    if 0 <= k < pre.queue.len() {
        assert(is_pending_shown(pre.queue[k], pending@[k]));
    }
}

/// A key that was granted may use the admin surface until its grant expires, and
/// not after it was revoked. Both leave every other key's grant, the record and
/// the queue as they were.
pub proof fn law_grants_open_and_revocations_close(
    granting: &mut ControlNode,
    grant: SignedAdminGrant,
    limits: ControlLimits,
    invalid: String,
    request: SignedControl,
    now: u64,
    may: Result<Authority, RejectCode>,
    granted: ControlNode,
    revoking: &mut ControlNode,
    revoked: ControlNode,
    admin: OperatorPubKey,
    was: bool,
    may_still: Result<Authority, RejectCode>,
)
    requires
        old(granting).wf(),
        call_ensures(
            ControlNode::grant_admin,
            (granting, grant, &limits, invalid),
            Ok::<(), ControlError>(()),
        ),
        granted == *final(granting),
        admin == grant.grant.admin,
        admin != granted@.operator,
        request.controller == admin,
        request.origin@ == granted@.node_id,
        request.request == ControlRequest::AdminQuery,
        call_ensures(ControlNode::authorize_admin, (&granted, &request, now), may),
        *old(revoking) == granted,
        call_ensures(ControlNode::revoke_admin, (revoking, &admin), was),
        revoked == *final(revoking),
        call_ensures(ControlNode::authorize_admin, (&revoked, &request, now), may_still),
    ensures
        grant.grant.version == limits.grant_version,
        grant.grant.node@ == old(granting)@.node_id,
        grant.valid_under@.contains(old(granting)@.operator),
        now <= grant.grant.expiry ==> may == Ok::<Authority, RejectCode>(
            Authority::Delegated(grant.grant.scope),
        ),
        now > grant.grant.expiry ==> may == Err::<Authority, RejectCode>(RejectCode::Unauthorized),
        was,
        may_still == Err::<Authority, RejectCode>(RejectCode::Unauthorized),
        revoked@.record == old(granting)@.record,
        revoked@.queue == old(granting)@.queue,
        revoked@.peers == old(granting)@.peers,
{
    let pre = old(granting)@.admins;
    let post = granted@.admins;
    if admin_store::has_grant(pre, admin) {
        let i = choose|i: int| #[trigger]
            admin_store::grant_at(pre, admin, i) && post == pre.update(i, grant);
        assert(admin_store::grant_at(post, admin, i));
        lemma_grant_decides(granted, admin, i, now);
    } else {
        let i = pre.len() as int;
        assert(admin_store::grant_at(post, admin, i));
        lemma_grant_decides(granted, admin, i, now);
    }
    assert forall|scope: AdminScope| !#[trigger] admin_store::is_active(
        revoked@.admins,
        admin,
        now,
        scope,
    ) by {
        admin_store::law_revocation_is_final(post, admin, admin, now, scope);
    }
    let scope = grant.grant.scope;
    assert(admin_store::is_active(post, admin, now, scope) <==> now <= grant.grant.expiry);
}

proof fn lemma_grant_decides(node: ControlNode, admin: OperatorPubKey, i: int, now: u64)
    requires
        admin_store::distinct_admins(node@.admins),
        admin_store::grant_at(node@.admins, admin, i),
    ensures
        forall|scope: AdminScope| #[trigger]
            admin_store::is_active(node@.admins, admin, now, scope) <==> now
                <= node@.admins[i].grant.expiry && node@.admins[i].grant.scope == scope,
{
    assert forall|scope: AdminScope| #[trigger] admin_store::is_active(
        node@.admins,
        admin,
        now,
        scope,
    ) <==> now <= node@.admins[i].grant.expiry && node@.admins[i].grant.scope == scope by {
        admin_store::law_expired_grants_are_inactive(node@.admins, admin, i, now, scope);
    }
}

/// A decision that was signed is queued for the child it is for and kept under
/// that child's name, as the only one for it; one that could not be signed is an
/// internal failure and leaves no trace.
pub proof fn law_decisions_are_queued_and_kept(
    engine: &mut ControlNode,
    decision: SignedControl,
    then: ControlReply,
    r: ControlReply,
    silent: &mut ControlNode,
    failed: ControlReply,
)
    requires
        old(engine)@.ok(),
        decision.request is JoinApproved || decision.request is JoinRejected,
        call_ensures(ControlNode::announce, (engine, Some(decision), then), r),
        call_ensures(ControlNode::announce, (silent, None::<SignedControl>, then), failed),
    ensures
        r == then,
        failed == ControlReply::Rejected(RejectCode::Internal),
        final(silent)@ == old(silent)@,
        final(engine)@.outbound.drop_last() =~= old(engine)@.outbound,
        final(engine)@.outbound.last().signed == decision,
        final(engine)@.outbound.last().target@ == (match decision.request {
            ControlRequest::JoinApproved(approval) => approval.child@,
            ControlRequest::JoinRejected(rejection) => rejection.child@,
            _ => Seq::empty(),
        }),
        final(engine)@.outbound.last().kind == OutboundKind::Approved <==> decision.request
            is JoinApproved,
        final(engine)@.decisions.len() > 0,
        final(engine)@.decisions.last() == decision,
        final(engine)@.record == old(engine)@.record,
        final(engine)@.queue == old(engine)@.queue,
        final(engine)@.peers == old(engine)@.peers,
{
    let kept = final(engine)@.decisions;
    let before = old(engine)@.decisions;
    let child = decision_target(decision)->0;
    let all = undecided(before, child).push(decision);
    assert(all.last() == decision);
    assert(kept.last() == decision);
}

/// An approval is checked before it is made: there must be a request that waits, an
/// address to place it below, and the slot that was named must be one and be free,
/// or some slot must be. Nothing else stands in its way, and the first of these that
/// fails is named.
pub proof fn law_approvals_need_a_place(
    engine: ControlNode,
    child: String,
    slot: Option<u8>,
    r: Result<(), RejectCode>,
    i: int,
    free: int,
)
    requires
        call_ensures(ControlNode::precheck_approve, (&engine, &child, slot), r),
    ensures
        ({
            let waits = 0 <= i < engine@.queue.len() && engine@.queue[i].node@ == child@;
            let children = engine@.record.children;
            &&& waits ==> r != Err::<(), RejectCode>(RejectCode::NotFound)
            &&& waits && engine@.record.address is None ==> r == Err::<(), RejectCode>(
                RejectCode::NotAttached,
            )
            &&& waits && engine@.record.address is Some ==> {
                &&& slot matches Some(s) ==> {
                    &&& s > 7 <==> r == Err::<(), RejectCode>(RejectCode::SlotOutOfRange)
                    &&& s <= 7 ==> (r is Ok <==> !record::slot_taken(children, s as int))
                    &&& s <= 7 && r is Err ==> r->Err_0 is SlotTaken
                }
                &&& slot is None && 0 <= free <= 7 && !record::slot_taken(children, free) ==> r
                    is Ok
                &&& slot is None && r is Err ==> r->Err_0 is Capacity && (0 <= free <= 7
                    ==> record::slot_taken(children, free))
            }
            &&& r == Err::<(), RejectCode>(RejectCode::NotFound) ==> !waits
            &&& r is Ok ==> exists|k: int| #![trigger engine@.queue[k]]
                0 <= k < engine@.queue.len() && engine@.queue[k].node@ == child@
        }),
{
    if 0 <= i < engine@.queue.len() && engine@.queue[i].node@ == child@ {
        assert(control_store::queued_at(engine@.queue, child@, i));
    }
    if control_store::is_queued(engine@.queue, child@) {
        let k = choose|k: int| #[trigger] control_store::queued_at(engine@.queue, child@, k);
        assert(engine@.queue[k].node@ == child@);
    }
}

/// An approval either makes the applicant a child, as it asked and where it was
/// placed, or changes nothing but its place in the queue: the links, the registry
/// and the grants stay, and nobody leaves the queue.
pub proof fn law_failed_approval_keeps_the_links(
    engine: &mut ControlNode,
    node: String,
    slot: Option<u8>,
    now: u64,
    parent_ledger: LedgerPubKey,
    insertion: Option<PeerInsertError>,
    r: Result<JoinApproval, ControlError>,
    i: int,
)
    requires
        control_store::distinct_nodes(old(engine)@.queue),
        0 <= i < old(engine)@.queue.len(),
        old(engine)@.queue[i].node@ == node@,
        call_ensures(
            ControlNode::approve_pending,
            (engine, &node, slot, now, parent_ledger, &insertion),
            r,
        ),
    ensures
        ({
            let pre = old(engine)@;
            let post = final(engine)@;
            let asked = pre.queue[i];
            &&& post.admins == pre.admins
            &&& post.asked == pre.asked
            &&& post.outbound == pre.outbound
            &&& insertion is Some ==> r is Err
            &&& r is Err ==> post.record == pre.record && post.peers == pre.peers && (post.queue
                == pre.queue || post.queue == pre.queue.remove(i).push(asked))
            &&& r matches Ok(approval) ==> {
                let placed = post.record.children.last();
                &&& post.queue == pre.queue.remove(i)
                &&& post.record.children.drop_last() =~= pre.record.children
                &&& placed.child_id@ == node@
                &&& placed.kind == asked.kind
                &&& placed.slot == approval.slot
                &&& placed.date_joined == now
                &&& slot matches Some(s) ==> approval.slot == s
                &&& !record::slot_taken(pre.record.children, approval.slot as int)
                &&& approval.child@ == node@
                &&& approval.child_operator == asked.operator
                &&& approval.child_ledger == asked.ledger
                &&& approval.kind == asked.kind
                &&& approval.nonce == asked.nonce
                &&& approval.date_joined == now
                &&& approval.parent_ledger == parent_ledger
                &&& pre.record.address == approval.address.spec_parent()
                &&& approval.address.spec_slot() == Some(approval.slot)
                &&& post.peers[node@].operator == asked.operator
                &&& post.peers[node@].ledger == asked.ledger
                &&& post.peers[node@].role == PeerRole::Node <==> asked.kind == ChildKind::Node
            }
        }),
{
    let pre = old(engine)@;
    let post = final(engine)@;
    assert(control_store::queued_at(pre.queue, node@, i));
    if precheck_fault(pre, node@, slot) is None {
        let (j, s) = choose|j: int, s: u8|
            control_store::queued_at(pre.queue, node@, j) && is_given_slot(pre, slot, s)
                && #[trigger] approves_at(
                pre,
                now,
                parent_ledger,
                insertion,
                j,
                s,
                post,
                r,
            );
        assert(pre.queue[j].node@ == pre.queue[i].node@);
        assert(j == i);
        if r is Ok {
            assert(post.record.children.drop_last() =~= pre.record.children);
        }
    }
}

/// A rejected applicant leaves the queue and nothing else changes; one that does not
/// wait is answered with nothing.
pub proof fn law_rejected_applicant_leaves_the_queue(
    engine: &mut ControlNode,
    node: String,
    r: Option<JoinRequest>,
    i: int,
)
    requires
        control_store::distinct_nodes(old(engine)@.queue),
        call_ensures(ControlNode::reject_pending, (engine, &node), r),
    ensures
        ({
            let pre = old(engine)@;
            let post = final(engine)@;
            &&& 0 <= i < pre.queue.len() && pre.queue[i].node@ == node@ ==> r == Some(pre.queue[i])
                && post.queue == pre.queue.remove(i)
            &&& r is None ==> post == pre
            &&& r matches Some(request) ==> request.node@ == node@
            &&& post.record == pre.record
            &&& post.peers == pre.peers
            &&& post.admins == pre.admins
            &&& post.asked == pre.asked
            &&& post.outbound == pre.outbound
            &&& post.decisions == pre.decisions
        }),
{
    let pre = old(engine)@;
    let post = final(engine)@;
    if 0 <= i < pre.queue.len() && pre.queue[i].node@ == node@ {
        assert(control_store::queued_at(pre.queue, node@, i));
    }
    if r is Some {
        let j = choose|j: int| #[trigger]
            control_store::queued_at(pre.queue, node@, j) && r->0 == pre.queue[j] && post == (
            ControlState { queue: pre.queue.remove(j), ..pre });
        if 0 <= i < pre.queue.len() && pre.queue[i].node@ == node@ {
            if i < j {
                assert(pre.queue[i].node@ != pre.queue[j].node@);
            } else if j < i {
                assert(pre.queue[j].node@ != pre.queue[i].node@);
            }
        }
    }
}

/// What could not be saved is not acknowledged. A parent that could not be saved is
/// taken back, links and registry; one that was ends the outbound join.
pub proof fn law_unsaved_changes_are_not_acknowledged(
    engine: &mut ControlNode,
    backup: Backup,
    ok: bool,
    r: Progress,
    then: ControlReply,
    reply: ControlReply,
)
    requires
        call_ensures(ControlNode::parent_saved, (engine, backup, ok), r),
        call_ensures(saved, (then, ok), reply),
    ensures
        ok ==> reply == then,
        !ok ==> reply == ControlReply::Rejected(RejectCode::Internal),
        !ok ==> {
            &&& r == Progress::Done(ControlReply::Rejected(RejectCode::Internal))
            &&& final(engine)@.record == backup.record@
            &&& final(engine)@.peers == backup.peers@
            &&& final(engine)@.asked == old(engine)@.asked
        },
        ok ==> {
            &&& r matches Progress::Save { saves, then: answer } && saves.pending && !saves.record
                && !saves.peers && answer is Accepted
            &&& final(engine)@.record == old(engine)@.record
            &&& final(engine)@.peers == old(engine)@.peers
            &&& final(engine)@.asked is None
        },
        final(engine)@.queue == old(engine)@.queue,
        final(engine)@.admins == old(engine)@.admins,
{
}

/// Grants that cannot be read give no authority: a reload that fails leaves none,
/// and one that succeeds leaves what was read.
pub proof fn law_unreadable_grants_give_no_authority(
    engine: &mut ControlNode,
    loaded: Result<AdminStore, AdminStoreError>,
)
    requires
        call_ensures(ControlNode::refresh_admins, (engine, loaded), ()),
    ensures
        loaded matches Ok(store) ==> final(engine)@.admins == store@,
        loaded is Err ==> final(engine)@.admins.len() == 0,
        final(engine)@.record == old(engine)@.record,
        final(engine)@.queue == old(engine)@.queue,
        final(engine)@.peers == old(engine)@.peers,
{
}

/// What waits to go out is handed over once, all of it. A join that is begun is the
/// one that is asked for, and nothing else changes.
pub proof fn law_outbound_is_handed_over_once(
    engine: &mut ControlNode,
    r: Vec<OutboundControl>,
    asking: &mut ControlNode,
    request: JoinRequest,
    parent: String,
    pinned_operator: Option<OperatorPubKey>,
)
    requires
        call_ensures(ControlNode::take_outbound, (engine,), r),
        call_ensures(
            ControlNode::begin_outbound_join,
            (asking, request, parent, pinned_operator),
            (),
        ),
    ensures
        r@ == old(engine)@.outbound,
        final(engine)@.outbound.len() == 0,
        final(engine)@.queue == old(engine)@.queue,
        final(engine)@.decisions == old(engine)@.decisions,
        final(asking)@.asked matches Some(join) && join.request == request && join.parent == parent
            && join.pinned_operator == pinned_operator,
        final(asking)@.record == old(asking)@.record,
        final(asking)@.queue == old(asking)@.queue,
        final(asking)@.outbound == old(asking)@.outbound,
{
}

/// The topology is for this node's operator, under this node's id and its own key,
/// and for the senior child whose key the registry knows.
pub proof fn law_authority_is_the_operators_or_the_seniors(
    engine: ControlNode,
    signed: SignedControl,
    verdicts: Verdicts,
    r: Result<Authority, RejectCode>,
)
    requires
        call_ensures(ControlNode::authorize, (&engine, &signed, &verdicts), r),
    ensures
        r == Ok::<Authority, RejectCode>(Authority::SelfOperator) <==> signed.origin@
            == engine@.node_id && signed.controller == engine@.operator && verdicts.signature,
        r == Ok::<Authority, RejectCode>(Authority::Peer) <==> signed.origin@ != engine@.node_id
            && is_senior(engine@.record.children, signed.origin@) && verdicts.registration is None,
        r matches Ok(granted) ==> !(granted is Delegated),
        signed.origin@ == engine@.node_id && r is Err ==> r->Err_0 is Unauthorized,
        signed.origin@ != engine@.node_id && !is_senior(engine@.record.children, signed.origin@)
            ==> r == Err::<Authority, RejectCode>(RejectCode::Unauthorized),
{
}

/// A node starts from what was stored, with nothing decided and nothing to send.
pub proof fn law_node_starts_from_what_was_stored(
    node_id: String,
    operator: OperatorPubKey,
    record: RecordStore,
    peers: TextMap<PeerKeys>,
    pending: ControlStore,
    admins: AdminStore,
    r: ControlNode,
)
    requires
        call_ensures(ControlNode::new, (node_id, operator, record, peers, pending, admins), r),
    ensures
        r@.node_id == node_id@,
        r@.operator == operator,
        r@.record == record@,
        r@.peers == peers@,
        r@.queue == pending.queue(),
        r@.asked == pending.asked(),
        r@.admins == admins@,
        r@.outbound.len() == 0,
        r@.decisions.len() == 0,
{
}

/// A change of the topology is done once the record is saved, and acknowledged as
/// accepted; a new child's registry row is saved with it. Nothing else is.
pub proof fn law_topology_changes_save_what_they_change(
    engine: &mut ControlNode,
    signed: SignedControl,
    replayed: bool,
    limits: ControlLimits,
    now: u64,
    verdicts: Verdicts,
    saves: Saves,
    then: ControlReply,
)
    requires
        call_ensures(
            ControlNode::receive_at,
            (engine, &signed, replayed, &limits, now, &verdicts),
            (Progress::Save { saves, then }),
        ),
        signed.request is CreateChild || signed.request is DetachChild || signed.request
            is MoveChild || signed.request is SetAddress,
    ensures
        saves.record,
        saves.peers <==> signed.request is CreateChild,
        !saves.pending,
        then is Accepted,
{
    match signed.request {
        ControlRequest::MoveChild(moved) => {
            assert(moves(
                old(engine)@,
                moved,
                final(engine)@,
                Progress::Save { saves, then },
            ));
        },
        _ => {},
    }
}

/// A snapshot shows the node as it is: its id, its address, and each child as it is
/// recorded, at the address that follows from this node's.
pub proof fn law_snapshot_shows_the_node(engine: ControlNode, shown: NodeSnapshot, k: int)
    requires
        call_ensures(ControlNode::snapshot, (&engine,), shown),
    ensures
        ({
            let state = engine@.record;
            &&& shown.node_id@ == engine@.node_id
            &&& shown.address == state.address
            &&& shown.children@.len() == state.children.len()
            &&& 0 <= k < state.children.len() ==> {
                &&& shown.children@[k].child_id == state.children[k].child_id
                &&& shown.children@[k].kind == state.children[k].kind
                &&& shown.children@[k].slot == state.children[k].slot
                &&& shown.children@[k].date_joined == state.children[k].date_joined
                &&& state.address matches Some(up) ==> shown.children@[k].address == Some(
                    OctAddr::Child(Box::new(up), state.children[k].slot),
                )
                &&& state.address is None ==> shown.children@[k].address is None
            }
            &&& shown.parent matches Some(parent) ==> (state.parent matches Some(link)
                && parent.node_id == link.parent_id && parent.slot == link.slot && (
            state.address matches Some(own) && own.spec_parent() == Some(parent.address)))
        }),
{
    let state = engine@.record;
    if 0 <= k < state.children.len() {
        assert(is_child_shown(state.children[k], state.address, shown.children@[k]));
    }
}

} // verus!
