//! Settlement of payments across the tree.
//!
//! A payment between two leaves below one parent is a cascade of three entries:
//! at the payer's leaf, at the common parent, at the payee's leaf. The
//! functions here decide what each of the three does with what it is handed;
//! the ledgers, the signatures and the transport are outside.
use crate::addr::OctAddr;
use crate::ledger_service::{
    OrderRejectV1, OrderStatusV1, ValueNoticeV1,
};
use crate::record::{ChildEntry, ChildKind, NodeRecord};
use crate::text;
use crate::textmap::TextMap;
use crate::wire;
use crate::wire::{
    AuthRef, Digest, EntryBody, HopRole, LedgerPubKey, PaymentOrder, PeerKeys, PeerRef,
    PeerRole, Posting, SignedEntry,
};
use vstd::prelude::*;

verus! {

/// The settlement timeout used for origin reservations, in seconds.
pub const SETTLE_TIMEOUT_SECS: u64 = 30;

/// How many unresolvable signers are noted at most.
pub const MAX_UNRESOLVABLE_SIGNER_NOTES: usize = 4096;

/// Where a settlement stands, as told to the payer.
#[derive(Debug)]
pub enum SettlementStatusV2 {
    /// The whole cascade applied.
    Applied {
        /// Sequence number of the terminal entry.
        entry_seq: u64,
        /// Its hash.
        entry_hash: Digest,
    },
    /// It had applied before.
    Duplicate {
        /// Sequence number of the known entry.
        entry_seq: u64,
        /// Its hash.
        entry_hash: Digest,
    },
    /// The payer was debited and a later hop refused.
    Partial {
        /// The node that refused.
        failed_at: String,
        /// Why.
        reason: OrderRejectV1,
    },
    /// Nothing was debited.
    Rejected {
        /// Why.
        reason: OrderRejectV1,
    },
    /// The payer was debited and the end is unknown.
    Indeterminate {
        /// Why.
        reason: OrderRejectV1,
    },
}

/// Why a settlement was refused on its way.
#[derive(Debug)]
pub enum SettleRejectV1 {
    /// A hop after the payer's refused.
    IntermediateRejected {
        /// The node that refused.
        at: String,
        /// Why.
        reason: OrderRejectV1,
    },
    /// The forward is malformed.
    Malformed,
    /// The payer's leaf refused.
    PayerRejected,
    /// The route is longer than supported.
    RouteTooDeep,
}

/// Map a downstream refusal to a status for the payer: a refusal after the
/// payer's reservation is a partial cascade, a malformed forward leaves the end
/// unknown, anything else happened before the debit.
pub open spec fn spec_reject_to_status(reason: SettleRejectV1) -> SettlementStatusV2 {
    match reason {
        SettleRejectV1::IntermediateRejected { at, reason } => SettlementStatusV2::Partial {
            failed_at: at,
            reason,
        },
        SettleRejectV1::Malformed => SettlementStatusV2::Indeterminate {
            reason: OrderRejectV1::BadRequest,
        },
        _ => SettlementStatusV2::Rejected { reason: OrderRejectV1::BadRequest },
    }
}

/// Map a downstream refusal to a status for the payer.
pub fn settle_reject_to_status(reason: &SettleRejectV1) -> (r: SettlementStatusV2)
    ensures
        r == spec_reject_to_status(*reason),
{
    match reason {
        SettleRejectV1::IntermediateRejected { at, reason } => SettlementStatusV2::Partial {
            failed_at: at.clone(),
            reason: *reason,
        },
        SettleRejectV1::Malformed => SettlementStatusV2::Indeterminate {
            reason: OrderRejectV1::BadRequest,
        },
        SettleRejectV1::PayerRejected => SettlementStatusV2::Rejected {
            reason: OrderRejectV1::BadRequest,
        },
        SettleRejectV1::RouteTooDeep => SettlementStatusV2::Rejected {
            reason: OrderRejectV1::BadRequest,
        },
    }
}

/// Map a settlement status onto the older order status and reason.
pub fn settlement_status_to_v1(status: &SettlementStatusV2) -> (r: (
    OrderStatusV1,
    Option<OrderRejectV1>,
))
    ensures
        r == (match *status {
            SettlementStatusV2::Applied { .. } => (OrderStatusV1::Applied, None),
            SettlementStatusV2::Duplicate { .. } => (OrderStatusV1::Duplicate, None),
            SettlementStatusV2::Partial { failed_at, reason } => (
                OrderStatusV1::Rejected,
                Some(reason),
            ),
            SettlementStatusV2::Rejected { reason } => (OrderStatusV1::Rejected, Some(reason)),
            SettlementStatusV2::Indeterminate { reason } => (
                OrderStatusV1::Rejected,
                Some(reason),
            ),
        }),
{
    match status {
        SettlementStatusV2::Applied { .. } => (OrderStatusV1::Applied, None),
        SettlementStatusV2::Duplicate { .. } => (OrderStatusV1::Duplicate, None),
        SettlementStatusV2::Partial { failed_at: _, reason } => (
            OrderStatusV1::Rejected,
            Some(*reason),
        ),
        SettlementStatusV2::Rejected { reason } => (OrderStatusV1::Rejected, Some(*reason)),
        SettlementStatusV2::Indeterminate { reason } => (OrderStatusV1::Rejected, Some(*reason)),
    }
}

/// The status claims that value arrived.
pub open spec fn claims_success(status: SettlementStatusV2) -> bool {
    status is Applied || status is Duplicate
}

/// Whether a reply uses the result format that carries a proof: success does,
/// every other status keeps the older format.
pub fn reply_carries_proof(status: &SettlementStatusV2) -> (r: bool)
    ensures
        r == claims_success(*status),
{
    match status {
        SettlementStatusV2::Applied { .. } => true,
        SettlementStatusV2::Duplicate { .. } => true,
        _ => false,
    }
}

/// Child `i` is the first user child named `id`.
pub open spec fn first_user(children: Seq<ChildEntry>, id: Seq<char>, i: int) -> bool {
    &&& 0 <= i < children.len()
    &&& children[i].kind == ChildKind::User
    &&& children[i].child_id@ == id
    &&& forall|j: int|
        0 <= j < i ==> !((#[trigger] children[j]).kind == ChildKind::User && children[j].child_id@
            == id)
}

/// The user child `id` sits at `addr`, its derived address.
pub open spec fn user_at(record: NodeRecord, id: Seq<char>, addr: OctAddr) -> bool {
    record.address is Some && exists|i: int| #[trigger]
        first_user(record.children@, id, i) && addr == OctAddr::Child(
            Box::new(record.address->0),
            record.children@[i].slot,
        )
}

/// Some child named `id` is a user.
pub open spec fn has_user(children: Seq<ChildEntry>, id: Seq<char>) -> bool {
    exists|i: int|
        0 <= i < children.len() && (#[trigger] children[i]).kind == ChildKind::User
            && children[i].child_id@ == id
}

/// The derived address of `child_id` in `record`, if it is a user child.
pub fn user_child_address(record: &NodeRecord, child_id: &String) -> (r: Option<OctAddr>)
    ensures
        match r {
            Some(addr) => user_at(*record, child_id@, addr),
            None => record.address is None || !has_user(record.children@, child_id@),
        },
{
    let address: &OctAddr = match &record.address {
        Some(address) => address,
        None => return None,
    };
    let mut i: usize = 0;
    while i < record.children.len()
        invariant
            i <= record.children@.len(),
            record.address == Some(*address),
            forall|j: int|
                0 <= j < i ==> !((#[trigger] record.children@[j]).kind == ChildKind::User
                    && record.children@[j].child_id@ == child_id@),
        decreases record.children@.len() - i,
    {
        if record.children[i].kind == ChildKind::User && record.children[i].child_id == *child_id {
            assert(first_user(record.children@, child_id@, i as int));
            return Some(address.child(record.children[i].slot));
        }
        i = i + 1;
    }
    None
}

pub(crate) proof fn lemma_user_address_unique(record: NodeRecord, id: Seq<char>, a: OctAddr, b: OctAddr)
    requires
        user_at(record, id, a),
        user_at(record, id, b),
    ensures
        a == b,
{
    let i = choose|i: int| #[trigger]
        first_user(record.children@, id, i) && a == OctAddr::Child(
            Box::new(record.address->0),
            record.children@[i].slot,
        );
    let j = choose|j: int| #[trigger]
        first_user(record.children@, id, j) && b == OctAddr::Child(
            Box::new(record.address->0),
            record.children@[j].slot,
        );
    assert(record.children@[i].kind == ChildKind::User);
    assert(record.children@[j].kind == ChildKind::User);
    if i < j {
        assert(false);
    } else if j < i {
        assert(false);
    }
}

pub(crate) proof fn lemma_addressed_user_is_listed(record: NodeRecord, id: Seq<char>, addr: OctAddr)
    requires
        user_at(record, id, addr),
    ensures
        has_user(record.children@, id),
{
    let i = choose|i: int| #[trigger]
        first_user(record.children@, id, i) && addr == OctAddr::Child(
            Box::new(record.address->0),
            record.children@[i].slot,
        );
    assert(record.children@[i].kind == ChildKind::User);
}

/// Whether the user child `id` sits exactly at `addr`.
pub fn user_child_is_at(record: &NodeRecord, id: &String, addr: &OctAddr) -> (r: bool)
    ensures
        r == user_at(*record, id@, *addr),
{
    match user_child_address(record, id) {
        Some(found) => {
            let r: bool = found.same(addr);
            proof {
                if user_at(*record, id@, *addr) {
                    lemma_user_address_unique(*record, id@, found, *addr);
                }
            }
            r
        },
        None => {
            proof {
                if user_at(*record, id@, *addr) {
                    lemma_addressed_user_is_listed(*record, id@, *addr);
                }
            }
            false
        },
    }
}

/// Whether `id` is listed as a user child.
pub fn lists_user(record: &NodeRecord, id: &String) -> (r: bool)
    ensures
        r == has_user(record.children@, id@),
{
    let mut i: usize = 0;
    while i < record.children.len()
        invariant
            i <= record.children@.len(),
            forall|j: int|
                0 <= j < i ==> !((#[trigger] record.children@[j]).kind == ChildKind::User
                    && record.children@[j].child_id@ == id@),
        decreases record.children@.len() - i,
    {
        if record.children[i].kind == ChildKind::User && record.children[i].child_id == *id {
            return true;
        }
        i = i + 1;
    }
    false
}

/// The three ledgers of a cascade.
#[derive(Debug)]
pub struct Signers {
    /// The payer's leaf.
    pub payer_leaf: OctAddr,
    /// The common parent.
    pub common: OctAddr,
    /// The payee's leaf.
    pub payee_leaf: OctAddr,
}

impl Signers {
    /// The `i`-th ledger of the cascade.
    pub open spec fn spec_at(self, i: int) -> OctAddr {
        if i == 0 {
            self.payer_leaf
        } else if i == 1 {
            self.common
        } else {
            self.payee_leaf
        }
    }

    /// The `i`-th ledger of the cascade.
    pub fn at(&self, i: usize) -> (r: &OctAddr)
        requires
            i < 3,
        ensures
            *r == self.spec_at(i as int),
    {
        if i == 0 {
            &self.payer_leaf
        } else if i == 1 {
            &self.common
        } else {
            &self.payee_leaf
        }
    }

    /// `addr` is one of the three.
    pub open spec fn includes(self, addr: OctAddr) -> bool {
        addr == self.payer_leaf || addr == self.common || addr == self.payee_leaf
    }

    /// Whether `addr` is one of the three.
    pub fn contains(&self, addr: &OctAddr) -> (r: bool)
        ensures
            r == self.includes(*addr),
    {
        addr.same(&self.payer_leaf) || addr.same(&self.common) || addr.same(&self.payee_leaf)
    }
}

/// `signers` are the three ledgers of a route from `payer` to `payee`: their
/// leaves, which differ, and the one parent of both.
pub open spec fn is_route(payer: OctAddr, payee: OctAddr, signers: Signers) -> bool {
    &&& payer.spec_parent() == Some(signers.payer_leaf)
    &&& payee.spec_parent() == Some(signers.payee_leaf)
    &&& signers.payer_leaf.spec_parent() == Some(signers.common)
    &&& signers.payee_leaf.spec_parent() == Some(signers.common)
    &&& signers.payer_leaf != signers.payee_leaf
}

/// No three ledgers are a route from `payer` to `payee`.
pub open spec fn unrouted(payer: OctAddr, payee: OctAddr) -> bool {
    forall|signers: Signers| !#[trigger] is_route(payer, payee, signers)
}

/// The three ledgers that sign for a payment between two users whose leaves
/// have one parent; none for any other pair of addresses.
pub fn expected_signers(payer: &OctAddr, payee: &OctAddr) -> (r: Option<Signers>)
    ensures
        match r {
            Some(signers) => is_route(*payer, *payee, signers),
            None => unrouted(*payer, *payee),
        },
{
    let payer_leaf: OctAddr = match payer.parent() {
        Some(leaf) => leaf,
        None => return None,
    };
    let payee_leaf: OctAddr = match payee.parent() {
        Some(leaf) => leaf,
        None => return None,
    };
    match (payer_leaf.parent(), payee_leaf.parent()) {
        (Some(common), Some(other)) => {
            if common.same(&other) && !payer_leaf.same(&payee_leaf) {
                Some(Signers { payer_leaf, common, payee_leaf })
            } else {
                None
            }
        },
        _ => None,
    }
}

/// A route has one set of ledgers, and no ledger signs in two places of it.
pub proof fn law_route_has_three_ledgers(
    payer: OctAddr,
    payee: OctAddr,
    signers: Signers,
    others: Signers,
)
    requires
        is_route(payer, payee, signers),
        is_route(payer, payee, others),
    ensures
        signers == others,
        signers.payer_leaf != signers.common,
        signers.common != signers.payee_leaf,
        signers.payer_leaf != signers.payee_leaf,
{
    assert(signers.payer_leaf.spec_depth() == signers.common.spec_depth() + 1);
    assert(signers.payee_leaf.spec_depth() == signers.common.spec_depth() + 1);
}

/// One hop of evidence in a cascade.
#[derive(Debug)]
pub struct SettleHopV1 {
    /// The ledger that signed.
    pub signer_addr: OctAddr,
    /// Its entry.
    pub entry: SignedEntry,
}

/// A cascade on its way.
#[derive(Debug)]
pub struct SettleForwardV1 {
    /// The order.
    pub order: PaymentOrder,
    /// Its authorisation.
    pub auth: AuthRef,
    /// The payer's registry row.
    pub payer_key: PeerKeys,
    /// The payer's address.
    pub payer_addr: OctAddr,
    /// The payee's address.
    pub payee_addr: OctAddr,
    /// The evidence so far, in order.
    pub hops: Vec<SettleHopV1>,
}

/// A neighbor and its address.
#[derive(Debug)]
pub struct NeighborAt {
    /// The address.
    pub addr: OctAddr,
    /// The node id.
    pub node: String,
}

/// Neighbor `i` is the first one at `addr`.
pub open spec fn first_at(neighbors: Seq<NeighborAt>, addr: OctAddr, i: int) -> bool {
    &&& 0 <= i < neighbors.len()
    &&& neighbors[i].addr == addr
    &&& forall|j: int| 0 <= j < i ==> (#[trigger] neighbors[j]).addr != addr
}

/// The registered ledger key of the neighbor at `addr`, where it is known.
pub open spec fn is_known_key(
    neighbors: Seq<NeighborAt>,
    registry: Map<Seq<char>, PeerKeys>,
    addr: OctAddr,
    key: LedgerPubKey,
) -> bool {
    exists|i: int| #[trigger]
        first_at(neighbors, addr, i) && registry.contains_key(neighbors[i].node@)
            && registry[neighbors[i].node@].ledger == Some(key)
}

/// The registered ledger key of the neighbor at `addr`, where it is known.
fn known_key(
    neighbors: &Vec<NeighborAt>,
    registry: &TextMap<PeerKeys>,
    addr: &OctAddr,
) -> (r: Option<LedgerPubKey>)
    requires
        registry.wf(),
    ensures
        match r {
            Some(key) => is_known_key(neighbors@, registry@, *addr, key),
            None => forall|key: LedgerPubKey|
                !#[trigger] is_known_key(neighbors@, registry@, *addr, key),
        },
{
    let mut i: usize = 0;
    while i < neighbors.len()
        invariant
            registry.wf(),
            i <= neighbors@.len(),
            forall|j: int| 0 <= j < i ==> (#[trigger] neighbors@[j]).addr != *addr,
        decreases neighbors@.len() - i,
    {
        if neighbors[i].addr.same(addr) {
            assert(first_at(neighbors@, *addr, i as int));
            let found: Option<LedgerPubKey> = match registry.get(&neighbors[i].node) {
                Some(row) => row.ledger,
                None => None,
            };
            proof {
                assert forall|key: LedgerPubKey| found is None implies !#[trigger] is_known_key(
                    neighbors@,
                    registry@,
                    *addr,
                    key,
                ) by {
                    if is_known_key(neighbors@, registry@, *addr, key) {
                        let k = choose|k: int| #[trigger]
                            first_at(neighbors@, *addr, k) && registry@.contains_key(
                                neighbors@[k].node@,
                            ) && registry@[neighbors@[k].node@].ledger == Some(key);
                        if k < i {
                            assert(neighbors@[k].addr != *addr);
                        } else if i < k {
                            assert(neighbors@[i as int].addr != *addr);
                        }
                    }
                }
            }
            return found;
        }
        i = i + 1;
    }
    None
}

/// The carried hop is evidence for hop `i` of this order: it names the expected
/// ledger and role, moves the ordered amount, is signed by the key it names,
/// and where the ledger is this node or a neighbor with a registered key, by
/// exactly that key.
pub open spec fn hop_ok(
    hop: SettleHopV1,
    expected: OctAddr,
    role: Option<HopRole>,
    this_addr: OctAddr,
    order: PaymentOrder,
    self_key: LedgerPubKey,
    neighbors: Seq<NeighborAt>,
    registry: Map<Seq<char>, PeerKeys>,
) -> bool {
    let entry = hop.entry.entry;
    &&& hop.signer_addr == expected
    &&& entry.body matches EntryBody::Transfer { payment_id, amount, role: stated }
    &&& role == Some(stated)
    &&& payment_id == order.hash
    &&& amount == order.amount
    &&& hop.entry.conserved
    &&& hop.entry.spec_verifies(entry.ledger_id)
    &&& hop.entry.canonical
    &&& if hop.signer_addr == this_addr {
        entry.ledger_id == self_key && hop.entry.spec_verifies(self_key)
    } else {
        forall|key: LedgerPubKey| #[trigger]
            is_known_key(neighbors, registry, hop.signer_addr, key) ==> hop.entry.spec_verifies(
                key,
            )
    }
}

proof fn lemma_known_key_unique(
    neighbors: Seq<NeighborAt>,
    registry: Map<Seq<char>, PeerKeys>,
    addr: OctAddr,
    a: LedgerPubKey,
    b: LedgerPubKey,
)
    requires
        is_known_key(neighbors, registry, addr, a),
        is_known_key(neighbors, registry, addr, b),
    ensures
        a == b,
{
    let i = choose|i: int| #[trigger]
        first_at(neighbors, addr, i) && registry.contains_key(neighbors[i].node@)
            && registry[neighbors[i].node@].ledger == Some(a);
    let j = choose|j: int| #[trigger]
        first_at(neighbors, addr, j) && registry.contains_key(neighbors[j].node@)
            && registry[neighbors[j].node@].ledger == Some(b);
    if i < j {
        assert(neighbors[i].addr != addr);
    } else if j < i {
        assert(neighbors[j].addr != addr);
    }
}

fn check_hop(
    hop: &SettleHopV1,
    expected: &OctAddr,
    role: Option<HopRole>,
    this_addr: &OctAddr,
    order: &PaymentOrder,
    self_key: &LedgerPubKey,
    neighbors: &Vec<NeighborAt>,
    registry: &TextMap<PeerKeys>,
) -> (r: bool)
    requires
        registry.wf(),
    ensures
        r == hop_ok(
            *hop,
            *expected,
            role,
            *this_addr,
            *order,
            *self_key,
            neighbors@,
            registry@,
        ),
{
    if !hop.signer_addr.same(expected) {
        return false;
    }
    match &hop.entry.entry.body {
        EntryBody::Transfer { payment_id, amount, role: stated } => {
            let role_fits: bool = match role {
                Some(wanted) => wanted == *stated,
                None => false,
            };
            if !role_fits || !text::same32(payment_id, &order.hash) || *amount != order.amount
                || !hop.entry.conserved {
                return false;
            }
        },
        _ => return false,
    }
    if !hop.entry.verifies(&hop.entry.entry.ledger_id) || !hop.entry.canonical {
        return false;
    }
    if hop.signer_addr.same(this_addr) {
        text::same32(&hop.entry.entry.ledger_id, self_key) && hop.entry.verifies(self_key)
    } else {
        match known_key(neighbors, registry, &hop.signer_addr) {
            Some(key) => {
                proof {
                    assert forall|other: LedgerPubKey| #[trigger]
                        is_known_key(
                            neighbors@,
                            registry@,
                            hop.signer_addr,
                            other,
                        ) implies other == key by {
                        lemma_known_key_unique(
                            neighbors@,
                            registry@,
                            hop.signer_addr,
                            other,
                            key,
                        );
                    }
                }
                hop.entry.verifies(&key)
            },
            None => true,
        }
    }
}

/// Every carried hop is evidence for its place in the cascade.
pub open spec fn evidence_holds(
    hops: Seq<SettleHopV1>,
    signers: Signers,
    roles: [Option<HopRole>; 3],
    this_addr: OctAddr,
    order: PaymentOrder,
    self_key: LedgerPubKey,
    neighbors: Seq<NeighborAt>,
    registry: Map<Seq<char>, PeerKeys>,
) -> bool {
    hops.len() <= 3 && forall|i: int|
        0 <= i < hops.len() ==> hop_ok(
            #[trigger] hops[i],
            signers.spec_at(i),
            roles[i],
            this_addr,
            order,
            self_key,
            neighbors,
            registry,
        )
}

/// Check the evidence carried by a cascade, hop by hop. `roles` holds the part
/// that each of the three ledgers plays.
pub fn carried_hops_match(
    hops: &Vec<SettleHopV1>,
    signers: &Signers,
    roles: &[Option<HopRole>; 3],
    this_addr: &OctAddr,
    order: &PaymentOrder,
    self_key: &LedgerPubKey,
    neighbors: &Vec<NeighborAt>,
    registry: &TextMap<PeerKeys>,
) -> (r: bool)
    requires
        registry.wf(),
    ensures
        r == evidence_holds(
            hops@,
            *signers,
            *roles,
            *this_addr,
            *order,
            *self_key,
            neighbors@,
            registry@,
        ),
{
    let mut i: usize = 0;
    while i < hops.len()
        invariant
            registry.wf(),
            i <= hops@.len(),
            i <= 3,
            forall|j: int|
                0 <= j < i ==> hop_ok(
                    #[trigger] hops@[j],
                    signers.spec_at(j),
                    roles[j],
                    *this_addr,
                    *order,
                    *self_key,
                    neighbors@,
                    registry@,
                ),
        decreases hops@.len() - i,
    {
        if i >= 3 {
            return false;
        }
        if !check_hop(
            &hops[i],
            signers.at(i),
            roles[i],
            this_addr,
            order,
            self_key,
            neighbors,
            registry,
        ) {
            return false;
        }
        i = i + 1;
    }
    true
}

/// Accepted evidence is signed by the key it names, and never by another key
/// than the registered one of a neighbor.
pub proof fn law_accepted_evidence_is_bound(
    hop: SettleHopV1,
    expected: OctAddr,
    role: Option<HopRole>,
    this_addr: OctAddr,
    order: PaymentOrder,
    self_key: LedgerPubKey,
    neighbors: Seq<NeighborAt>,
    registry: Map<Seq<char>, PeerKeys>,
    key: LedgerPubKey,
)
    requires
        hop_ok(hop, expected, role, this_addr, order, self_key, neighbors, registry),
        is_known_key(neighbors, registry, expected, key),
        expected != this_addr,
    ensures
        hop.entry.spec_verifies(key),
        hop.entry.spec_verifies(hop.entry.entry.ledger_id),
{
}

/// The addresses of signers whose key could not be resolved and that were
/// reported, each once. The set is bounded, since addresses come from outside.
#[derive(Debug)]
pub struct SignerNotes {
    seen: Vec<String>,
}

impl View for SignerNotes {
    type V = Seq<Seq<char>>;

    closed spec fn view(&self) -> Seq<Seq<char>> {
        text::views(self.seen@)
    }
}

impl SignerNotes {
    /// Nothing was reported yet.
    pub fn new() -> (r: SignerNotes)
        ensures
            r@ == Seq::<Seq<char>>::empty(),
    {
        let r: SignerNotes = SignerNotes { seen: Vec::new() };
        assert(r@ =~= Seq::<Seq<char>>::empty());
        r
    }

    /// Note `addr` and say whether it is to be reported: on its first sighting,
    /// while there is room.
    pub fn note_unresolvable_signer(&mut self, addr: &OctAddr) -> (r: bool)
        ensures
            r == (old(self)@.len() < MAX_UNRESOLVABLE_SIGNER_NOTES && !old(self)@.contains(
                addr.spec_text(),
            )),
            final(self)@ == (if r {
                old(self)@.push(addr.spec_text())
            } else {
                old(self)@
            }),
    {
        let ghost before = self@;
        if self.seen.len() >= MAX_UNRESOLVABLE_SIGNER_NOTES {
            return false;
        }
        let shown: String = addr.text();
        if text::list_holds(&self.seen, &shown) {
            proof {
                let i = choose|i: int|
                    0 <= i < self.seen@.len() && (#[trigger] self.seen@[i])@ == shown@;
                assert(before[i] == shown@);
            }
            return false;
        }
        proof {
            if before.contains(shown@) {
                let i = choose|i: int| 0 <= i < before.len() && before[i] == shown@;
                assert(self.seen@[i]@ == shown@);
            }
        }
        self.seen.push(shown);
        assert(self@ =~= before.push(shown@));
        true
    }
}

/// This node's turn in a cascade.
#[derive(Debug, Clone, Copy, PartialEq, Eq, Structural)]
pub struct Turn {
    /// Which of the three ledgers this node is.
    pub index: usize,
    /// Whether it is the last.
    pub terminal: bool,
}

/// It is this node's turn: as many hops are carried as ledgers come before it,
/// and the authenticated path is exactly those ledgers.
pub open spec fn is_turn(
    carried: nat,
    this_addr: OctAddr,
    path: Seq<PeerRef>,
    signers: Signers,
) -> bool {
    &&& 1 <= carried < 3
    &&& this_addr == signers.spec_at(carried as int)
    &&& path.len() == carried
    &&& forall|i: int| 0 <= i < path.len() ==> (#[trigger] path[i]).addr == signers.spec_at(i)
}

/// On no route of the cascade is it this node's turn.
pub open spec fn no_turn(forward: SettleForwardV1, this_addr: OctAddr, path: Seq<PeerRef>) -> bool {
    forall|signers: Signers| #[trigger]
        is_route(forward.payer_addr, forward.payee_addr, signers) ==> !is_turn(
            forward.hops@.len(),
            this_addr,
            path,
            signers,
        )
}

/// Decide whether a forward is for this node to continue, and with which
/// ledgers. The wire never chooses the index: it follows from how many hops are
/// carried, and it must agree with the authenticated path.
pub fn forward_turn(
    within_bound: bool,
    forward: &SettleForwardV1,
    this_addr: &OctAddr,
    path: &Vec<PeerRef>,
) -> (r: Option<(Turn, Signers)>)
    ensures
        match r {
            Some((turn, signers)) => {
                &&& within_bound
                &&& is_route(forward.payer_addr, forward.payee_addr, signers)
                &&& is_turn(forward.hops@.len(), *this_addr, path@, signers)
                &&& turn.index == forward.hops@.len()
                &&& turn.terminal == (turn.index == 2)
            },
            None => !within_bound || no_turn(*forward, *this_addr, path@),
        },
{
    if !within_bound {
        return None;
    }
    let cascade: Signers = match expected_signers(&forward.payer_addr, &forward.payee_addr) {
        Some(cascade) => cascade,
        None => return None,
    };
    proof {
        assert forall|signers: Signers| #[trigger]
            is_route(forward.payer_addr, forward.payee_addr, signers) implies signers == cascade by {
            law_route_has_three_ledgers(forward.payer_addr, forward.payee_addr, signers, cascade);
        }
    }
    let carried: usize = forward.hops.len();
    if carried == 0 || carried >= 3 || !this_addr.same(cascade.at(carried)) || path.len()
        != carried {
        return None;
    }
    let mut i: usize = 0;
    while i < path.len()
        invariant
            i <= path@.len(),
            path@.len() == carried,
            carried == forward.hops@.len(),
            carried < 3,
            forall|signers: Signers| #[trigger]
                is_route(forward.payer_addr, forward.payee_addr, signers) ==> signers == cascade,
            forall|j: int|
                0 <= j < i ==> (#[trigger] path@[j]).addr == cascade.spec_at(j),
        decreases path@.len() - i,
    {
        if !path[i].addr.same(cascade.at(i)) {
            assert(path@[i as int].addr != cascade.spec_at(i as int));
            return None;
        }
        i = i + 1;
    }
    Some((Turn { index: carried, terminal: carried == 2 }, cascade))
}

/// What a signer does before it touches its ledger.
#[derive(Debug)]
pub enum ForwardStep {
    /// Nothing.
    Ignore,
    /// Tell the origin that the cascade is refused.
    Refuse(SettleRejectV1),
    /// Check the evidence and apply this node's hop.
    Apply,
}

/// Check a forward against this node's record. `derivable` says whether this
/// node's own hop could be derived from the record.
pub fn check_forward(
    turn: Turn,
    record: &Option<NodeRecord>,
    forward: &SettleForwardV1,
    signers: &Signers,
    this: &PeerRef,
    derivable: bool,
) -> (r: ForwardStep)
    ensures
        match *record {
            None => r == ForwardStep::Ignore,
            Some(rec) => if this.addr == signers.payer_leaf && !user_at(
                rec,
                forward.order.from@,
                forward.payer_addr,
            ) {
                r == ForwardStep::Ignore
            } else if turn.terminal && !user_at(rec, forward.order.to@, forward.payee_addr) {
                r == ForwardStep::Refuse(
                    SettleRejectV1::IntermediateRejected {
                        at: this.node,
                        reason: OrderRejectV1::NotAChild,
                    },
                )
            } else if !derivable {
                r == ForwardStep::Refuse(SettleRejectV1::Malformed)
            } else {
                r == ForwardStep::Apply
            },
        },
{
    let record: &NodeRecord = match record {
        Some(record) => record,
        None => return ForwardStep::Ignore,
    };
    if this.addr.same(&signers.payer_leaf) && !user_child_is_at(
        record,
        &forward.order.from,
        &forward.payer_addr,
    ) {
        return ForwardStep::Ignore;
    }
    if turn.terminal && !user_child_is_at(record, &forward.order.to, &forward.payee_addr) {
        return ForwardStep::Refuse(
            SettleRejectV1::IntermediateRejected {
                at: this.node.clone(),
                reason: OrderRejectV1::NotAChild,
            },
        );
    }
    if !derivable {
        return ForwardStep::Refuse(SettleRejectV1::Malformed);
    }
    ForwardStep::Apply
}

/// What the registry for a settlement hop takes.
#[derive(Debug)]
pub enum RegistryPlan {
    /// The payer is registered already.
    Use,
    /// Add the carried payer row.
    Insert,
}

/// The plan for the registry of a settlement hop: the carried row must be a
/// user's row for the order's payer under the authorising operator, and a row
/// that is registered already must agree.
pub open spec fn spec_settlement_registry(
    registry: Option<Map<Seq<char>, PeerKeys>>,
    payer_key: PeerKeys,
    order: PaymentOrder,
    auth: AuthRef,
) -> Result<RegistryPlan, OrderRejectV1> {
    if payer_key.node_id@ != order.from@ || payer_key.role != PeerRole::User || payer_key.ledger
        is Some || payer_key.operator != auth.operator {
        Err(OrderRejectV1::Unauthorized)
    } else {
        match registry {
            None => Err(OrderRejectV1::Internal),
            Some(rows) => if !rows.contains_key(order.from@) {
                Ok(RegistryPlan::Insert)
            } else {
                let row = rows[order.from@];
                if row.operator != auth.operator || row.role != PeerRole::User || row.ledger
                    is Some {
                    Err(OrderRejectV1::Unauthorized)
                } else {
                    Ok(RegistryPlan::Use)
                }
            },
        }
    }
}

/// The payer's row at its own leaf. `rows` is none when the registry could not
/// be assembled.
pub fn payer_row(rows: Option<&TextMap<PeerKeys>>, order: &PaymentOrder) -> (r: Result<
    PeerKeys,
    OrderRejectV1,
>)
    requires
        rows matches Some(m) ==> m.wf(),
    ensures
        match rows {
            Some(m) => if m@.contains_key(order.from@) {
                r == Ok::<PeerKeys, OrderRejectV1>(m@[order.from@])
            } else {
                r == Err::<PeerKeys, OrderRejectV1>(OrderRejectV1::Unauthorized)
            },
            None => r == Err::<PeerKeys, OrderRejectV1>(OrderRejectV1::Unauthorized),
        },
{
    let rows: &TextMap<PeerKeys> = match rows {
        Some(rows) => rows,
        None => return Err(OrderRejectV1::Unauthorized),
    };
    match rows.get(&order.from) {
        Some(row) => Ok(row.copied()),
        None => Err(OrderRejectV1::Unauthorized),
    }
}

/// Check the carried payer row against the order and this node's registry.
/// `registry` is none when it could not be assembled.
pub fn assemble_settlement_registry(
    registry: Option<&TextMap<PeerKeys>>,
    payer_key: &PeerKeys,
    order: &PaymentOrder,
    auth: &AuthRef,
) -> (r: Result<RegistryPlan, OrderRejectV1>)
    requires
        registry matches Some(rows) ==> rows.wf(),
    ensures
        r == spec_settlement_registry(
            match registry {
                Some(rows) => Some(rows@),
                None => None,
            },
            *payer_key,
            *order,
            *auth,
        ),
{
    if payer_key.node_id != order.from || payer_key.role != PeerRole::User
        || payer_key.ledger.is_some() || !text::same32(&payer_key.operator, &auth.operator) {
        return Err(OrderRejectV1::Unauthorized);
    }
    let rows: &TextMap<PeerKeys> = match registry {
        Some(rows) => rows,
        None => return Err(OrderRejectV1::Internal),
    };
    match rows.get(&order.from) {
        None => Ok(RegistryPlan::Insert),
        Some(row) => {
            if !text::same32(&row.operator, &auth.operator) || row.role != PeerRole::User
                || row.ledger.is_some() {
                Err(OrderRejectV1::Unauthorized)
            } else {
                Ok(RegistryPlan::Use)
            }
        },
    }
}

/// The rows for a settlement hop: this node's own and, where it has none for
/// the payer, the carried one.
pub open spec fn rows_with_payer(
    rows: Map<Seq<char>, PeerKeys>,
    payer_key: PeerKeys,
) -> Map<Seq<char>, PeerKeys> {
    if rows.contains_key(payer_key.node_id@) {
        rows
    } else {
        rows.insert(payer_key.node_id@, payer_key)
    }
}

/// Decide whether this node's hop may be applied: the payer's row must be sound
/// and the carried evidence must hold. `insertable` says whether the registry
/// takes the carried row. The rows to apply the hop with come back.
pub fn gate_hop(
    registry: Option<TextMap<PeerKeys>>,
    insertable: bool,
    forward: &SettleForwardV1,
    signers: &Signers,
    roles: &[Option<HopRole>; 3],
    this_addr: &OctAddr,
    self_key: &LedgerPubKey,
    neighbors: &Vec<NeighborAt>,
) -> (r: Result<TextMap<PeerKeys>, OrderRejectV1>)
    requires
        registry matches Some(rows) ==> rows.wf(),
    ensures
        match spec_settlement_registry(
            match registry {
                Some(rows) => Some(rows@),
                None => None,
            },
            forward.payer_key,
            forward.order,
            forward.auth,
        ) {
            Err(reason) => r == Err::<TextMap<PeerKeys>, OrderRejectV1>(reason),
            Ok(plan) => if plan is Insert && !insertable || !evidence_holds(
                forward.hops@,
                *signers,
                *roles,
                *this_addr,
                forward.order,
                *self_key,
                neighbors@,
                rows_with_payer(registry->0@, forward.payer_key),
            ) {
                r == Err::<TextMap<PeerKeys>, OrderRejectV1>(OrderRejectV1::Unauthorized)
            } else {
                r matches Ok(rows) && rows.wf() && rows@ == rows_with_payer(
                    registry->0@,
                    forward.payer_key,
                )
            },
        },
{
    let plan: RegistryPlan = match assemble_settlement_registry(
        registry.as_ref(),
        &forward.payer_key,
        &forward.order,
        &forward.auth,
    ) {
        Ok(plan) => plan,
        Err(reason) => return Err(reason),
    };
    let mut rows: TextMap<PeerKeys> = match registry {
        Some(rows) => rows,
        None => return Err(OrderRejectV1::Internal),
    };
    match plan {
        RegistryPlan::Use => {},
        RegistryPlan::Insert => {
            if !insertable {
                return Err(OrderRejectV1::Unauthorized);
            }
            rows.insert(forward.payer_key.node_id.clone(), forward.payer_key.copied());
        },
    }
    if !carried_hops_match(
        &forward.hops,
        signers,
        roles,
        this_addr,
        &forward.order,
        self_key,
        neighbors,
        &rows,
    ) {
        return Err(OrderRejectV1::Unauthorized);
    }
    Ok(rows)
}

/// What became of one hop at this node's ledger.
#[derive(Debug, Clone, Copy)]
pub enum HopOutcome {
    /// Its entry was appended.
    Applied {
        /// Sequence number.
        seq: u64,
        /// Its hash.
        hash: Digest,
    },
    /// Its entry had been appended before.
    Duplicate {
        /// Sequence number.
        seq: u64,
        /// Its hash.
        hash: Digest,
    },
    /// It was refused.
    Rejected {
        /// Why.
        reason: OrderRejectV1,
    },
}

/// The recovered entry is this order's hop with the expected role and legs.
pub open spec fn is_same_hop(
    signed: SignedEntry,
    order: PaymentOrder,
    role: HopRole,
    legs: Seq<Posting>,
) -> bool {
    &&& signed.entry.body matches EntryBody::Transfer { payment_id, amount, role: stated }
    &&& order.amount <= i64::MAX
    &&& payment_id == order.hash
    &&& amount == order.amount
    &&& stated == role
    &&& wire::same_postings(signed.entry.postings@, legs)
}

/// Check that a recovered entry matches the hop derived here. `legs` are the
/// legs that the derived hop prescribes.
pub fn entry_matches_hop(
    signed: &SignedEntry,
    order: &PaymentOrder,
    role: HopRole,
    legs: &Vec<Posting>,
) -> (r: bool)
    ensures
        r == is_same_hop(*signed, *order, role, legs@),
{
    match &signed.entry.body {
        EntryBody::Transfer { payment_id, amount, role: stated } => {
            order.amount <= i64::MAX as u64 && text::same32(payment_id, &order.hash) && *amount
                == order.amount && *stated == role && wire::postings_match(
                &signed.entry.postings,
                legs,
            )
        },
        _ => false,
    }
}

/// What follows this node's hop.
#[derive(Debug)]
pub enum AfterHop {
    /// Nothing.
    Ignore,
    /// Tell the origin that this node refused.
    Refuse(SettleRejectV1),
    /// The hop stands: journal the order and pass the cascade on.
    Proceed {
        /// Sequence number of this node's entry.
        seq: u64,
        /// Its hash.
        hash: Digest,
    },
}

/// Decide what follows this node's hop. A duplicate stands only if the entry
/// recovered for it is this very hop.
pub fn after_hop(
    outcome: HopOutcome,
    recovered: &Option<SignedEntry>,
    order: &PaymentOrder,
    role: HopRole,
    legs: &Vec<Posting>,
    this: &PeerRef,
) -> (r: AfterHop)
    ensures
        match outcome {
            HopOutcome::Applied { seq, hash } => r == (AfterHop::Proceed { seq, hash }),
            HopOutcome::Duplicate { seq, hash } => if *recovered is Some && is_same_hop(
                recovered->0,
                *order,
                role,
                legs@,
            ) {
                r == (AfterHop::Proceed { seq, hash })
            } else {
                r == AfterHop::Ignore
            },
            HopOutcome::Rejected { reason } => r == AfterHop::Refuse(
                SettleRejectV1::IntermediateRejected { at: this.node, reason },
            ),
        },
{
    match outcome {
        HopOutcome::Applied { seq, hash } => AfterHop::Proceed { seq, hash },
        HopOutcome::Duplicate { seq, hash } => match recovered {
            Some(signed) => {
                if entry_matches_hop(signed, order, role, legs) {
                    AfterHop::Proceed { seq, hash }
                } else {
                    AfterHop::Ignore
                }
            },
            None => AfterHop::Ignore,
        },
        HopOutcome::Rejected { reason } => AfterHop::Refuse(
            SettleRejectV1::IntermediateRejected { at: this.node.clone(), reason },
        ),
    }
}

/// How a signer passes the cascade on.
#[derive(Debug)]
pub enum ForwardFinish {
    /// Not at all: without a proof the outcome cannot be vouched for.
    Silent,
    /// Tell the origin that the terminal entry applied, and notify the payee.
    ReportApplied {
        /// Where the cascade came from.
        origin: OctAddr,
        /// What to tell the payee.
        notice: ValueNoticeV1,
    },
    /// Send the cascade, with this node's evidence, to the next ledger.
    Relay {
        /// The next ledger.
        next: OctAddr,
        /// The cascade.
        forward: SettleForwardV1,
    },
}

/// Some hop was signed at `addr`.
pub open spec fn signed_at(hops: Seq<SettleHopV1>, addr: OctAddr) -> bool {
    exists|i: int| 0 <= i < hops.len() && (#[trigger] hops[i]).signer_addr == addr
}

fn is_signed_at(hops: &Vec<SettleHopV1>, addr: &OctAddr) -> (r: bool)
    ensures
        r == signed_at(hops@, *addr),
{
    let mut i: usize = 0;
    while i < hops.len()
        invariant
            i <= hops@.len(),
            forall|j: int| 0 <= j < i ==> (#[trigger] hops@[j]).signer_addr != *addr,
        decreases hops@.len() - i,
    {
        if hops[i].signer_addr.same(addr) {
            return true;
        }
        i = i + 1;
    }
    false
}

/// Conclude a signer's part. The last ledger reports success only with a proof
/// of its entry; an earlier one adds its entry to the evidence, once, and sends
/// the cascade on.
pub fn finish_forward(
    turn: Turn,
    forward: SettleForwardV1,
    signers: &Signers,
    this_addr: &OctAddr,
    entry: Option<SignedEntry>,
    has_proof: bool,
    seq: u64,
    hash: Digest,
    now: u64,
) -> (r: ForwardFinish)
    requires
        turn.index < 3,
        turn.terminal == (turn.index == 2),
    ensures
        if turn.terminal {
            if !has_proof {
                r == ForwardFinish::Silent
            } else {
                &&& r matches ForwardFinish::ReportApplied { origin, notice }
                &&& origin == signers.payer_leaf
                &&& notice == (ValueNoticeV1 {
                    entry_seq: seq,
                    entry_hash: hash,
                    payment_id: forward.order.hash,
                    from: forward.order.from,
                    to: forward.order.to,
                    amount: forward.order.amount,
                    role: HopRole::Descend,
                    issued_at: now,
                })
            }
        } else {
            &&& r matches ForwardFinish::Relay { next, forward: sent }
            &&& next == signers.spec_at(turn.index + 1)
            &&& sent.order == forward.order
            &&& sent.auth == forward.auth
            &&& sent.payer_key == forward.payer_key
            &&& sent.payer_addr == forward.payer_addr
            &&& sent.payee_addr == forward.payee_addr
            &&& sent.hops@ == (if entry is Some && !signed_at(forward.hops@, *this_addr) {
                forward.hops@.push(SettleHopV1 { signer_addr: *this_addr, entry: entry->0 })
            } else {
                forward.hops@
            })
        },
{
    if turn.terminal {
        if !has_proof {
            return ForwardFinish::Silent;
        }
        return ForwardFinish::ReportApplied {
            origin: signers.payer_leaf.copied(),
            notice: ValueNoticeV1 {
                entry_seq: seq,
                entry_hash: hash,
                payment_id: forward.order.hash,
                from: forward.order.from.clone(),
                to: forward.order.to.clone(),
                amount: forward.order.amount,
                role: HopRole::Descend,
                issued_at: now,
            },
        };
    }
    let mut sent: SettleForwardV1 = forward;
    match entry {
        Some(signed) => {
            if !is_signed_at(&sent.hops, this_addr) {
                sent.hops.push(SettleHopV1 { signer_addr: this_addr.copied(), entry: signed });
            }
        },
        None => {},
    }
    ForwardFinish::Relay { next: signers.at(turn.index + 1).copied(), forward: sent }
}

/// A relayed cascade comes to the next ledger as its turn: with one more hop
/// carried, on a path that has grown by this node.
pub proof fn law_relay_hands_on_the_turn(
    carried: nat,
    this: PeerRef,
    path: Seq<PeerRef>,
    signers: Signers,
)
    requires
        is_turn(carried, this.addr, path, signers),
        carried == 1,
    ensures
        is_turn(
            carried + 1,
            signers.spec_at(carried as int + 1),
            path.push(this),
            signers,
        ),
{
    let longer = path.push(this);
    assert forall|i: int| 0 <= i < longer.len() implies (#[trigger] longer[i]).addr
        == signers.spec_at(i) by {
        if i < path.len() {
            assert(longer[i] == path[i]);
        }
    }
}

/// A forward is refused unless every node on its authenticated path is the
/// ledger that the route prescribes; in particular no other node can start a
/// cascade in the payer leaf's name.
pub proof fn law_only_the_payer_leaf_starts(
    carried: nat,
    this_addr: OctAddr,
    path: Seq<PeerRef>,
    signers: Signers,
)
    requires
        is_turn(carried, this_addr, path, signers),
    ensures
        path.len() > 0,
        path[0].addr == signers.payer_leaf,
        path.last().addr == signers.spec_at(carried - 1),
{
}

/// The ledgers of a route, by its addresses: two users below two children of one
/// parent are joined by their leaves and that parent, in the payer's order; users
/// of one leaf, and users whose leaves have no common parent, by none.
pub proof fn law_route_follows_the_addresses(
    payer: OctAddr,
    payee: OctAddr,
    common: OctAddr,
    other: OctAddr,
    a: u8,
    b: u8,
    s: u8,
    t: u8,
    r: Option<Signers>,
)
    requires
        payer == OctAddr::Child(Box::new(OctAddr::Child(Box::new(common), a)), s),
        payee == OctAddr::Child(Box::new(OctAddr::Child(Box::new(other), b)), t),
        call_ensures(expected_signers, (&payer, &payee), r),
    ensures
        r is Some <==> common == other && a != b,
        r matches Some(signers) ==> signers.payer_leaf == OctAddr::Child(Box::new(common), a)
            && signers.common == common && signers.payee_leaf == OctAddr::Child(
            Box::new(common),
            b,
        ),
{
    if common == other && a != b {
        let signers = Signers {
            payer_leaf: OctAddr::Child(Box::new(common), a),
            common,
            payee_leaf: OctAddr::Child(Box::new(common), b),
        };
        assert(is_route(payer, payee, signers));
    }
}

/// A cascade reaches the parent with one hop carried, straight from the payer's
/// leaf, and the payee's leaf with two, by way of the parent; there it ends. With
/// other hops, at another place or by another way it is nobody's turn.
pub proof fn law_turns_follow_the_route(
    forward: SettleForwardV1,
    common: OctAddr,
    a: u8,
    b: u8,
    s: u8,
    t: u8,
    this_addr: OctAddr,
    path: Vec<PeerRef>,
    r: Option<(Turn, Signers)>,
)
    requires
        a != b,
        forward.payer_addr == OctAddr::Child(Box::new(OctAddr::Child(Box::new(common), a)), s),
        forward.payee_addr == OctAddr::Child(Box::new(OctAddr::Child(Box::new(common), b)), t),
        call_ensures(forward_turn, (true, &forward, &this_addr, &path), r),
    ensures
        ({
            let from = OctAddr::Child(Box::new(common), a);
            let to = OctAddr::Child(Box::new(common), b);
            let middle = forward.hops@.len() == 1 && this_addr == common && path@.len() == 1
                && path@[0].addr == from;
            let last = forward.hops@.len() == 2 && this_addr == to && path@.len() == 2
                && path@[0].addr == from && path@[1].addr == common;
            &&& r is Some <==> middle || last
            &&& r matches Some((turn, signers)) ==> {
                &&& turn.index == forward.hops@.len()
                &&& turn.terminal == last
                &&& signers.payer_leaf == from
                &&& signers.common == common
                &&& signers.payee_leaf == to
            }
        }),
{
    let signers = Signers {
        payer_leaf: OctAddr::Child(Box::new(common), a),
        common,
        payee_leaf: OctAddr::Child(Box::new(common), b),
    };
    assert(is_route(forward.payer_addr, forward.payee_addr, signers));
    assert(signers.spec_at(0) == signers.payer_leaf);
    assert(signers.spec_at(1) == signers.common);
    assert(signers.spec_at(2) == signers.payee_leaf);
    if r is Some {
        let got = (r->0).1;
        law_route_has_three_ledgers(forward.payer_addr, forward.payee_addr, got, signers);
        assert(path@[0].addr == signers.spec_at(0));
        if forward.hops@.len() == 2 {
            assert(path@[1].addr == signers.spec_at(1));
        }
    }
}

/// The parent sends a cascade on to the payee's leaf, unchanged but for its own
/// entry behind the evidence it came with.
pub proof fn law_parent_adds_its_entry(
    forward: SettleForwardV1,
    signers: Signers,
    this_addr: OctAddr,
    entry: SignedEntry,
    has_proof: bool,
    seq: u64,
    hash: Digest,
    now: u64,
    r: ForwardFinish,
)
    requires
        forall|i: int|
            0 <= i < forward.hops@.len() ==> (#[trigger] forward.hops@[i]).signer_addr
                != this_addr,
        call_ensures(
            finish_forward,
            (
                Turn { index: 1, terminal: false },
                forward,
                &signers,
                &this_addr,
                Some(entry),
                has_proof,
                seq,
                hash,
                now,
            ),
            r,
        ),
    ensures
        r matches ForwardFinish::Relay { next, forward: sent } && next == signers.payee_leaf
            && sent.order == forward.order && sent.auth == forward.auth && sent.payer_key
            == forward.payer_key && sent.payer_addr == forward.payer_addr && sent.payee_addr
            == forward.payee_addr && sent.hops@.len() == forward.hops@.len() + 1
            && sent.hops@.drop_last() =~= forward.hops@ && sent.hops@.last().signer_addr
            == this_addr && sent.hops@.last().entry == entry,
{
}

/// The payee's leaf tells the payer's leaf that the cascade applied, and the
/// payee which entry paid it how much from whom; without a proof it tells nobody.
pub proof fn law_payee_leaf_reports_its_entry(
    forward: SettleForwardV1,
    signers: Signers,
    this_addr: OctAddr,
    entry: Option<SignedEntry>,
    has_proof: bool,
    seq: u64,
    hash: Digest,
    now: u64,
    r: ForwardFinish,
)
    requires
        call_ensures(
            finish_forward,
            (
                Turn { index: 2, terminal: true },
                forward,
                &signers,
                &this_addr,
                entry,
                has_proof,
                seq,
                hash,
                now,
            ),
            r,
        ),
    ensures
        !has_proof ==> r == ForwardFinish::Silent,
        has_proof ==> (r matches ForwardFinish::ReportApplied { origin, notice } && origin
            == signers.payer_leaf && notice.entry_seq == seq && notice.entry_hash == hash
            && notice.payment_id == forward.order.hash && notice.from == forward.order.from
            && notice.to == forward.order.to && notice.amount == forward.order.amount
            && notice.role == HopRole::Descend && notice.issued_at == now),
{
}

/// A hop is applied only for a payer whose carried row is a user's, names the
/// order's payer and its authorising operator, and agrees with the registered
/// row; and only on evidence in which every carried hop moved the ordered amount
/// for this very order, at the ledger whose place it takes, in that ledger's
/// part, under a signature that holds.
pub proof fn law_hop_needs_sound_evidence(
    registry: TextMap<PeerKeys>,
    insertable: bool,
    forward: SettleForwardV1,
    signers: Signers,
    roles: [Option<HopRole>; 3],
    this_addr: OctAddr,
    self_key: LedgerPubKey,
    neighbors: Vec<NeighborAt>,
    rows: TextMap<PeerKeys>,
    i: int,
)
    requires
        registry.wf(),
        call_ensures(
            gate_hop,
            (
                Some(registry),
                insertable,
                &forward,
                &signers,
                &roles,
                &this_addr,
                &self_key,
                &neighbors,
            ),
            Ok(rows),
        ),
    ensures
        forward.payer_key.node_id@ == forward.order.from@,
        forward.payer_key.role == PeerRole::User,
        forward.payer_key.ledger is None,
        forward.payer_key.operator == forward.auth.operator,
        registry@.contains_key(forward.order.from@) ==> registry@[forward.order.from@].operator
            == forward.auth.operator && registry@[forward.order.from@].role == PeerRole::User
            && registry@[forward.order.from@].ledger is None && rows@ == registry@,
        !registry@.contains_key(forward.order.from@) ==> insertable && rows@ == registry@.insert(
            forward.order.from@,
            forward.payer_key,
        ),
        forward.hops@.len() <= 3,
        0 <= i < forward.hops@.len() ==> {
            let hop = forward.hops@[i];
            let entry = hop.entry.entry;
            &&& hop.signer_addr == (if i == 0 {
                signers.payer_leaf
            } else if i == 1 {
                signers.common
            } else {
                signers.payee_leaf
            })
            &&& entry.body matches EntryBody::Transfer { payment_id, amount, role }
            &&& payment_id == forward.order.hash
            &&& amount == forward.order.amount
            &&& roles[i] == Some(role)
            &&& hop.entry.conserved
            &&& hop.entry.canonical
            &&& hop.entry.valid_under@.contains(entry.ledger_id)
            &&& hop.signer_addr == this_addr ==> entry.ledger_id == self_key
        },
{
}

/// Evidence of a ledger whose key is registered here counts only under that key.
pub proof fn law_registered_key_binds_evidence(
    registry: TextMap<PeerKeys>,
    insertable: bool,
    forward: SettleForwardV1,
    signers: Signers,
    roles: [Option<HopRole>; 3],
    this_addr: OctAddr,
    self_key: LedgerPubKey,
    neighbors: Vec<NeighborAt>,
    r: Result<TextMap<PeerKeys>, OrderRejectV1>,
    i: int,
    k: int,
    key: LedgerPubKey,
)
    requires
        registry.wf(),
        call_ensures(
            gate_hop,
            (
                Some(registry),
                insertable,
                &forward,
                &signers,
                &roles,
                &this_addr,
                &self_key,
                &neighbors,
            ),
            r,
        ),
        0 <= i < forward.hops@.len(),
        forward.hops@[i].signer_addr != this_addr,
        0 <= k < neighbors@.len(),
        neighbors@[k].addr == forward.hops@[i].signer_addr,
        forall|j: int|
            0 <= j < k ==> (#[trigger] neighbors@[j]).addr != forward.hops@[i].signer_addr,
        registry@.contains_key(neighbors@[k].node@),
        registry@[neighbors@[k].node@].ledger == Some(key),
        neighbors@[k].node@ != forward.payer_key.node_id@,
        !forward.hops@[i].entry.valid_under@.contains(key),
    ensures
        r is Err,
{
    if r is Ok {
        let rows = rows_with_payer(registry@, forward.payer_key);
        assert(rows.contains_key(neighbors@[k].node@));
        assert(rows[neighbors@[k].node@] == registry@[neighbors@[k].node@]);
        assert(first_at(neighbors@, forward.hops@[i].signer_addr, k));
        assert(is_known_key(neighbors@, rows, forward.hops@[i].signer_addr, key));
    }
}

/// An applied hop proceeds with its own coordinates; a known one proceeds only
/// as this order's very hop: same payment, amount, part and legs; a refused one
/// is reported under this node's name and its reason.
pub proof fn law_hop_proceeds_or_is_reported(
    outcome: HopOutcome,
    known: SignedEntry,
    order: PaymentOrder,
    role: HopRole,
    legs: Vec<Posting>,
    this: PeerRef,
    r: AfterHop,
)
    requires
        call_ensures(after_hop, (outcome, &Some(known), &order, role, &legs, &this), r),
    ensures
        outcome matches HopOutcome::Applied { seq, hash } ==> r == (AfterHop::Proceed {
            seq,
            hash,
        }),
        outcome matches HopOutcome::Rejected { reason } ==> r == AfterHop::Refuse(
            SettleRejectV1::IntermediateRejected { at: this.node, reason },
        ),
        outcome matches HopOutcome::Duplicate { seq, hash } ==> {
            &&& r == (AfterHop::Proceed { seq, hash }) || r == AfterHop::Ignore
            &&& r is Proceed ==> {
                &&& known.entry.body matches EntryBody::Transfer {
                    payment_id,
                    amount,
                    role: stated,
                }
                &&& payment_id == order.hash
                &&& amount == order.amount
                &&& stated == role
                &&& known.entry.postings@.len() == legs@.len()
            }
        },
{
}

/// A user's address, by the record: this leaf's address with the user's slot
/// behind it. A node child, or a child that is not listed, has none here.
pub proof fn law_user_sits_at_its_slot(
    record: NodeRecord,
    address: OctAddr,
    k: int,
    id: String,
    r: Option<OctAddr>,
)
    requires
        record.address == Some(address),
        call_ensures(user_child_address, (&record, &id), r),
    ensures
        0 <= k < record.children@.len() && record.children@[k].kind == ChildKind::User
            && record.children@[k].child_id@ == id@ && (forall|j: int|
            0 <= j < record.children@.len() && j != k ==> (#[trigger] record.children@[j]).child_id@
                != id@) ==> r == Some(
            OctAddr::Child(Box::new(address), record.children@[k].slot),
        ),
        (forall|j: int|
            0 <= j < record.children@.len() ==> (#[trigger] record.children@[j]).child_id@ != id@
                || record.children@[j].kind == ChildKind::Node) ==> r is None,
{
    let children = record.children@;
    if 0 <= k < children.len() && children[k].kind == ChildKind::User && children[k].child_id@
        == id@ && (forall|j: int|
        0 <= j < children.len() && j != k ==> (#[trigger] children[j]).child_id@ != id@) {
        assert(first_user(children, id@, k));
        let at = OctAddr::Child(Box::new(address), children[k].slot);
        assert(user_at(record, id@, at));
        assert(has_user(children, id@));
        lemma_user_address_unique(record, id@, r->0, at);
    }
    if r is Some {
        lemma_addressed_user_is_listed(record, id@, r->0);
    }
}

/// A refusal on the way is told as what it leaves behind: a hop that refuses leaves
/// a part of the payment done and is named, one that could not be read leaves it
/// open, and the payer's leaf leaves nothing done.
pub proof fn law_refusals_tell_what_they_leave(reason: SettleRejectV1, r: SettlementStatusV2)
    requires
        call_ensures(settle_reject_to_status, (&reason,), r),
    ensures
        r is Partial <==> reason is IntermediateRejected,
        r is Indeterminate <==> reason is Malformed,
        r is Rejected <==> reason is PayerRejected || reason is RouteTooDeep,
        reason matches SettleRejectV1::IntermediateRejected { at, reason: why } ==> (
        r matches SettlementStatusV2::Partial { failed_at, reason: told } && failed_at == at && told
            == why),
        r matches SettlementStatusV2::Rejected { reason: told } ==> told is BadRequest,
        r matches SettlementStatusV2::Indeterminate { reason: told } ==> told is BadRequest,
{
}

/// In plain terms a payment is applied, a duplicate or rejected; what is part done
/// or open counts as rejected, for its own reason. Proof goes with a success and
/// with nothing else.
pub proof fn law_plain_status_keeps_the_reason(
    status: SettlementStatusV2,
    r: (OrderStatusV1, Option<OrderRejectV1>),
    proved: bool,
)
    requires
        call_ensures(settlement_status_to_v1, (&status,), r),
        call_ensures(reply_carries_proof, (&status,), proved),
    ensures
        r.0 == OrderStatusV1::Applied <==> status is Applied,
        r.0 == OrderStatusV1::Duplicate <==> status is Duplicate,
        r.1 is None <==> status is Applied || status is Duplicate,
        status matches SettlementStatusV2::Partial { failed_at, reason } ==> r.1 == Some(reason),
        status matches SettlementStatusV2::Rejected { reason } ==> r.1 == Some(reason),
        status matches SettlementStatusV2::Indeterminate { reason } ==> r.1 == Some(reason),
        proved <==> r.1 is None,
{
}

/// The payer's row is the one that the registry holds under the payer's id; without
/// it the order is unauthorised.
pub proof fn law_payer_row_is_the_payers_own(
    rows: TextMap<PeerKeys>,
    order: PaymentOrder,
    r: Result<PeerKeys, OrderRejectV1>,
    none: Result<PeerKeys, OrderRejectV1>,
)
    requires
        rows.wf(),
        call_ensures(payer_row, (Some(&rows), &order), r),
        call_ensures(payer_row, (None, &order), none),
    ensures
        r is Ok <==> rows@.contains_key(order.from@),
        r matches Ok(row) ==> row == rows@[order.from@],
        r matches Err(why) ==> why is Unauthorized,
        none == Err::<PeerKeys, OrderRejectV1>(OrderRejectV1::Unauthorized),
{
}

/// A payer key that travels with an order must be the payer's, a user's, without a
/// ledger, and of the operator that signed. A row that is held must say the same;
/// only where none is held may the key be put in.
pub proof fn law_travelling_key_fits_the_row(
    rows: TextMap<PeerKeys>,
    payer_key: PeerKeys,
    order: PaymentOrder,
    auth: AuthRef,
    r: Result<RegistryPlan, OrderRejectV1>,
    none: Result<RegistryPlan, OrderRejectV1>,
)
    requires
        rows.wf(),
        call_ensures(assemble_settlement_registry, (Some(&rows), &payer_key, &order, &auth), r),
        call_ensures(assemble_settlement_registry, (None, &payer_key, &order, &auth), none),
    ensures
        ({
            let fits = payer_key.node_id@ == order.from@ && payer_key.role == PeerRole::User
                && payer_key.ledger is None && payer_key.operator == auth.operator;
            let held = rows@.contains_key(order.from@);
            let row = rows@[order.from@];
            &&& r matches Ok(plan) ==> fits && (plan is Insert <==> !held) && (plan is Use <==> held)
            &&& fits && !held ==> r is Ok
            &&& fits && held ==> (r is Ok <==> row.operator == auth.operator && row.role
                == PeerRole::User && row.ledger is None)
            &&& r matches Err(why) ==> why is Unauthorized
            &&& none == Err::<RegistryPlan, OrderRejectV1>(
                if fits { OrderRejectV1::Internal } else { OrderRejectV1::Unauthorized },
            )
        }),
{
}

/// A hop is the order's own where it moves the order's amount under the order's
/// hash, in the role it was given, with the postings it was given; a hop that
/// differs in one of these is another.
pub proof fn law_hop_is_the_orders_own(
    signed: SignedEntry,
    order: PaymentOrder,
    role: HopRole,
    legs: Vec<Posting>,
    r: bool,
    i: int,
)
    requires
        call_ensures(entry_matches_hop, (&signed, &order, role, &legs), r),
    ensures
        r ==> {
            &&& signed.entry.body matches EntryBody::Transfer { payment_id, amount, role: stated }
            &&& payment_id == order.hash
            &&& amount == order.amount
            &&& stated == role
            &&& signed.entry.postings@.len() == legs@.len()
            &&& 0 <= i < legs@.len() ==> {
                let was = signed.entry.postings@[i];
                &&& was.delta == legs@[i].delta
                &&& was.account is Parent <==> legs@[i].account is Parent
                &&& legs@[i].account matches wire::AccountRef::Child(id) ==> (
                was.account matches wire::AccountRef::Child(own) && own@ == id@)
            }
        },
        (signed.entry.body matches EntryBody::Transfer { payment_id, amount, role: stated }
            && payment_id == order.hash && amount == order.amount && stated == role
            && signed.entry.postings@ == legs@ && order.amount <= i64::MAX) ==> r,
{
}

/// Evidence is at most three hops, each at its signer's address, under its role,
/// for the order's hash and amount, conserving value and signed by its ledger; one
/// hop that is not spoils it. No evidence is sound.
pub proof fn law_evidence_is_sound_hop_by_hop(
    hops: Vec<SettleHopV1>,
    signers: Signers,
    roles: [Option<HopRole>; 3],
    this_addr: OctAddr,
    order: PaymentOrder,
    self_key: LedgerPubKey,
    neighbors: Vec<NeighborAt>,
    registry: TextMap<PeerKeys>,
    r: bool,
    i: int,
)
    requires
        registry.wf(),
        call_ensures(
            carried_hops_match,
            (&hops, &signers, &roles, &this_addr, &order, &self_key, &neighbors, &registry),
            r,
        ),
    ensures
        hops@.len() == 0 ==> r,
        r ==> hops@.len() <= 3,
        r && 0 <= i < hops@.len() ==> {
            let hop = hops@[i];
            let entry = hop.entry.entry;
            &&& i == 0 ==> hop.signer_addr == signers.payer_leaf
            &&& i == 1 ==> hop.signer_addr == signers.common
            &&& i == 2 ==> hop.signer_addr == signers.payee_leaf
            &&& entry.body matches EntryBody::Transfer { payment_id, amount, role }
            &&& payment_id == order.hash
            &&& amount == order.amount
            &&& roles[i] == Some(role)
            &&& hop.entry.conserved
            &&& hop.entry.canonical
            &&& hop.entry.valid_under@.contains(entry.ledger_id)
            &&& hop.signer_addr == this_addr ==> entry.ledger_id == self_key
        },
{
    if r && 0 <= i < hops@.len() {
        assert(hop_ok(
            hops@[i],
            signers.spec_at(i),
            roles[i],
            this_addr,
            order,
            self_key,
            neighbors@,
            registry@,
        ));
    }
}

/// A signer is noted once, and only while there is room for it; what was noted
/// stays.
pub proof fn law_signers_are_noted_once(notes: &mut SignerNotes, addr: OctAddr, r: bool)
    requires
        call_ensures(SignerNotes::note_unresolvable_signer, (notes, &addr), r),
    ensures
        r ==> final(notes)@ == old(notes)@.push(addr.spec_text()),
        !r ==> final(notes)@ == old(notes)@,
        old(notes)@.contains(addr.spec_text()) ==> !r,
        r ==> old(notes)@.len() < MAX_UNRESOLVABLE_SIGNER_NOTES,
        !r ==> old(notes)@.contains(addr.spec_text()) || old(notes)@.len()
            >= MAX_UNRESOLVABLE_SIGNER_NOTES,
{
}

/// A user child is listed by its id and its kind, and sits at this node's address
/// with its slot behind it and nowhere else.
pub proof fn law_users_are_listed_by_kind(
    record: NodeRecord,
    address: OctAddr,
    id: String,
    addr: OctAddr,
    k: int,
    listed: bool,
    at: bool,
)
    requires
        record.address == Some(address),
        call_ensures(lists_user, (&record, &id), listed),
        call_ensures(user_child_is_at, (&record, &id, &addr), at),
    ensures
        0 <= k < record.children@.len() && record.children@[k].kind == ChildKind::User
            && record.children@[k].child_id@ == id@ ==> listed,
        listed ==> exists|j: int| #![trigger record.children@[j]]
            0 <= j < record.children@.len() && record.children@[j].kind == ChildKind::User
                && record.children@[j].child_id@ == id@,
        at ==> listed && exists|j: int| #![trigger record.children@[j]]
            0 <= j < record.children@.len() && record.children@[j].kind == ChildKind::User
                && record.children@[j].child_id@ == id@ && addr == OctAddr::Child(
                Box::new(address),
                record.children@[j].slot,
            ),
        0 <= k < record.children@.len() && record.children@[k].kind == ChildKind::User
            && record.children@[k].child_id@ == id@ && (forall|j: int|
            0 <= j < record.children@.len() && j != k ==> (#[trigger] record.children@[j]).child_id@
                != id@) ==> (at <==> addr == OctAddr::Child(
            Box::new(address),
            record.children@[k].slot,
        )),
{
    let children = record.children@;
    if at {
        let j = choose|j: int| #[trigger]
            first_user(children, id@, j) && addr == OctAddr::Child(
                Box::new(record.address->0),
                children[j].slot,
            );
        assert(children[j].kind == ChildKind::User && children[j].child_id@ == id@);
    }
    if 0 <= k < children.len() && children[k].kind == ChildKind::User && children[k].child_id@
        == id@ && (forall|j: int|
        0 <= j < children.len() && j != k ==> (#[trigger] children[j]).child_id@ != id@) {
        assert(first_user(children, id@, k));
        let home = OctAddr::Child(Box::new(address), children[k].slot);
        assert(user_at(record, id@, home));
        if at {
            lemma_user_address_unique(record, id@, home, addr);
        }
    }
}

/// The signers are the payer's leaf, the common parent and the payee's leaf, in
/// this order, and nobody else.
pub proof fn law_signers_are_three(
    signers: Signers,
    addr: OctAddr,
    first: &OctAddr,
    second: &OctAddr,
    third: &OctAddr,
    r: bool,
)
    requires
        call_ensures(Signers::at, (&signers, 0usize), first),
        call_ensures(Signers::at, (&signers, 1usize), second),
        call_ensures(Signers::at, (&signers, 2usize), third),
        call_ensures(Signers::contains, (&signers, &addr), r),
    ensures
        *first == signers.payer_leaf,
        *second == signers.common,
        *third == signers.payee_leaf,
        r <==> addr == signers.payer_leaf || addr == signers.common || addr == signers.payee_leaf,
{
}

/// Evidence of up to three hops stands where each hop does, as far as this node
/// knows no key to hold against it.
pub proof fn law_sound_hops_make_sound_evidence(
    hops: Vec<SettleHopV1>,
    signers: Signers,
    roles: [Option<HopRole>; 3],
    this_addr: OctAddr,
    order: PaymentOrder,
    self_key: LedgerPubKey,
    neighbors: Vec<NeighborAt>,
    registry: TextMap<PeerKeys>,
    r: bool,
)
    requires
        registry.wf(),
        call_ensures(
            carried_hops_match,
            (&hops, &signers, &roles, &this_addr, &order, &self_key, &neighbors, &registry),
            r,
        ),
        neighbors@.len() == 0,
        hops@.len() <= 3,
        forall|i: int|
            0 <= i < hops@.len() ==> {
                let hop = #[trigger] hops@[i];
                &&& hop.signer_addr == (if i == 0 {
                    signers.payer_leaf
                } else if i == 1 {
                    signers.common
                } else {
                    signers.payee_leaf
                })
                &&& hop.entry.entry.body matches EntryBody::Transfer { payment_id, amount, role }
                &&& roles[i] == Some(role)
                &&& payment_id == order.hash
                &&& amount == order.amount
                &&& hop.entry.conserved
                &&& hop.entry.canonical
                &&& hop.entry.valid_under@.contains(hop.entry.entry.ledger_id)
                &&& hop.signer_addr == this_addr ==> hop.entry.entry.ledger_id == self_key
            },
    ensures
        r,
{
    assert forall|i: int| 0 <= i < hops@.len() implies hop_ok(
        #[trigger] hops@[i],
        signers.spec_at(i),
        roles[i],
        this_addr,
        order,
        self_key,
        neighbors@,
        registry@,
    ) by {}
}

/// A forward is applied only where its ends are what they say: at the payer's leaf
/// the payer must be a user child at the payer's address, and at the end of the
/// cascade the payee one at the payee's, or it is refused as not a child's. What
/// cannot be derived is malformed. Without a record nothing is done.
pub proof fn law_forwards_are_checked_at_their_ends(
    turn: Turn,
    record: NodeRecord,
    forward: SettleForwardV1,
    signers: Signers,
    this: PeerRef,
    derivable: bool,
    payer_here: bool,
    payee_here: bool,
    r: ForwardStep,
    none: ForwardStep,
)
    requires
        call_ensures(
            user_child_is_at,
            (&record, &forward.order.from, &forward.payer_addr),
            payer_here,
        ),
        call_ensures(
            user_child_is_at,
            (&record, &forward.order.to, &forward.payee_addr),
            payee_here,
        ),
        call_ensures(
            check_forward,
            (turn, &Some(record), &forward, &signers, &this, derivable),
            r,
        ),
        call_ensures(check_forward, (turn, &None, &forward, &signers, &this, derivable), none),
    ensures
        none is Ignore,
        r is Ignore <==> this.addr == signers.payer_leaf && !payer_here,
        r is Apply <==> (this.addr == signers.payer_leaf ==> payer_here) && (turn.terminal
            ==> payee_here) && derivable,
        r matches ForwardStep::Refuse(why) ==> {
            ||| why is Malformed && !derivable && (turn.terminal ==> payee_here)
            ||| turn.terminal && !payee_here && (why matches SettleRejectV1::IntermediateRejected {
                at,
                reason,
            } && at@ == this.node@ && reason is NotAChild)
        },
{
}

} // verus!
