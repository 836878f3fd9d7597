//! Control requests and their replies.
use crate::addr::OctAddr;
use crate::control_store::JoinRequest;
use crate::record;
use crate::record::{ChildKind, RecordError};
use crate::text;
use crate::wire::{LedgerPubKey, OperatorPubKey};
use vstd::prelude::*;

verus! {

/// Why a control request is refused.
#[derive(Debug, Clone, Copy, PartialEq, Eq, Structural)]
pub enum RejectCode {
    /// Another format version.
    BadVersion,
    /// The sender may not do this.
    Unauthorized,
    /// The request is too old.
    Expired,
    /// The request is malformed.
    BadRequest,
    /// The request was seen before.
    Replay,
    /// The slot is in use.
    SlotTaken,
    /// The slot is no octal digit.
    SlotOutOfRange,
    /// There is no room.
    Capacity,
    /// There is no such child or request.
    NotFound,
    /// This node is not attached.
    NotAttached,
    /// Something failed here.
    Internal,
}

impl RejectCode {
    /// The name of the code.
    pub open spec fn spec_name(self) -> Seq<char> {
        match self {
            RejectCode::BadVersion => "BadVersion"@,
            RejectCode::Unauthorized => "Unauthorized"@,
            RejectCode::Expired => "Expired"@,
            RejectCode::BadRequest => "BadRequest"@,
            RejectCode::Replay => "Replay"@,
            RejectCode::SlotTaken => "SlotTaken"@,
            RejectCode::SlotOutOfRange => "SlotOutOfRange"@,
            RejectCode::Capacity => "Capacity"@,
            RejectCode::NotFound => "NotFound"@,
            RejectCode::NotAttached => "NotAttached"@,
            RejectCode::Internal => "Internal"@,
        }
    }

    /// The name of the code.
    pub fn name(&self) -> (r: &'static str)
        ensures
            r@ == self.spec_name(),
    {
        match self {
            RejectCode::BadVersion => "BadVersion",
            RejectCode::Unauthorized => "Unauthorized",
            RejectCode::Expired => "Expired",
            RejectCode::BadRequest => "BadRequest",
            RejectCode::Replay => "Replay",
            RejectCode::SlotTaken => "SlotTaken",
            RejectCode::SlotOutOfRange => "SlotOutOfRange",
            RejectCode::Capacity => "Capacity",
            RejectCode::NotFound => "NotFound",
            RejectCode::NotAttached => "NotAttached",
            RejectCode::Internal => "Internal",
        }
    }
}

/// What can be wrong with a control message.
#[derive(Debug, PartialEq, Eq)]
pub enum ControlError {
    /// Another format version.
    UnsupportedVersion(u32),
    /// The origin is not registered.
    UnknownOrigin(String),
    /// The origin is registered with another operator key.
    OperatorMismatch,
    /// The signature does not hold.
    InvalidSignature,
    /// A node without a ledger key.
    MissingLedgerForNode,
    /// A user with a ledger key.
    UnexpectedLedgerForUser,
    /// A slot above the largest octal digit.
    SlotOutOfRange(u8),
    /// A text is too long.
    FieldTooLong,
    /// A grant that ends before it begins.
    GrantExpiryNotAfterGrant,
    /// A grant that holds too long.
    GrantTtlTooLong,
    /// Anything else, with a message.
    Codec(String),
}

/// What the peer registry finds wrong with a row.
#[derive(Debug)]
pub enum PeerInsertError {
    /// The keys do not fit the role.
    InvalidPeerKeys(String),
    /// The peer is registered already.
    DuplicatePeer(String),
    /// A key is registered already.
    DuplicateKey(String),
    /// Anything else.
    Other(String),
}

impl PeerInsertError {
    /// The message shown for the error.
    pub open spec fn spec_message(self) -> Seq<char> {
        match self {
            PeerInsertError::InvalidPeerKeys(m) => m@,
            PeerInsertError::DuplicatePeer(m) => m@,
            PeerInsertError::DuplicateKey(m) => m@,
            PeerInsertError::Other(m) => m@,
        }
    }

    /// The message shown for the error.
    pub fn message(&self) -> (r: String)
        ensures
            r@ == self.spec_message(),
    {
        match self {
            PeerInsertError::InvalidPeerKeys(m) => m.clone(),
            PeerInsertError::DuplicatePeer(m) => m.clone(),
            PeerInsertError::DuplicateKey(m) => m.clone(),
            PeerInsertError::Other(m) => m.clone(),
        }
    }
}

/// The code for a record fault.
pub open spec fn record_code(fault: record::RecordFault) -> RejectCode {
    match fault {
        record::RecordFault::SlotTaken(_) => RejectCode::SlotTaken,
        record::RecordFault::SlotOutOfRange(_) => RejectCode::SlotOutOfRange,
        record::RecordFault::CapExceeded => RejectCode::Capacity,
        record::RecordFault::ChildNotFound(_) => RejectCode::NotFound,
        record::RecordFault::AddressWithoutParent(_) => RejectCode::NotAttached,
        record::RecordFault::DuplicateChild(_) => RejectCode::BadRequest,
        record::RecordFault::SelfReference(_) => RejectCode::BadRequest,
        record::RecordFault::AddressSlotMismatch { .. } => RejectCode::BadRequest,
        record::RecordFault::IdMismatch { .. } => RejectCode::BadRequest,
        _ => RejectCode::Internal,
    }
}

/// Map a record mutation failure to its code.
pub fn map_record_error(err: &RecordError) -> (r: RejectCode)
    ensures
        r == record_code(err@),
{
    match err {
        RecordError::SlotTaken(_) => RejectCode::SlotTaken,
        RecordError::SlotOutOfRange(_) => RejectCode::SlotOutOfRange,
        RecordError::CapExceeded => RejectCode::Capacity,
        RecordError::ChildNotFound(_) => RejectCode::NotFound,
        RecordError::AddressWithoutParent(_) => RejectCode::NotAttached,
        RecordError::DuplicateChild(_) => RejectCode::BadRequest,
        RecordError::SelfReference(_) => RejectCode::BadRequest,
        RecordError::AddressSlotMismatch { address_slot: _, parent_slot: _ } => {
            RejectCode::BadRequest
        },
        RecordError::IdMismatch { found: _, expected: _ } => RejectCode::BadRequest,
        RecordError::ReadFailed { path: _, detail: _ } => RejectCode::Internal,
        RecordError::WriteFailed { path: _, detail: _ } => RejectCode::Internal,
        RecordError::Corrupt { path: _, detail: _ } => RejectCode::Internal,
    }
}

/// The code for a control verification failure.
pub open spec fn control_code(err: ControlError) -> RejectCode {
    match err {
        ControlError::UnsupportedVersion(_) => RejectCode::BadVersion,
        ControlError::UnknownOrigin(_) => RejectCode::Unauthorized,
        ControlError::OperatorMismatch => RejectCode::Unauthorized,
        ControlError::InvalidSignature => RejectCode::Unauthorized,
        ControlError::Codec(_) => RejectCode::Internal,
        _ => RejectCode::BadRequest,
    }
}

/// Map a control verification failure to its code.
pub fn map_control_error(err: &ControlError) -> (r: RejectCode)
    ensures
        r == control_code(*err),
{
    match err {
        ControlError::UnsupportedVersion(_) => RejectCode::BadVersion,
        ControlError::UnknownOrigin(_) => RejectCode::Unauthorized,
        ControlError::OperatorMismatch => RejectCode::Unauthorized,
        ControlError::InvalidSignature => RejectCode::Unauthorized,
        ControlError::MissingLedgerForNode => RejectCode::BadRequest,
        ControlError::UnexpectedLedgerForUser => RejectCode::BadRequest,
        ControlError::SlotOutOfRange(_) => RejectCode::BadRequest,
        ControlError::FieldTooLong => RejectCode::BadRequest,
        ControlError::GrantExpiryNotAfterGrant => RejectCode::BadRequest,
        ControlError::GrantTtlTooLong => RejectCode::BadRequest,
        ControlError::Codec(_) => RejectCode::Internal,
    }
}

/// The code for a failed registration.
pub open spec fn insert_code(err: PeerInsertError) -> RejectCode {
    if err is Other {
        RejectCode::Internal
    } else {
        RejectCode::BadRequest
    }
}

/// Map a peer-registry insertion failure to its code.
pub fn map_ledger_error(err: &PeerInsertError) -> (r: RejectCode)
    ensures
        r == insert_code(*err),
{
    match err {
        PeerInsertError::Other(_) => RejectCode::Internal,
        _ => RejectCode::BadRequest,
    }
}

/// Map an approval failure to its code. The precise cases are checked before;
/// this is for what is left.
pub fn map_approve_error(err: &ControlError) -> (r: RejectCode)
    ensures
        r == (if *err is SlotOutOfRange {
            RejectCode::SlotOutOfRange
        } else {
            RejectCode::Internal
        }),
{
    match err {
        ControlError::SlotOutOfRange(_) => RejectCode::SlotOutOfRange,
        _ => RejectCode::Internal,
    }
}

/// A parent's approval of a join.
#[derive(Debug)]
pub struct JoinApproval {
    /// The applicant.
    pub child: String,
    /// Its operator key.
    pub child_operator: OperatorPubKey,
    /// Its ledger key.
    pub child_ledger: Option<LedgerPubKey>,
    /// Node or user.
    pub kind: ChildKind,
    /// The slot it gets.
    pub slot: u8,
    /// The address it gets.
    pub address: OctAddr,
    /// Unix seconds of the approval.
    pub date_joined: u64,
    /// The nonce of the request that is answered.
    pub nonce: u64,
    /// The parent's ledger key.
    pub parent_ledger: LedgerPubKey,
}

impl JoinApproval {
    /// A copy of the approval.
    pub fn copied(&self) -> (r: JoinApproval)
        ensures
            r == *self,
    {
        JoinApproval {
            child: self.child.clone(),
            child_operator: self.child_operator,
            child_ledger: self.child_ledger,
            kind: self.kind,
            slot: self.slot,
            address: self.address.copied(),
            date_joined: self.date_joined,
            nonce: self.nonce,
            parent_ledger: self.parent_ledger,
        }
    }
}

/// A parent's refusal of a join.
#[derive(Debug)]
pub struct JoinRejection {
    /// The applicant.
    pub child: String,
    /// Why.
    pub reason: String,
    /// The nonce of the request that is answered.
    pub nonce: u64,
}

/// A request to attach a child.
#[derive(Debug)]
pub struct CreateChild {
    /// The child.
    pub child: String,
    /// Node or user.
    pub kind: ChildKind,
    /// Its operator key.
    pub operator: OperatorPubKey,
    /// Its ledger key.
    pub ledger: Option<LedgerPubKey>,
    /// The slot it gets; the lowest free one if none is named.
    pub slot: Option<u8>,
    /// Unix seconds of its joining.
    pub date_joined: u64,
}

/// A request to give a child another slot.
#[derive(Debug)]
pub struct MoveChild {
    /// The child.
    pub child: String,
    /// The node below which it goes.
    pub new_parent: String,
    /// The slot it gets; the lowest free one if none is named.
    pub slot: Option<u8>,
}

/// What a control message asks for.
#[derive(Debug)]
pub enum ControlRequest {
    /// Join below the receiver.
    Join(JoinRequest),
    /// The join is approved.
    JoinApproved(JoinApproval),
    /// The join is refused.
    JoinRejected(JoinRejection),
    /// Attach a child.
    CreateChild(CreateChild),
    /// Remove a child.
    DetachChild(String),
    /// Re-slot a child.
    MoveChild(MoveChild),
    /// Assert or withdraw an address.
    SetAddress(Option<OctAddr>),
    /// Show the node's links.
    Query,
    /// Show the node's links and the waiting joins.
    AdminQuery,
    /// Approve a waiting join.
    AdminApproveJoin {
        /// The applicant.
        child: String,
        /// The slot it gets.
        slot: Option<u8>,
    },
    /// Refuse a waiting join.
    AdminRejectJoin {
        /// The applicant.
        child: String,
        /// Why.
        reason: Option<String>,
    },
    /// Send the last decision to an applicant again.
    AdminRedeliverJoin {
        /// The applicant.
        child: String,
    },
}

impl ControlRequest {
    /// A copy of the request.
    pub fn copied(&self) -> (r: ControlRequest)
        ensures
            r == *self,
    {
        match self {
            ControlRequest::Join(join) => ControlRequest::Join(join.copied()),
            ControlRequest::JoinApproved(approval) => {
                ControlRequest::JoinApproved(approval.copied())
            },
            ControlRequest::JoinRejected(rejection) => ControlRequest::JoinRejected(
                JoinRejection {
                    child: rejection.child.clone(),
                    reason: rejection.reason.clone(),
                    nonce: rejection.nonce,
                },
            ),
            ControlRequest::CreateChild(create) => ControlRequest::CreateChild(
                CreateChild {
                    child: create.child.clone(),
                    kind: create.kind,
                    operator: create.operator,
                    ledger: create.ledger,
                    slot: create.slot,
                    date_joined: create.date_joined,
                },
            ),
            ControlRequest::DetachChild(child) => ControlRequest::DetachChild(child.clone()),
            ControlRequest::MoveChild(moved) => ControlRequest::MoveChild(
                MoveChild {
                    child: moved.child.clone(),
                    new_parent: moved.new_parent.clone(),
                    slot: moved.slot,
                },
            ),
            ControlRequest::SetAddress(address) => {
                ControlRequest::SetAddress(record::copied_address(address))
            },
            ControlRequest::Query => ControlRequest::Query,
            ControlRequest::AdminQuery => ControlRequest::AdminQuery,
            ControlRequest::AdminApproveJoin { child, slot } => ControlRequest::AdminApproveJoin {
                child: child.clone(),
                slot: *slot,
            },
            ControlRequest::AdminRejectJoin { child, reason } => ControlRequest::AdminRejectJoin {
                child: child.clone(),
                reason: match reason {
                    Some(reason) => Some(reason.clone()),
                    None => None,
                },
            },
            ControlRequest::AdminRedeliverJoin { child } => ControlRequest::AdminRedeliverJoin {
                child: child.clone(),
            },
        }
    }

    /// The request belongs to the admin surface.
    pub open spec fn spec_is_admin(self) -> bool {
        self is AdminQuery || self is AdminApproveJoin || self is AdminRejectJoin || self
            is AdminRedeliverJoin
    }

    /// Whether the request belongs to the admin surface.
    pub fn is_admin(&self) -> (r: bool)
        ensures
            r == self.spec_is_admin(),
    {
        match self {
            ControlRequest::AdminQuery => true,
            ControlRequest::AdminApproveJoin { child: _, slot: _ } => true,
            ControlRequest::AdminRejectJoin { child: _, reason: _ } => true,
            ControlRequest::AdminRedeliverJoin { child: _ } => true,
            _ => false,
        }
    }

    /// The request belongs to the join handshake.
    pub open spec fn spec_is_join(self) -> bool {
        self is Join || self is JoinApproved || self is JoinRejected
    }

    /// Whether the request belongs to the join handshake.
    pub fn is_join(&self) -> (r: bool)
        ensures
            r == self.spec_is_join(),
    {
        match self {
            ControlRequest::Join(_) => true,
            ControlRequest::JoinApproved(_) => true,
            ControlRequest::JoinRejected(_) => true,
            _ => false,
        }
    }
}

/// A signed control message.
#[derive(Debug)]
pub struct SignedControl {
    /// The format version.
    pub version: u32,
    /// The node that the message speaks for.
    pub origin: String,
    /// The operator key that signed.
    pub controller: OperatorPubKey,
    /// Names this message.
    pub nonce: u64,
    /// Unix seconds of the last moment at which it stands.
    pub expiry: u64,
    /// What it asks for.
    pub request: ControlRequest,
    /// The signature.
    pub signature: [u8; 64],
}

impl SignedControl {
    /// A copy of the message.
    pub fn copied(&self) -> (r: SignedControl)
        ensures
            r == *self,
    {
        SignedControl {
            version: self.version,
            origin: self.origin.clone(),
            controller: self.controller,
            nonce: self.nonce,
            expiry: self.expiry,
            request: self.request.copied(),
            signature: self.signature,
        }
    }
}

/// How the delivery of a decision went.
#[derive(Debug, Clone, Copy, PartialEq, Eq, Structural)]
pub enum DeliveryStatus {
    /// The applicant took it.
    Delivered,
    /// The applicant refused it.
    Rejected(RejectCode),
    /// The applicant did not answer in time.
    TimedOut,
    /// The applicant could not be reached.
    Unreachable,
}

/// A parent link as shown.
#[derive(Debug)]
pub struct ParentSnapshot {
    /// The parent.
    pub node_id: String,
    /// This node's slot below it.
    pub slot: u8,
    /// Its address.
    pub address: OctAddr,
}

/// A child link as shown.
#[derive(Debug)]
pub struct ChildSnapshot {
    /// The child.
    pub child_id: String,
    /// Node or user.
    pub kind: ChildKind,
    /// Its slot.
    pub slot: u8,
    /// Its address, if this node has one.
    pub address: Option<OctAddr>,
    /// Unix seconds of its joining.
    pub date_joined: u64,
}

/// A node's links as shown.
#[derive(Debug)]
pub struct NodeSnapshot {
    /// The node.
    pub node_id: String,
    /// Its address.
    pub address: Option<OctAddr>,
    /// Its parent.
    pub parent: Option<ParentSnapshot>,
    /// Its children, in record order.
    pub children: Vec<ChildSnapshot>,
}

/// A waiting join as shown to an admin. Where the applicant says it is stays
/// out.
#[derive(Debug)]
pub struct AdminPendingJoin {
    /// The applicant.
    pub child: String,
    /// Node or user.
    pub kind: ChildKind,
    /// Its operator key.
    pub operator: OperatorPubKey,
    /// The slot it asks for.
    pub desired_slot: Option<u8>,
    /// Unix seconds of the last moment at which it stands.
    pub expiry: u64,
}

/// The answer to a control request.
#[derive(Debug)]
pub enum ControlReply {
    /// It was done.
    Accepted,
    /// It waits for approval.
    Pending,
    /// It was refused.
    Rejected(RejectCode),
    /// The node's links.
    Snapshot(NodeSnapshot),
    /// The node's links and the waiting joins.
    AdminSnapshot {
        /// The node's links.
        node: NodeSnapshot,
        /// The waiting joins.
        pending: Vec<AdminPendingJoin>,
    },
    /// A join was approved.
    AdminApproved {
        /// The applicant.
        child: String,
        /// The slot it gets.
        slot: u8,
        /// The address it gets.
        address: OctAddr,
        /// How the delivery went.
        delivery: DeliveryStatus,
    },
    /// A join was refused.
    AdminRejected {
        /// The applicant.
        child: String,
        /// How the delivery went.
        delivery: DeliveryStatus,
    },
}

impl ControlReply {
    /// The name of the reply.
    pub open spec fn spec_kind(self) -> Seq<char> {
        match self {
            ControlReply::Accepted => "accepted"@,
            ControlReply::Pending => "pending"@,
            ControlReply::Rejected(_) => "rejected"@,
            ControlReply::Snapshot(_) => "snapshot"@,
            ControlReply::AdminSnapshot { .. } => "admin-snapshot"@,
            ControlReply::AdminApproved { .. } => "admin-approved"@,
            ControlReply::AdminRejected { .. } => "admin-rejected"@,
        }
    }

    /// The name of the reply, for logs.
    pub fn signed_kind(&self) -> (r: &'static str)
        ensures
            r@ == self.spec_kind(),
    {
        match self {
            ControlReply::Accepted => "accepted",
            ControlReply::Pending => "pending",
            ControlReply::Rejected(_) => "rejected",
            ControlReply::Snapshot(_) => "snapshot",
            ControlReply::AdminSnapshot { node: _, pending: _ } => "admin-snapshot",
            ControlReply::AdminApproved { child: _, slot: _, address: _, delivery: _ } => {
                "admin-approved"
            },
            ControlReply::AdminRejected { child: _, delivery: _ } => "admin-rejected",
        }
    }

    /// The outcome of an audited request: the name of the reply, with the code
    /// of a refusal.
    pub fn outcome(&self) -> (r: String)
        ensures
            r@ == (match *self {
                ControlReply::Rejected(code) => "rejected:"@ + code.spec_name(),
                _ => self.spec_kind(),
            }),
    {
        match self {
            ControlReply::Rejected(code) => {
                let mut r: String = "rejected:".to_owned();
                r.append(code.name());
                r
            },
            _ => self.signed_kind().to_owned(),
        }
    }

    /// The reply with the real outcome of the delivery in it.
    pub fn patch_delivery(self, status: DeliveryStatus) -> (r: ControlReply)
        ensures
            match self {
                ControlReply::AdminApproved { child, slot, address, delivery } => r == (
                ControlReply::AdminApproved { child, slot, address, delivery: status }),
                ControlReply::AdminRejected { child, delivery } => r == (
                ControlReply::AdminRejected { child, delivery: status }),
                _ => r == self,
            },
    {
        match self {
            ControlReply::AdminApproved { child, slot, address, delivery: _ } => {
                ControlReply::AdminApproved { child, slot, address, delivery: status }
            },
            ControlReply::AdminRejected { child, delivery: _ } => ControlReply::AdminRejected {
                child,
                delivery: status,
            },
            other => other,
        }
    }
}

/// The applicant's view of a delivery: its refusal, its acceptance, or how the
/// exchange failed. A failure that says so was a timeout.
pub fn delivery_status(result: &Result<ControlReply, ControlError>) -> (r: DeliveryStatus)
    ensures
        r == (match *result {
            Ok(ControlReply::Rejected(code)) => DeliveryStatus::Rejected(code),
            Ok(_) => DeliveryStatus::Delivered,
            Err(ControlError::Codec(message)) => if text::occurs(message@, "timed out"@) {
                DeliveryStatus::TimedOut
            } else {
                DeliveryStatus::Unreachable
            },
            Err(_) => DeliveryStatus::Unreachable,
        }),
{
    match result {
        Ok(ControlReply::Rejected(code)) => DeliveryStatus::Rejected(*code),
        Ok(_) => DeliveryStatus::Delivered,
        Err(ControlError::Codec(message)) => {
            if text::contains(message.as_str(), "timed out") {
                DeliveryStatus::TimedOut
            } else {
                DeliveryStatus::Unreachable
            }
        },
        Err(_) => DeliveryStatus::Unreachable,
    }
}

/// The reply after all deliveries: the last outcome is in it.
pub fn deliver_outbound_decisions(reply: ControlReply, statuses: &Vec<DeliveryStatus>) -> (r:
    ControlReply)
    ensures
        match reply {
            ControlReply::AdminApproved { child, slot, address, delivery } => r == (
            ControlReply::AdminApproved {
                child,
                slot,
                address,
                delivery: if statuses@.len() == 0 {
                    delivery
                } else {
                    statuses@.last()
                },
            }),
            ControlReply::AdminRejected { child, delivery } => r == (ControlReply::AdminRejected {
                child,
                delivery: if statuses@.len() == 0 {
                    delivery
                } else {
                    statuses@.last()
                },
            }),
            _ => r == reply,
        },
{
    if statuses.len() == 0 {
        return reply;
    }
    reply.patch_delivery(statuses[statuses.len() - 1])
}

/// The byte of `n` at position `i`, the most significant first.
pub open spec fn big_endian(n: u64, i: int) -> u8
    recommends
        0 <= i < 8,
{
    ((n >> ((56 - 8 * i) as u64)) & 0xff) as u8
}

/// Pack a nonce into a replay id: its eight bytes, the most significant first,
/// then zeros.
pub fn nonce_msg_id(nonce: u64) -> (r: [u8; 16])
    ensures
        forall|i: int| 0 <= i < 8 ==> #[trigger] r[i] == big_endian(nonce, i),
        forall|i: int| 8 <= i < 16 ==> #[trigger] r[i] == 0,
{
    [
        ((nonce >> 56u64) & 0xff) as u8,
        ((nonce >> 48u64) & 0xff) as u8,
        ((nonce >> 40u64) & 0xff) as u8,
        ((nonce >> 32u64) & 0xff) as u8,
        ((nonce >> 24u64) & 0xff) as u8,
        ((nonce >> 16u64) & 0xff) as u8,
        ((nonce >> 8u64) & 0xff) as u8,
        ((nonce >> 0u64) & 0xff) as u8,
        0,
        0,
        0,
        0,
        0,
        0,
        0,
        0,
    ]
}

/// Different nonces have different replay ids.
pub proof fn law_replay_ids_are_distinct(a: u64, b: u64)
    requires
        forall|i: int| 0 <= i < 8 ==> #[trigger] big_endian(a, i) == big_endian(b, i),
    ensures
        a == b,
{
    assert(big_endian(a, 0) == big_endian(b, 0));
    assert(big_endian(a, 1) == big_endian(b, 1));
    assert(big_endian(a, 2) == big_endian(b, 2));
    assert(big_endian(a, 3) == big_endian(b, 3));
    assert(big_endian(a, 4) == big_endian(b, 4));
    assert(big_endian(a, 5) == big_endian(b, 5));
    assert(big_endian(a, 6) == big_endian(b, 6));
    assert(big_endian(a, 7) == big_endian(b, 7));
    assert(((a >> 56) & 0xff) as u8 == ((b >> 56) & 0xff) as u8 && ((a >> 48) & 0xff) as u8 == ((b
        >> 48) & 0xff) as u8 && ((a >> 40) & 0xff) as u8 == ((b >> 40) & 0xff) as u8 && ((a >> 32)
        & 0xff) as u8 == ((b >> 32) & 0xff) as u8 && ((a >> 24) & 0xff) as u8 == ((b >> 24)
        & 0xff) as u8 && ((a >> 16) & 0xff) as u8 == ((b >> 16) & 0xff) as u8 && ((a >> 8)
        & 0xff) as u8 == ((b >> 8) & 0xff) as u8 && ((a >> 0) & 0xff) as u8 == ((b >> 0)
        & 0xff) as u8 ==> a == b) by (bit_vector);
}

/// The requests fall into three groups. The admin surface and the join handshake
/// have nothing in common, and a request for the topology is in neither.
pub proof fn law_requests_fall_into_groups(request: ControlRequest, admin: bool, join: bool)
    requires
        call_ensures(ControlRequest::is_admin, (&request,), admin),
        call_ensures(ControlRequest::is_join, (&request,), join),
    ensures
        match request {
            ControlRequest::Join(_)
            | ControlRequest::JoinApproved(_)
            | ControlRequest::JoinRejected(_) => join && !admin,
            ControlRequest::AdminQuery
            | ControlRequest::AdminApproveJoin { .. }
            | ControlRequest::AdminRejectJoin { .. }
            | ControlRequest::AdminRedeliverJoin { .. } => admin && !join,
            ControlRequest::CreateChild(_)
            | ControlRequest::DetachChild(_)
            | ControlRequest::MoveChild(_)
            | ControlRequest::SetAddress(_)
            | ControlRequest::Query => !admin && !join,
        },
{
}

/// A refusal of the record keeps what the caller can mend apart from what failed
/// here: a slot in use, a slot that is none, a full list and a child that is not
/// there have codes of their own, a file that fails is internal, and what is left
/// is a bad request.
pub proof fn law_record_refusals_keep_their_cause(err: RecordError, r: RejectCode)
    requires
        call_ensures(map_record_error, (&err,), r),
    ensures
        r is SlotTaken <==> err is SlotTaken,
        r is SlotOutOfRange <==> err is SlotOutOfRange,
        r is Capacity <==> err is CapExceeded,
        r is NotFound <==> err is ChildNotFound,
        r is NotAttached <==> err is AddressWithoutParent,
        r is Internal <==> err is ReadFailed || err is WriteFailed || err is Corrupt,
        r is BadRequest <==> err is DuplicateChild || err is SelfReference || err
            is AddressSlotMismatch || err is IdMismatch,
{
}

/// A message whose sender cannot be trusted is unauthorised, one of another format
/// is a bad version, one that says something wrong is a bad request, and only what
/// cannot be written or read is internal. What is left of an approval that failed
/// is internal but for the slot, and a row that the registry refuses is a bad
/// request but for what it does not name.
pub proof fn law_message_refusals_keep_their_cause(
    err: ControlError,
    insert: PeerInsertError,
    control: RejectCode,
    approve: RejectCode,
    ledger: RejectCode,
)
    requires
        call_ensures(map_control_error, (&err,), control),
        call_ensures(map_approve_error, (&err,), approve),
        call_ensures(map_ledger_error, (&insert,), ledger),
    ensures
        control is BadVersion <==> err is UnsupportedVersion,
        control is Unauthorized <==> err is UnknownOrigin || err is OperatorMismatch || err
            is InvalidSignature,
        control is Internal <==> err is Codec,
        control is BadVersion || control is Unauthorized || control is Internal || control
            is BadRequest,
        approve is SlotOutOfRange <==> err is SlotOutOfRange,
        approve is SlotOutOfRange || approve is Internal,
        ledger is Internal <==> insert is Other,
        ledger is Internal || ledger is BadRequest,
{
}

/// An applicant that answers was reached: a refusal is passed on with its code and
/// anything else counts as delivered. One that does not answer timed out where the
/// failure says so, and was otherwise not reached.
pub proof fn law_deliveries_tell_how_they_went(
    result: Result<ControlReply, ControlError>,
    before: Seq<char>,
    after: Seq<char>,
    r: DeliveryStatus,
)
    requires
        call_ensures(delivery_status, (&result,), r),
    ensures
        result is Ok <==> r is Delivered || r is Rejected,
        result matches Ok(reply) ==> match reply {
            ControlReply::Rejected(code) => r == DeliveryStatus::Rejected(code),
            _ => r is Delivered,
        },
        r is TimedOut ==> result is Err && result->Err_0 is Codec,
        result matches Err(e) ==> (e matches ControlError::Codec(message) ==> (message@ == before
            + "timed out"@ + after ==> r is TimedOut)),
{
    match result {
        Err(ControlError::Codec(message)) => {
            if message@ == before + "timed out"@ + after {
                let at = before.len() as int;
                let needle = "timed out"@;
                assert(message@.subrange(at, at + needle.len()) =~= needle);
                assert(text::occurs_at(message@, needle, at));
            }
        },
        _ => {},
    }
}

/// A decision's answer takes in how its delivery went and nothing else changes;
/// every other answer stays as it is. Of several deliveries the last counts, and
/// without one the answer stays.
pub proof fn law_delivery_goes_into_the_answer(
    reply: ControlReply,
    status: DeliveryStatus,
    statuses: Vec<DeliveryStatus>,
    patched: ControlReply,
    sent: ControlReply,
    alone: ControlReply,
)
    requires
        call_ensures(ControlReply::patch_delivery, (reply, status), patched),
        call_ensures(deliver_outbound_decisions, (reply, &statuses), sent),
        call_ensures(ControlReply::patch_delivery, (sent, status), alone),
    ensures
        patched is AdminApproved <==> reply is AdminApproved,
        patched is AdminRejected <==> reply is AdminRejected,
        reply is AdminApproved ==> {
            &&& patched->AdminApproved_child == reply->AdminApproved_child
            &&& patched->AdminApproved_slot == reply->AdminApproved_slot
            &&& patched->AdminApproved_address == reply->AdminApproved_address
            &&& patched->AdminApproved_delivery == status
        },
        reply is AdminRejected ==> patched->AdminRejected_child == reply->AdminRejected_child
            && patched->AdminRejected_delivery == status,
        !(reply is AdminApproved) && !(reply is AdminRejected) ==> patched == reply && sent
            == reply,
        statuses@.len() == 0 ==> sent == reply,
        statuses@.len() > 0 && statuses@.last() == status ==> sent == patched,
        alone == patched,
{
}

/// A replay id is its nonce: eight bytes that give the number back, the most
/// significant first, and nothing behind them.
pub proof fn law_replay_id_spells_the_nonce(nonce: u64, id: [u8; 16])
    requires
        call_ensures(nonce_msg_id, (nonce,), id),
    ensures
        nonce == id[0] * 0x100000000000000 + id[1] * 0x1000000000000 + id[2] * 0x10000000000 + id[3]
            * 0x100000000 + id[4] * 0x1000000 + id[5] * 0x10000 + id[6] * 0x100 + id[7],
        forall|i: int| 8 <= i < 16 ==> #[trigger] id[i] == 0,
{
    assert(id[0] == big_endian(nonce, 0) && id[1] == big_endian(nonce, 1) && id[2] == big_endian(
        nonce,
        2,
    ) && id[3] == big_endian(nonce, 3));
    assert(id[4] == big_endian(nonce, 4) && id[5] == big_endian(nonce, 5) && id[6] == big_endian(
        nonce,
        6,
    ) && id[7] == big_endian(nonce, 7));
    assert(nonce == (((nonce >> 56u64) & 0xff) as u8) * 0x100000000000000 + (((nonce >> 48u64)
        & 0xff) as u8) * 0x1000000000000 + (((nonce >> 40u64) & 0xff) as u8) * 0x10000000000 + (((
    nonce >> 32u64) & 0xff) as u8) * 0x100000000 + (((nonce >> 24u64) & 0xff) as u8) * 0x1000000
        + (((nonce >> 16u64) & 0xff) as u8) * 0x10000 + (((nonce >> 8u64) & 0xff) as u8) * 0x100
        + (((nonce >> 0u64) & 0xff) as u8)) by (bit_vector);
}

/// An audited outcome is the reply's own name, and a refusal has its code behind it;
/// no other reply begins as a refusal does.
pub proof fn law_outcomes_name_the_reply(
    reply: ControlReply,
    kind: &'static str,
    code_name: &'static str,
    r: String,
)
    requires
        call_ensures(ControlReply::signed_kind, (&reply,), kind),
        reply is Rejected ==> call_ensures(RejectCode::name, (&reply->Rejected_0,), code_name),
        call_ensures(ControlReply::outcome, (&reply,), r),
    ensures
        reply is Rejected ==> r@ == "rejected:"@ + code_name@,
        !(reply is Rejected) ==> r@ == kind@,
        match reply {
            ControlReply::Accepted => kind@ == "accepted"@,
            ControlReply::Pending => kind@ == "pending"@,
            ControlReply::Rejected(_) => kind@ == "rejected"@,
            ControlReply::Snapshot(_) => kind@ == "snapshot"@,
            ControlReply::AdminSnapshot { .. } => kind@ == "admin-snapshot"@,
            ControlReply::AdminApproved { .. } => kind@ == "admin-approved"@,
            ControlReply::AdminRejected { .. } => kind@ == "admin-rejected"@,
        },
{
}

} // verus!
