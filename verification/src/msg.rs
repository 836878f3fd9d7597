//! What a node does with one message: the checks on an arriving envelope, the
//! replay mark, routing, and the checks on routed control payloads.
//!
//! Reading and writing streams, the replay set and the dialing of neighbors
//! belong to the caller. Each function here takes what the last outside step
//! came to and says what to do next.
use crate::addr::OctAddr;
use crate::endpoint;
use crate::routing::{EndpointAddr, RoutableSnapshot};
use crate::wire::{Envelope, MsgId, PeerRef};
use vstd::prelude::*;

verus! {

/// Bounds of the message protocol.
#[derive(Debug, Clone, Copy)]
pub struct Limits {
    /// The longest hop chain.
    pub max_hops: u8,
    /// The largest payload, in bytes.
    pub max_payload: usize,
    /// The largest control payload, in bytes.
    pub max_control_frame: usize,
}

/// Tunables for the messaging layer.
#[derive(Debug, Clone, Copy)]
pub struct MsgConfig {
    /// Remaining authorised forwards placed on freshly built envelopes.
    pub ttl: u8,
    /// Rejected payload size ceiling.
    pub max_payload: usize,
    /// Per-hop deadline in seconds.
    pub hop_timeout_secs: u64,
}

impl MsgConfig {
    /// The default tunables under the given bounds.
    pub fn for_limits(limits: &Limits) -> (r: MsgConfig)
        ensures
            r.ttl == limits.max_hops,
            r.max_payload == limits.max_payload,
            r.hop_timeout_secs == 10,
    {
        MsgConfig { ttl: limits.max_hops, max_payload: limits.max_payload, hop_timeout_secs: 10 }
    }
}

/// Why a message was refused.
#[derive(Debug, Clone, Copy, PartialEq, Eq, Structural)]
pub enum RejectReason {
    /// An unsupported protocol version.
    BadVersion,
    /// A payload that is too large or malformed.
    BadPayload,
    /// No forwards left.
    TtlExpired,
    /// An implausible hop chain.
    BadHopChain,
    /// The sender is not a direct neighbor.
    NotNeighbor,
    /// There is no route to the destination.
    NoRoute,
    /// The next hop cannot be reached.
    Unreachable,
    /// The local queue is full.
    Busy,
    /// Something failed here.
    Internal,
}

/// The answer to a message.
#[derive(Debug, Clone, Copy, PartialEq, Eq, Structural)]
pub enum AckStatus {
    /// Queued at its destination.
    Delivered,
    /// Seen before.
    Duplicate,
    /// Refused.
    Rejected(RejectReason),
}

/// What structural validation of an envelope can find.
#[derive(Debug, PartialEq, Eq)]
pub enum MsgError {
    /// An unsupported protocol version.
    UnsupportedVersion,
    /// The payload is too large.
    PayloadTooLarge {
        /// Its size.
        actual: usize,
        /// The limit.
        max: usize,
    },
    /// A node id is too long.
    NodeIdTooLong,
    /// The ttl is above the longest hop chain.
    BadTtl {
        /// The ttl.
        ttl: u8,
    },
    /// The hop chain is malformed.
    HopChain,
    /// An entry proof is malformed.
    InvalidEntryProof,
    /// Encoding or the random source failed.
    Codec(String),
}

/// Which refusal answers a structural error.
pub open spec fn spec_structural_reason(error: MsgError) -> RejectReason {
    match error {
        MsgError::UnsupportedVersion => RejectReason::BadVersion,
        MsgError::PayloadTooLarge { .. } => RejectReason::BadPayload,
        MsgError::NodeIdTooLong => RejectReason::BadPayload,
        MsgError::BadTtl { .. } => RejectReason::TtlExpired,
        MsgError::HopChain => RejectReason::BadHopChain,
        MsgError::InvalidEntryProof => RejectReason::BadPayload,
        MsgError::Codec(_) => RejectReason::Internal,
    }
}

/// Which refusal answers a structural error.
pub fn structural_reason(error: &MsgError) -> (r: RejectReason)
    ensures
        r == spec_structural_reason(*error),
{
    match error {
        MsgError::UnsupportedVersion => RejectReason::BadVersion,
        MsgError::PayloadTooLarge { .. } => RejectReason::BadPayload,
        MsgError::NodeIdTooLong => RejectReason::BadPayload,
        MsgError::BadTtl { .. } => RejectReason::TtlExpired,
        MsgError::HopChain => RejectReason::BadHopChain,
        MsgError::InvalidEntryProof => RejectReason::BadPayload,
        MsgError::Codec(_) => RejectReason::Internal,
    }
}

/// The chain already visited `this`, by node or by address.
pub open spec fn visits(chain: Seq<PeerRef>, this: PeerRef) -> bool {
    exists|i: int|
        0 <= i < chain.len() && ((#[trigger] chain[i]).node@ == this.node@ || chain[i].addr
            == this.addr)
}

/// Whether the chain already visited `this`.
pub fn chain_visits(chain: &Vec<PeerRef>, this: &PeerRef) -> (r: bool)
    ensures
        r == visits(chain@, *this),
{
    let mut i: usize = 0;
    while i < chain.len()
        invariant
            i <= chain@.len(),
            forall|j: int|
                0 <= j < i ==> (#[trigger] chain@[j]).node@ != this.node@ && chain@[j].addr
                    != this.addr,
        decreases chain@.len() - i,
    {
        if chain[i].node == this.node || chain[i].addr.same(&this.addr) {
            return true;
        }
        i = i + 1;
    }
    false
}

/// The checks on an arriving envelope before its replay mark is set, in order:
/// structure, plausibility of the hop chain, loops, and the authenticated last
/// hop being a direct neighbor.
pub open spec fn admission(
    chain: Seq<PeerRef>,
    structural: Option<MsgError>,
    chain_plausible: bool,
    snapshot: RoutableSnapshot,
    remote: Seq<char>,
) -> Result<(), RejectReason> {
    if structural is Some {
        Err(spec_structural_reason(structural->0))
    } else if !chain_plausible || visits(chain, snapshot.routable.this) || chain.len() == 0 {
        Err(RejectReason::BadHopChain)
    } else if chain.last().node@ != remote || !snapshot.spec_is_neighbor(
        chain.last().node@,
        chain.last().addr,
    ) {
        Err(RejectReason::NotNeighbor)
    } else {
        Ok(())
    }
}

/// Check an arriving envelope. `structural` is what structural validation
/// found, `chain_plausible` whether the hop chain is a plausible path from the
/// origin towards the destination, and `remote` the canonical id of the
/// authenticated peer.
pub fn check_arrival(
    env: &Envelope,
    structural: &Option<MsgError>,
    chain_plausible: bool,
    snapshot: &RoutableSnapshot,
    remote: &String,
) -> (r: Result<(), RejectReason>)
    ensures
        r == admission(env.hop_chain@, *structural, chain_plausible, *snapshot, remote@),
{
    match structural {
        Some(error) => return Err(structural_reason(error)),
        None => {},
    }
    if !chain_plausible || chain_visits(&env.hop_chain, &snapshot.routable.this)
        || env.hop_chain.len() == 0 {
        return Err(RejectReason::BadHopChain);
    }
    let last: &PeerRef = &env.hop_chain[env.hop_chain.len() - 1];
    if last.node != *remote || !snapshot.is_neighbor(&last.node, &last.addr) {
        return Err(RejectReason::NotNeighbor);
    }
    Ok(())
}

/// An envelope is admitted by its last hop alone. Whatever hops come before it,
/// as long as none of them is this node: where the last one is the authenticated
/// peer, and that peer at that address is this node's parent or one of its
/// children, the envelope is taken; where it is not, the sender is no neighbor.
pub proof fn law_last_hop_admits(
    env: Envelope,
    earlier: Seq<PeerRef>,
    hop: PeerRef,
    snapshot: RoutableSnapshot,
    remote: String,
    r: Result<(), RejectReason>,
)
    requires
        env.hop_chain@ == earlier.push(hop),
        forall|i: int|
            0 <= i < env.hop_chain@.len() ==> (#[trigger] env.hop_chain@[i]).node@
                != snapshot.routable.this.node@ && env.hop_chain@[i].addr
                != snapshot.routable.this.addr,
        call_ensures(check_arrival, (&env, &None::<MsgError>, true, &snapshot, &remote), r),
    ensures
        r is Ok <==> hop.node@ == remote@ && ((snapshot.routable.parent matches Some(parent)
            && endpoint::canonical(hop.node@) == Some(parent.node@) && parent.addr == hop.addr)
            || exists|k: int|
            #![trigger snapshot.routable.children@[k]]
            0 <= k < snapshot.routable.children@.len() && endpoint::canonical(hop.node@) == Some(
                snapshot.routable.children@[k].node@,
            ) && snapshot.routable.children@[k].addr == hop.addr),
        r is Err ==> r == Err::<(), RejectReason>(RejectReason::NotNeighbor),
{
    assert(env.hop_chain@[env.hop_chain@.len() - 1] == hop);
    let children = snapshot.routable.children@;
    match endpoint::canonical(hop.node@) {
        Some(id) => {
            if RoutableSnapshot::among(children, id, hop.addr) {
                let k = choose|k: int|
                    0 <= k < children.len() && #[trigger] RoutableSnapshot::names(
                        children[k],
                        id,
                        hop.addr,
                    );
                assert(children[k].addr == hop.addr);
            }
            assert forall|k: int|
                #![trigger children[k]]
                0 <= k < children.len() && id == children[k].node@ && children[k].addr
                    == hop.addr implies RoutableSnapshot::among(children, id, hop.addr) by {
                assert(RoutableSnapshot::names(children[k], id, hop.addr));
            }
        },
        None => {},
    }
}

/// An envelope that has been here already, by this node's id or by its address
/// at any place of its chain, is refused for its chain, whoever hands it over.
pub proof fn law_no_envelope_comes_twice(
    env: Envelope,
    i: int,
    plausible: bool,
    snapshot: RoutableSnapshot,
    remote: String,
    r: Result<(), RejectReason>,
)
    requires
        0 <= i < env.hop_chain@.len(),
        env.hop_chain@[i].node@ == snapshot.routable.this.node@ || env.hop_chain@[i].addr
            == snapshot.routable.this.addr,
        call_ensures(check_arrival, (&env, &None::<MsgError>, plausible, &snapshot, &remote), r),
    ensures
        r == Err::<(), RejectReason>(RejectReason::BadHopChain),
{
}

/// Where a destination lies.
#[derive(Debug)]
pub enum RouteDecision {
    /// At this node.
    Local,
    /// Behind this neighbor.
    Forward(String),
    /// Nowhere.
    Drop,
}

/// What became of an envelope offered to the local queue.
#[derive(Debug, Clone, Copy, PartialEq, Eq, Structural)]
pub enum SinkOutcome {
    /// It was queued.
    Queued,
    /// The queue is full.
    Full,
    /// The queue is closed.
    Closed,
}

/// What to do next with an envelope.
#[derive(Debug)]
pub enum HandleStep {
    /// Ask the router for the destination.
    Route,
    /// Offer the envelope to the local queue.
    Offer,
    /// Re-sign a routed control payload for `next`.
    SignForward {
        /// The next hop's node id.
        next: String,
    },
    /// Append this node to the hop chain and forward to `next`.
    AppendHop {
        /// The next hop's node id.
        next: String,
    },
    /// Dial `addr` with the lowered ttl.
    Dial {
        /// The next hop's address.
        addr: EndpointAddr,
        /// The ttl to send.
        ttl: u8,
    },
    /// Answer, and forget the replay mark where `forget` says so.
    Answer {
        /// The answer.
        status: AckStatus,
        /// Whether a retry must not be taken for a duplicate.
        forget: bool,
    },
}

/// The answers whose cause may pass: a retry may fare better.
pub open spec fn transient(status: AckStatus) -> bool {
    match status {
        AckStatus::Rejected(RejectReason::Unreachable) => true,
        AckStatus::Rejected(RejectReason::Busy) => true,
        AckStatus::Rejected(RejectReason::Internal) => true,
        _ => false,
    }
}

/// The conclusion with `status`: the replay mark goes exactly where the cause
/// is transient.
pub open spec fn concluded(status: AckStatus) -> HandleStep {
    HandleStep::Answer { status, forget: transient(status) }
}

/// Conclude with `status`. A transient refusal rolls the replay mark back, so
/// that a retry is not answered as a duplicate; every other answer keeps it.
pub fn settle(status: AckStatus) -> (r: HandleStep)
    ensures
        r == concluded(status),
{
    let forget: bool = match status {
        AckStatus::Rejected(reason) => reason == RejectReason::Unreachable || reason
            == RejectReason::Busy || reason == RejectReason::Internal,
        _ => false,
    };
    HandleStep::Answer { status, forget }
}

/// The answer to a message.
#[derive(Debug)]
pub struct Ack {
    /// The message that is answered.
    pub msg_id: MsgId,
    /// The answer.
    pub status: AckStatus,
}

/// The answer names the message.
pub open spec fn acknowledges(env: Envelope, status: AckStatus, ack: Ack) -> bool {
    ack.msg_id == env.msg_id && ack.status == status
}

/// Answer a message.
pub fn acknowledge(env: &Envelope, status: AckStatus) -> (r: Ack)
    ensures
        acknowledges(*env, status, r),
{
    Ack { msg_id: env.msg_id, status }
}

/// What follows the question to the replay set.
pub open spec fn observed(duplicate: bool) -> HandleStep {
    if duplicate {
        HandleStep::Answer { status: AckStatus::Duplicate, forget: false }
    } else {
        HandleStep::Route
    }
}

/// After the replay set was asked: a duplicate is answered as such and stays
/// marked.
pub fn after_observe(duplicate: bool) -> (r: HandleStep)
    ensures
        r == observed(duplicate),
{
    if duplicate {
        HandleStep::Answer { status: AckStatus::Duplicate, forget: false }
    } else {
        HandleStep::Route
    }
}

/// After the router was asked. Forwarding needs a ttl and room in the hop
/// chain; a routed control payload is re-signed first.
pub fn after_route(
    decision: RouteDecision,
    ttl: u8,
    hops: usize,
    control: bool,
    limits: &Limits,
) -> (r: HandleStep)
    ensures
        match decision {
            RouteDecision::Local => r == HandleStep::Offer,
            RouteDecision::Drop => r == (HandleStep::Answer {
                status: AckStatus::Rejected(RejectReason::NoRoute),
                forget: false,
            }),
            RouteDecision::Forward(next) => if ttl == 0 || hops >= limits.max_hops {
                r == (HandleStep::Answer {
                    status: AckStatus::Rejected(RejectReason::TtlExpired),
                    forget: false,
                })
            } else if control {
                r == (HandleStep::SignForward { next })
            } else {
                r == (HandleStep::AppendHop { next })
            },
        },
{
    match decision {
        RouteDecision::Local => HandleStep::Offer,
        RouteDecision::Drop => settle(AckStatus::Rejected(RejectReason::NoRoute)),
        RouteDecision::Forward(next) => {
            if ttl == 0 || hops >= limits.max_hops as usize {
                settle(AckStatus::Rejected(RejectReason::TtlExpired))
            } else if control {
                HandleStep::SignForward { next }
            } else {
                HandleStep::AppendHop { next }
            }
        },
    }
}

/// After the envelope was offered to the local queue.
pub fn after_offer(outcome: SinkOutcome) -> (r: HandleStep)
    ensures
        r == (match outcome {
            SinkOutcome::Queued => HandleStep::Answer {
                status: AckStatus::Delivered,
                forget: false,
            },
            SinkOutcome::Full => HandleStep::Answer {
                status: AckStatus::Rejected(RejectReason::Busy),
                forget: true,
            },
            SinkOutcome::Closed => HandleStep::Answer {
                status: AckStatus::Rejected(RejectReason::Internal),
                forget: true,
            },
        }),
{
    match outcome {
        SinkOutcome::Queued => settle(AckStatus::Delivered),
        SinkOutcome::Full => settle(AckStatus::Rejected(RejectReason::Busy)),
        SinkOutcome::Closed => settle(AckStatus::Rejected(RejectReason::Internal)),
    }
}

/// After a routed control payload was re-signed or refused.
pub fn after_sign(next: String, prepared: Result<(), RejectReason>) -> (r: HandleStep)
    ensures
        match prepared {
            Ok(_) => r == (HandleStep::AppendHop { next }),
            Err(reason) => r == (HandleStep::Answer {
                status: AckStatus::Rejected(reason),
                forget: transient(AckStatus::Rejected(reason)),
            }),
        },
{
    match prepared {
        Ok(_) => HandleStep::AppendHop { next },
        Err(reason) => settle(AckStatus::Rejected(reason)),
    }
}

/// After this node was appended to the hop chain. The ttl goes down by one; a
/// next hop whose id gives no address is unreachable.
pub fn after_append(
    appended: bool,
    next: &String,
    ttl: u8,
    snapshot: &RoutableSnapshot,
) -> (r: HandleStep)
    requires
        ttl > 0,
        snapshot.wf(),
    ensures
        if !appended {
            r == (HandleStep::Answer {
                status: AckStatus::Rejected(RejectReason::BadHopChain),
                forget: false,
            })
        } else {
            match endpoint::canonical(next@) {
                None => r == (HandleStep::Answer {
                    status: AckStatus::Rejected(RejectReason::Unreachable),
                    forget: true,
                }),
                Some(id) => {
                    &&& r matches HandleStep::Dial { addr, ttl: sent }
                    &&& sent == ttl - 1
                    &&& if snapshot.hints@.contains_key(id) {
                        addr@ == snapshot.hints@[id]@
                    } else {
                        addr@.node == id && addr@.transports.len() == 0
                    }
                },
            }
        },
{
    if !appended {
        return settle(AckStatus::Rejected(RejectReason::BadHopChain));
    }
    match snapshot.endpoint_addr(next) {
        Err(_) => settle(AckStatus::Rejected(RejectReason::Unreachable)),
        Ok(addr) => HandleStep::Dial { addr, ttl: ttl - 1 },
    }
}

/// After the next hop was dialed: its answer is passed on.
pub fn after_dial(answer: Option<AckStatus>) -> (r: HandleStep)
    ensures
        r == (match answer {
            Some(status) => HandleStep::Answer { status, forget: transient(status) },
            None => HandleStep::Answer {
                status: AckStatus::Rejected(RejectReason::Unreachable),
                forget: true,
            },
        }),
{
    match answer {
        Some(status) => settle(status),
        None => settle(AckStatus::Rejected(RejectReason::Unreachable)),
    }
}

/// An answer keeps its replay mark exactly when its cause is not transient, so
/// a message whose sender is told to try again is never taken for a duplicate,
/// and a delivered one always is.
pub proof fn law_replay_mark(status: AckStatus)
    ensures
        transient(status) <==> status is Rejected && (status->0 == RejectReason::Unreachable
            || status->0 == RejectReason::Busy || status->0 == RejectReason::Internal),
        !transient(AckStatus::Delivered),
        !transient(AckStatus::Duplicate),
{
}

/// The messages that a replay set has marked: origin and message id.
pub type SeenMarks = Set<(Seq<char>, MsgId)>;

/// What a message is marked by.
pub open spec fn mark_of(env: Envelope) -> (Seq<char>, MsgId) {
    (env.src.node@, env.msg_id)
}

/// A message that passed the arrival checks, at a node whose replay set holds
/// `seen`: it is observed there and answered with `ack`, and its mark is rolled
/// back where the answer says so. The set holds `after` in the end.
pub open spec fn answered(seen: SeenMarks, env: Envelope, ack: Ack, after: SeenMarks) -> bool {
    let mark = mark_of(env);
    &&& acknowledges(env, ack.status, ack)
    &&& match observed(seen.contains(mark)) {
        HandleStep::Answer { status, forget } => {
            &&& ack.status == status
            &&& after == (if forget {
                seen.remove(mark)
            } else {
                seen.insert(mark)
            })
        },
        _ => match concluded(ack.status) {
            HandleStep::Answer { status: _, forget } => after == (if forget {
                seen.insert(mark).remove(mark)
            } else {
                seen.insert(mark)
            }),
            _ => false,
        },
    }
}

/// A message is answered under its own id. One that comes a second time is a
/// duplicate, unless its first answer was a transient refusal: then nothing of it
/// is left in the replay set and it is routed again.
pub proof fn law_retry_is_duplicate_unless_transient(
    seen: SeenMarks,
    env: Envelope,
    first: Ack,
    between: SeenMarks,
    second: Ack,
    after: SeenMarks,
)
    requires
        answered(seen, env, first, between),
        answered(between, env, second, after),
    ensures
        first.msg_id == env.msg_id,
        !transient(first.status) ==> second.status == AckStatus::Duplicate && after == between,
        transient(first.status) ==> between == seen && observed(between.contains(mark_of(env)))
            == HandleStep::Route,
{
    let mark = mark_of(env);
    if transient(first.status) {
        assert(seen.insert(mark).remove(mark) =~= seen);
    } else {
        assert(between.insert(mark) =~= between);
    }
}

/// Calls `getrandom::fill` on 16 bytes. Nothing is claimed of the bytes, nor of
/// when the random source fails.
#[verifier::external_body]
fn random_id() -> (r: Result<MsgId, String>) {
    let mut id: MsgId = [0u8; 16];
    match getrandom::fill(&mut id) {
        Ok(()) => Ok(id),
        Err(err) => Err(format!("{err}")),
    }
}

/// Calls `getrandom::u64`. Nothing is claimed of the number, nor of when the
/// random source fails.
#[verifier::external_body]
fn random_u64() -> (r: Result<u64, String>) {
    match getrandom::u64() {
        Ok(nonce) => Ok(nonce),
        Err(err) => Err(format!("{err}")),
    }
}

/// The drawn number, or the time where none could be drawn.
pub fn nonce_or_clock(drawn: Result<u64, String>, now: u64) -> (r: u64)
    ensures
        r == (match drawn {
            Ok(nonce) => nonce,
            Err(_) => now,
        }),
{
    match drawn {
        Ok(nonce) => nonce,
        Err(_) => now,
    }
}

/// A fresh request nonce from the random source. Where the source fails the
/// time stands in; a collision is caught by the replay guard.
pub fn fresh_nonce(now: u64) -> (r: u64) {
    nonce_or_clock(random_u64(), now)
}

/// Why a fresh envelope is refused before any randomness is drawn.
pub open spec fn build_fault(payload_len: nat, ttl: u8, limits: Limits) -> Option<MsgError> {
    if payload_len > limits.max_payload {
        Some(MsgError::PayloadTooLarge { actual: payload_len as usize, max: limits.max_payload })
    } else if ttl > limits.max_hops {
        Some(MsgError::BadTtl { ttl })
    } else {
        None
    }
}

/// The envelope is fresh: it starts its hop chain at the origin and carries the
/// given values.
pub open spec fn is_fresh(
    env: Envelope,
    src: PeerRef,
    dst: OctAddr,
    msg_type: u16,
    payload: Seq<u8>,
    ttl: u8,
) -> bool {
    &&& env.src == src
    &&& env.dst == dst
    &&& env.msg_type == msg_type
    &&& env.payload@ == payload
    &&& env.ttl == ttl
    &&& env.hop_chain@ == seq![src]
}

/// The error for a random source that failed with `detail`.
fn no_randomness(detail: &String) -> (r: MsgError)
    ensures
        r matches MsgError::Codec(m) && m@ == "getrandom: "@ + detail@,
{
    let mut message: String = "getrandom: ".to_owned();
    message.append(detail.as_str());
    MsgError::Codec(message)
}

/// Build a fresh envelope from an id and a nonce that were drawn for it. A
/// payload or ttl above its bound is refused first.
pub fn envelope_with(
    src: &PeerRef,
    dst: OctAddr,
    msg_type: u16,
    payload: Vec<u8>,
    ttl: u8,
    limits: &Limits,
    id: Result<MsgId, String>,
    nonce: Result<u64, String>,
) -> (r: Result<Envelope, MsgError>)
    ensures
        match build_fault(payload@.len(), ttl, *limits) {
            Some(fault) => r == Err::<Envelope, MsgError>(fault),
            None => match (id, nonce) {
                (Err(detail), _) => r matches Err(MsgError::Codec(m)) && m@ == "getrandom: "@
                    + detail@,
                (Ok(_), Err(detail)) => r matches Err(MsgError::Codec(m)) && m@ == "getrandom: "@
                    + detail@,
                (Ok(i), Ok(n)) => r matches Ok(env) && is_fresh(
                    env,
                    *src,
                    dst,
                    msg_type,
                    payload@,
                    ttl,
                ) && env.msg_id == i && env.nonce == n,
            },
        },
{
    if payload.len() > limits.max_payload {
        return Err(
            MsgError::PayloadTooLarge { actual: payload.len(), max: limits.max_payload },
        );
    }
    if ttl > limits.max_hops {
        return Err(MsgError::BadTtl { ttl });
    }
    let msg_id: MsgId = match id {
        Ok(id) => id,
        Err(detail) => return Err(no_randomness(&detail)),
    };
    let nonce: u64 = match nonce {
        Ok(nonce) => nonce,
        Err(detail) => return Err(no_randomness(&detail)),
    };
    let mut hop_chain: Vec<PeerRef> = Vec::new();
    hop_chain.push(src.copied());
    assert(hop_chain@ =~= seq![*src]);
    Ok(Envelope { src: src.copied(), dst, msg_id, msg_type, nonce, payload, ttl, hop_chain })
}

/// Build a fresh envelope with a random id and nonce.
pub fn build_envelope(
    src: &PeerRef,
    dst: OctAddr,
    msg_type: u16,
    payload: Vec<u8>,
    ttl: u8,
    limits: &Limits,
) -> (r: Result<Envelope, MsgError>)
    ensures
        match build_fault(payload@.len(), ttl, *limits) {
            Some(fault) => r == Err::<Envelope, MsgError>(fault),
            None => match r {
                Ok(env) => is_fresh(env, *src, dst, msg_type, payload@, ttl),
                Err(e) => e is Codec,
            },
        },
{
    envelope_with(src, dst, msg_type, payload, ttl, limits, random_id(), random_u64())
}

/// Errors raised while sending an envelope from its origin.
#[derive(Debug)]
pub enum MsgSendError {
    /// The envelope is malformed.
    InvalidEnvelope(MsgError),
    /// There is no route.
    NoRoute,
    /// The next hop has no address.
    NextHopUnreachable {
        /// The next hop.
        node: String,
        /// Why.
        detail: String,
    },
}

/// What sending an envelope from its origin takes.
#[derive(Debug)]
pub enum SendStep {
    /// The destination is this node: nothing is sent, the answer is delivered.
    Local,
    /// Dial this neighbor.
    Dial {
        /// Its node id.
        node: String,
        /// Its address.
        addr: EndpointAddr,
    },
}

/// Decide how to send an envelope from its origin. The origin already heads the
/// hop chain and is not appended again.
pub fn send_envelope(
    structural: Option<MsgError>,
    decision: RouteDecision,
    snapshot: &RoutableSnapshot,
) -> (r: Result<SendStep, MsgSendError>)
    requires
        snapshot.wf(),
    ensures
        match structural {
            Some(error) => r == Err::<SendStep, MsgSendError>(MsgSendError::InvalidEnvelope(error)),
            None => match decision {
                RouteDecision::Local => r == Ok::<SendStep, MsgSendError>(SendStep::Local),
                RouteDecision::Drop => r == Err::<SendStep, MsgSendError>(MsgSendError::NoRoute),
                RouteDecision::Forward(next) => match endpoint::canonical(next@) {
                    Some(id) => {
                        &&& r matches Ok(SendStep::Dial { node, addr })
                        &&& node == next
                        &&& if snapshot.hints@.contains_key(id) {
                            addr@ == snapshot.hints@[id]@
                        } else {
                            addr@.node == id && addr@.transports.len() == 0
                        }
                    },
                    None => {
                        &&& r matches Err(MsgSendError::NextHopUnreachable { node, detail })
                        &&& node == next
                        &&& detail@ == "neighbor id '"@ + next@ + "' is not an iroh EndpointId: "@
                            + endpoint::endpoint_key(next@)->Err_0
                    },
                },
            },
        },
{
    match structural {
        Some(error) => return Err(MsgSendError::InvalidEnvelope(error)),
        None => {},
    }
    match decision {
        RouteDecision::Local => Ok(SendStep::Local),
        RouteDecision::Drop => Err(MsgSendError::NoRoute),
        RouteDecision::Forward(next) => match snapshot.endpoint_addr(&next) {
            Ok(addr) => Ok(SendStep::Dial { node: next, addr }),
            Err(error) => Err(
                MsgSendError::NextHopUnreachable { node: next, detail: error.text() },
            ),
        },
    }
}

/// A control request on its way through the tree, as far as a relay reads it.
#[derive(Debug)]
pub struct RoutedControl {
    /// The node it is meant for.
    pub target: PeerRef,
    /// The node it comes from.
    pub requester: PeerRef,
    /// The hops that signed it, in path order.
    pub forwards: Vec<PeerRef>,
    /// Unix seconds after which the intent is void.
    pub expiry: u64,
    /// Whether version, bounds and per-forward coherence hold.
    pub valid: bool,
}

/// The signed hops mirror the hop chain one to one.
pub open spec fn mirrors(forwards: Seq<PeerRef>, chain: Seq<PeerRef>) -> bool {
    &&& forwards.len() == chain.len()
    &&& forall|i: int| 0 <= i < chain.len() ==> (#[trigger] forwards[i]).same_peer(chain[i])
}

/// Whether the signed hops mirror the hop chain one to one.
pub fn forwards_mirror(forwards: &Vec<PeerRef>, chain: &Vec<PeerRef>) -> (r: bool)
    ensures
        r == mirrors(forwards@, chain@),
{
    if forwards.len() != chain.len() {
        return false;
    }
    let mut i: usize = 0;
    while i < chain.len()
        invariant
            i <= chain@.len(),
            forwards@.len() == chain@.len(),
            forall|j: int| 0 <= j < i ==> (#[trigger] forwards@[j]).same_peer(chain@[j]),
        decreases chain@.len() - i,
    {
        if !forwards[i].same(&chain[i]) {
            return false;
        }
        i = i + 1;
    }
    true
}

/// What a relay does with a control payload.
#[derive(Debug, Clone, Copy, PartialEq, Eq, Structural)]
pub enum ControlForward {
    /// Verify the last forward and append one of its own.
    Sign,
    /// Pass a reply on unchanged.
    PassOn,
    /// Refuse.
    Refuse(RejectReason),
}

/// The request names this envelope's ends.
pub open spec fn names_envelope(routed: RoutedControl, env: Envelope) -> bool {
    routed.target.addr == env.dst && routed.requester.same_peer(env.src)
}

/// What a relay does with a control payload: a request that names the
/// envelope's ends is checked and signed, a reply by the envelope's origin is
/// passed on, anything else is refused.
pub open spec fn control_forward(
    env: Envelope,
    limits: Limits,
    has_engine: bool,
    request: Option<RoutedControl>,
    responder: Option<String>,
    now: u64,
) -> ControlForward {
    if env.payload@.len() > limits.max_control_frame {
        ControlForward::Refuse(RejectReason::BadPayload)
    } else if !has_engine {
        ControlForward::Refuse(RejectReason::NoRoute)
    } else if request is Some && names_envelope(request->0, env) {
        if !request->0.valid || !mirrors(request->0.forwards@, env.hop_chain@) {
            ControlForward::Refuse(RejectReason::BadPayload)
        } else if request->0.expiry < now {
            ControlForward::Refuse(RejectReason::TtlExpired)
        } else if request->0.forwards@.len() == 0 {
            ControlForward::Refuse(RejectReason::BadPayload)
        } else {
            ControlForward::Sign
        }
    } else if responder is Some && responder->0@ == env.src.node@ {
        ControlForward::PassOn
    } else {
        ControlForward::Refuse(RejectReason::NoRoute)
    }
}

/// Decide what a relay does with a control payload. `request` is the payload
/// decoded as a request and `responder` the node of the payload decoded as a
/// reply, where either decodes.
pub fn prepare_control_forward(
    env: &Envelope,
    limits: &Limits,
    has_engine: bool,
    request: &Option<RoutedControl>,
    responder: &Option<String>,
    now: u64,
) -> (r: ControlForward)
    ensures
        r == control_forward(*env, *limits, has_engine, *request, *responder, now),
{
    if env.payload.len() > limits.max_control_frame {
        return ControlForward::Refuse(RejectReason::BadPayload);
    }
    if !has_engine {
        return ControlForward::Refuse(RejectReason::NoRoute);
    }
    match request {
        Some(routed) => {
            if routed.target.addr.same(&env.dst) && routed.requester.same(&env.src) {
                if !routed.valid || !forwards_mirror(&routed.forwards, &env.hop_chain) {
                    return ControlForward::Refuse(RejectReason::BadPayload);
                }
                if routed.expiry < now {
                    return ControlForward::Refuse(RejectReason::TtlExpired);
                }
                if routed.forwards.len() == 0 {
                    return ControlForward::Refuse(RejectReason::BadPayload);
                }
                return ControlForward::Sign;
            }
        },
        None => {},
    }
    match responder {
        Some(node) => {
            if *node == env.src.node {
                return ControlForward::PassOn;
            }
        },
        None => {},
    }
    ControlForward::Refuse(RejectReason::NoRoute)
}

/// Conclude the signing of a forward: the predecessor must have verified, this
/// hop must have signed, and the payload must have been encoded.
pub fn control_forward_signed(verified: bool, signed: bool, encoded: bool) -> (r: Result<
    (),
    RejectReason,
>)
    ensures
        r == (if verified && signed && encoded {
            Ok::<(), RejectReason>(())
        } else {
            Err::<(), RejectReason>(RejectReason::BadPayload)
        }),
{
    if verified && signed && encoded {
        Ok(())
    } else {
        Err(RejectReason::BadPayload)
    }
}

/// What a routed control request comes to at its destination.
#[derive(Debug)]
pub enum ControlDispatch {
    /// Nothing: there is no authenticated last hop.
    Ignore,
    /// It does not agree with its envelope and is refused as unauthorised.
    RefuseUnauthorized,
    /// Hand it to the control engine as sent by this peer.
    Receive {
        /// The canonical id of the authenticated last hop.
        remote: String,
    },
}

/// Check a routed control request against its envelope at the destination.
pub fn dispatch_control_envelope(env: &Envelope, routed: &RoutedControl) -> (r: ControlDispatch)
    ensures
        if env.hop_chain@.len() == 0 || endpoint::canonical(env.hop_chain@.last().node@) is None {
            r == ControlDispatch::Ignore
        } else if !(names_envelope(*routed, *env) && mirrors(
            routed.forwards@,
            env.hop_chain@,
        )) {
            r == ControlDispatch::RefuseUnauthorized
        } else {
            r matches ControlDispatch::Receive { remote } && endpoint::canonical(
                env.hop_chain@.last().node@,
            ) == Some(remote@)
        },
{
    if env.hop_chain.len() == 0 {
        return ControlDispatch::Ignore;
    }
    let last: &PeerRef = &env.hop_chain[env.hop_chain.len() - 1];
    let remote: String = match endpoint::parse_endpoint_id(&last.node) {
        Ok(remote) => remote,
        Err(_) => return ControlDispatch::Ignore,
    };
    if routed.target.addr.same(&env.dst) && routed.requester.same(&env.src) && forwards_mirror(
        &routed.forwards,
        &env.hop_chain,
    ) {
        ControlDispatch::Receive { remote }
    } else {
        ControlDispatch::RefuseUnauthorized
    }
}

/// Whatever step answers a message, its replay mark is rolled back exactly where
/// the sender is told of something that may pass: the next hop cannot be reached,
/// the queue is full, or something failed here.
pub proof fn law_every_answer_keeps_or_drops_its_mark(
    decision: RouteDecision,
    ttl: u8,
    hops: usize,
    control: bool,
    limits: Limits,
    outcome: SinkOutcome,
    next: String,
    prepared: Result<(), RejectReason>,
    dialed: Option<AckStatus>,
    duplicate: bool,
    appended: bool,
    snapshot: RoutableSnapshot,
    routed: HandleStep,
    offered: HandleStep,
    signed: HandleStep,
    told: HandleStep,
    seen: HandleStep,
    grown: HandleStep,
    step: HandleStep,
)
    requires
        ttl > 0,
        snapshot.wf(),
        call_ensures(after_route, (decision, ttl, hops, control, &limits), routed),
        call_ensures(after_offer, (outcome,), offered),
        call_ensures(after_sign, (next, prepared), signed),
        call_ensures(after_dial, (dialed,), told),
        call_ensures(after_observe, (duplicate,), seen),
        call_ensures(after_append, (appended, &next, ttl, &snapshot), grown),
        step == routed || step == offered || step == signed || step == told || step == seen || step
            == grown,
    ensures
        step matches HandleStep::Answer { status, forget } ==> (forget <==> status
            == AckStatus::Rejected(RejectReason::Unreachable) || status == AckStatus::Rejected(
            RejectReason::Busy,
        ) || status == AckStatus::Rejected(RejectReason::Internal)),
{
}

/// A message for this node is offered here and goes nowhere else; one for nobody
/// is refused; one for a neighbor is passed on while it has forwards left and its
/// chain has room, over that neighbor, and a control payload only once it is
/// signed.
pub proof fn law_routing_goes_by_the_decision(
    next: String,
    ttl: u8,
    hops: usize,
    limits: Limits,
    here: HandleStep,
    nowhere: HandleStep,
    plain: HandleStep,
    control: HandleStep,
    any: bool,
)
    requires
        call_ensures(after_route, (RouteDecision::Local, ttl, hops, any, &limits), here),
        call_ensures(after_route, (RouteDecision::Drop, ttl, hops, any, &limits), nowhere),
        call_ensures(after_route, (RouteDecision::Forward(next), ttl, hops, false, &limits), plain),
        call_ensures(
            after_route,
            (RouteDecision::Forward(next), ttl, hops, true, &limits),
            control,
        ),
    ensures
        here == HandleStep::Offer,
        nowhere matches HandleStep::Answer { status, forget } && status == AckStatus::Rejected(
            RejectReason::NoRoute,
        ),
        ttl >= 1 && hops < limits.max_hops ==> plain == (HandleStep::AppendHop { next }) && control
            == (HandleStep::SignForward { next }),
        ttl == 0 || hops >= limits.max_hops ==> plain == control && (
        plain matches HandleStep::Answer { status, forget } && status == AckStatus::Rejected(
            RejectReason::TtlExpired,
        )),
{
}

/// Passing a message on costs one forward. It goes to the next hop itself: by the
/// address that is known for that node, or by its bare id; never to another node.
pub proof fn law_forwarding_lowers_the_ttl(
    next: String,
    ttl: u8,
    snapshot: RoutableSnapshot,
    r: HandleStep,
)
    requires
        ttl > 0,
        snapshot.wf(),
        call_ensures(after_append, (true, &next, ttl, &snapshot), r),
    ensures
        r matches HandleStep::Dial { addr, ttl: sent } ==> {
            &&& sent + 1 == ttl
            &&& endpoint::canonical(next@) matches Some(id)
            &&& !snapshot.hints@.contains_key(id) ==> addr.node@ == id && addr.transports@.len()
                == 0
            &&& snapshot.hints@.contains_key(id) ==> addr.node@ == snapshot.hints@[id].node@
                && addr.transports@ == snapshot.hints@[id].transports@
        },
        endpoint::canonical(next@) is Some <==> r is Dial,
{
}

/// The answer of the next hop is the answer of this one.
pub proof fn law_answers_are_passed_back(status: AckStatus, r: HandleStep, none: HandleStep)
    requires
        call_ensures(after_dial, (Some(status),), r),
        call_ensures(after_dial, (None::<AckStatus>,), none),
    ensures
        r matches HandleStep::Answer { status: told, forget } && told == status,
        none matches HandleStep::Answer { status: told, forget } && told == AckStatus::Rejected(
            RejectReason::Unreachable,
        ),
{
}

/// A fresh envelope carries what it was given: from its sender, to its
/// destination, of its type, with its payload and forwards, under the id and the
/// nonce that were drawn; its sender is the first and only hop.
pub proof fn law_fresh_envelopes_start_at_their_sender(
    src: PeerRef,
    dst: OctAddr,
    msg_type: u16,
    payload: Vec<u8>,
    ttl: u8,
    limits: Limits,
    id: MsgId,
    nonce: u64,
    r: Result<Envelope, MsgError>,
)
    requires
        call_ensures(
            envelope_with,
            (&src, dst, msg_type, payload, ttl, &limits, Ok::<MsgId, String>(id), Ok::<u64, String>(
                nonce,
            )),
            r,
        ),
    ensures
        r is Ok <==> payload@.len() <= limits.max_payload && ttl <= limits.max_hops,
        r matches Ok(env) ==> {
            &&& env.src == src
            &&& env.dst == dst
            &&& env.msg_type == msg_type
            &&& env.payload@ == payload@
            &&& env.ttl == ttl
            &&& env.msg_id == id
            &&& env.nonce == nonce
            &&& env.hop_chain@.len() == 1
            &&& env.hop_chain@[0] == src
        },
        payload@.len() > limits.max_payload ==> r == Err::<Envelope, MsgError>(
            MsgError::PayloadTooLarge { actual: payload@.len() as usize, max: limits.max_payload },
        ),
        payload@.len() <= limits.max_payload && ttl > limits.max_hops ==> r == Err::<
            Envelope,
            MsgError,
        >(MsgError::BadTtl { ttl }),
{
}

/// Sending from the origin dials the neighbor that the route names and no other;
/// a message to itself is not sent, one to nobody is refused, and a malformed one
/// is refused whatever its route.
pub proof fn law_sending_follows_the_route(
    next: String,
    snapshot: RoutableSnapshot,
    error: MsgError,
    decision: RouteDecision,
    local: Result<SendStep, MsgSendError>,
    dropped: Result<SendStep, MsgSendError>,
    sent: Result<SendStep, MsgSendError>,
    bad: Result<SendStep, MsgSendError>,
)
    requires
        snapshot.wf(),
        call_ensures(send_envelope, (None::<MsgError>, RouteDecision::Local, &snapshot), local),
        call_ensures(send_envelope, (None::<MsgError>, RouteDecision::Drop, &snapshot), dropped),
        call_ensures(
            send_envelope,
            (None::<MsgError>, RouteDecision::Forward(next), &snapshot),
            sent,
        ),
        call_ensures(send_envelope, (Some(error), decision, &snapshot), bad),
    ensures
        local matches Ok(step) && step is Local,
        dropped matches Err(e) && e is NoRoute,
        bad matches Err(e) && e == MsgSendError::InvalidEnvelope(error),
        sent is Ok <==> endpoint::canonical(next@) is Some,
        sent matches Ok(step) ==> (step matches SendStep::Dial { node, addr } && node == next && (
        addr.node@ == endpoint::canonical(next@)->0 || snapshot.hints@.contains_key(
            endpoint::canonical(next@)->0,
        ) && addr.node@ == snapshot.hints@[endpoint::canonical(next@)->0].node@)),
        sent matches Err(e) ==> (e matches MsgSendError::NextHopUnreachable { node, detail } && node
            == next),
{
}

/// A control request that a relay signs is one that its destination will hear:
/// after any number of relays have each put themselves behind the chain and behind
/// the signed hops, the destination of the envelope takes the request as handed
/// over by the last of them. A request that does not name the envelope's own ends,
/// or whose signed hops are not its chain, is neither signed nor heard.
pub proof fn law_signed_requests_are_heard(
    env: Envelope,
    limits: Limits,
    routed: RoutedControl,
    now: u64,
    relay: PeerRef,
    arrived: Envelope,
    carried: RoutedControl,
    at_relay: ControlForward,
    at_end: ControlDispatch,
)
    requires
        call_ensures(
            prepare_control_forward,
            (&env, &limits, true, &Some(routed), &None::<String>, now),
            at_relay,
        ),
        arrived.src == env.src,
        arrived.dst == env.dst,
        arrived.hop_chain@ == env.hop_chain@.push(relay),
        carried.target == routed.target,
        carried.requester == routed.requester,
        carried.forwards@ == routed.forwards@.push(relay),
        endpoint::canonical(relay.node@) is Some,
        call_ensures(dispatch_control_envelope, (&arrived, &carried), at_end),
    ensures
        at_relay == ControlForward::Sign ==> (at_end matches ControlDispatch::Receive { remote }
            && Some(remote@) == endpoint::canonical(relay.node@)),
        at_relay == ControlForward::Sign ==> now <= routed.expiry && routed.valid
            && env.payload@.len() <= limits.max_control_frame,
        routed.target.addr != env.dst || routed.requester.node@ != env.src.node@
            || routed.requester.addr != env.src.addr ==> at_relay is Refuse && at_end
            == ControlDispatch::RefuseUnauthorized,
        routed.forwards@.len() != env.hop_chain@.len() ==> at_relay is Refuse && at_end
            == ControlDispatch::RefuseUnauthorized,
{
    let chain = arrived.hop_chain@;
    let forwards = carried.forwards@;
    if mirrors(routed.forwards@, env.hop_chain@) {
        assert forall|i: int| 0 <= i < chain.len() implies (#[trigger] forwards[i]).same_peer(
            chain[i],
        ) by {
            if i < env.hop_chain@.len() {
                assert(routed.forwards@[i].same_peer(env.hop_chain@[i]));
            }
        }
    }
    if routed.forwards@.len() == env.hop_chain@.len() && mirrors(forwards, chain) {
        assert forall|i: int| 0 <= i < env.hop_chain@.len() implies (
        #[trigger] routed.forwards@[i]).same_peer(env.hop_chain@[i]) by {
            assert(forwards[i].same_peer(chain[i]));
        }
    }
}

/// A request that some hop did not sign as it is named in the chain is refused
/// by every relay and at its end, at whatever place of the chain.
pub proof fn law_one_false_hop_spoils_the_request(
    env: Envelope,
    limits: Limits,
    routed: RoutedControl,
    now: u64,
    i: int,
    at_relay: ControlForward,
    at_end: ControlDispatch,
)
    requires
        0 <= i < env.hop_chain@.len(),
        i < routed.forwards@.len(),
        routed.forwards@[i].node@ != env.hop_chain@[i].node@ || routed.forwards@[i].addr
            != env.hop_chain@[i].addr,
        endpoint::canonical(env.hop_chain@.last().node@) is Some,
        call_ensures(
            prepare_control_forward,
            (&env, &limits, true, &Some(routed), &None::<String>, now),
            at_relay,
        ),
        call_ensures(dispatch_control_envelope, (&env, &routed), at_end),
    ensures
        at_relay is Refuse,
        at_end == ControlDispatch::RefuseUnauthorized,
{
    if mirrors(routed.forwards@, env.hop_chain@) {
        assert(routed.forwards@[i].same_peer(env.hop_chain@[i]));
    }
}

/// A reply is passed on unchanged exactly where the envelope comes from the node
/// that replies.
pub proof fn law_replies_come_from_the_responder(
    env: Envelope,
    limits: Limits,
    responder: String,
    now: u64,
    r: ControlForward,
)
    requires
        env.payload@.len() <= limits.max_control_frame,
        call_ensures(
            prepare_control_forward,
            (&env, &limits, true, &None::<RoutedControl>, &Some(responder), now),
            r,
        ),
    ensures
        r == ControlForward::PassOn <==> responder@ == env.src.node@,
        r != ControlForward::PassOn ==> r == ControlForward::Refuse(RejectReason::NoRoute),
{
}

/// A malformed message is refused for what is wrong with it: its version, its time
/// to live, its path, or else its payload; only what cannot be read at all is
/// internal.
pub proof fn law_malformed_messages_are_refused_for_cause(error: MsgError, r: RejectReason)
    requires
        call_ensures(structural_reason, (&error,), r),
    ensures
        r is BadVersion <==> error is UnsupportedVersion,
        r is TtlExpired <==> error is BadTtl,
        r is BadHopChain <==> error is HopChain,
        r is Internal <==> error is Codec,
        r is BadPayload <==> error is PayloadTooLarge || error is NodeIdTooLong || error
            is InvalidEntryProof,
{
}

/// A path visits a node by its id or by its address, at whatever hop.
pub proof fn law_paths_visit_by_id_or_address(
    chain: Vec<PeerRef>,
    this: PeerRef,
    r: bool,
    i: int,
)
    requires
        call_ensures(chain_visits, (&chain, &this), r),
    ensures
        0 <= i < chain@.len() && (chain@[i].node@ == this.node@ || chain@[i].addr == this.addr)
            ==> r,
        r ==> exists|k: int| #![trigger chain@[k]]
            0 <= k < chain@.len() && (chain@[k].node@ == this.node@ || chain@[k].addr
                == this.addr),
{
}

/// Signed hops mirror a path where they are as many, and the same peers in the same
/// places.
pub proof fn law_signed_hops_mirror_the_path(
    forwards: Vec<PeerRef>,
    chain: Vec<PeerRef>,
    r: bool,
    i: int,
)
    requires
        call_ensures(forwards_mirror, (&forwards, &chain), r),
    ensures
        r ==> forwards@.len() == chain@.len(),
        r && 0 <= i < chain@.len() ==> forwards@[i].node@ == chain@[i].node@ && forwards@[i].addr
            == chain@[i].addr,
        forwards@ == chain@ ==> r,
{
}

/// An acknowledgement names the message it answers. A forward goes on only where it
/// was verified, signed and written. A nonce is what was drawn, and the clock only
/// where nothing was.
pub proof fn law_small_answers(
    env: Envelope,
    status: AckStatus,
    ack: Ack,
    step: HandleStep,
    verified: bool,
    signed: bool,
    encoded: bool,
    forward: Result<(), RejectReason>,
    drawn: Result<u64, String>,
    now: u64,
    nonce: u64,
    limits: Limits,
    config: MsgConfig,
)
    requires
        call_ensures(acknowledge, (&env, status), ack),
        call_ensures(settle, (status,), step),
        call_ensures(control_forward_signed, (verified, signed, encoded), forward),
        call_ensures(nonce_or_clock, (drawn, now), nonce),
        call_ensures(MsgConfig::for_limits, (&limits,), config),
    ensures
        ack.msg_id == env.msg_id,
        ack.status == status,
        step matches HandleStep::Answer { status: told, forget } && told == status && (forget
            <==> status == AckStatus::Rejected(RejectReason::Unreachable) || status
            == AckStatus::Rejected(RejectReason::Busy) || status == AckStatus::Rejected(
            RejectReason::Internal,
        )),
        forward is Ok <==> verified && signed && encoded,
        forward matches Err(why) ==> why is BadPayload,
        drawn matches Ok(value) ==> nonce == value,
        drawn is Err ==> nonce == now,
        config.ttl == limits.max_hops,
        config.max_payload == limits.max_payload,
{
}

/// An envelope is built as it was asked for, from its sender on, or not at all: a
/// payload or a time to live over the limit is refused whatever was drawn, and
/// within them only the drawing can fail.
pub proof fn law_envelopes_are_built_as_asked(
    src: PeerRef,
    dst: OctAddr,
    msg_type: u16,
    payload: Vec<u8>,
    ttl: u8,
    limits: Limits,
    r: Result<Envelope, MsgError>,
)
    requires
        call_ensures(build_envelope, (&src, dst, msg_type, payload, ttl, &limits), r),
    ensures
        payload@.len() > limits.max_payload ==> r is Err && r->Err_0 is PayloadTooLarge,
        payload@.len() <= limits.max_payload && ttl > limits.max_hops ==> r == Err::<
            Envelope,
            MsgError,
        >(MsgError::BadTtl { ttl }),
        payload@.len() <= limits.max_payload && ttl <= limits.max_hops && r is Err ==> r->Err_0
            is Codec,
        r matches Ok(env) ==> {
            &&& env.src == src
            &&& env.dst == dst
            &&& env.msg_type == msg_type
            &&& env.payload@ == payload@
            &&& env.ttl == ttl
            &&& env.hop_chain@.len() == 1
            &&& env.hop_chain@[0] == src
        },
{
}

} // verus!
