//! Control that is routed through the tree.
//!
//! Every hop on the way signs the request anew. At the destination the
//! authenticated last hop has authority, the signed intent has it where it is
//! addressed to this node, and a carried grant is evidence only.
use crate::admin_store;
use crate::admin_store::{AdminScope, SignedAdminGrant};
use crate::control;
use crate::control::{Authority, ControlLimits, ControlNode, Verdicts};
use crate::control_msg;
use crate::control_msg::{ControlError, ControlReply, RejectCode, SignedControl};
use crate::endpoint;
use crate::record;
use crate::routing::{EndpointAddr, Transport};
use crate::text;
use crate::wire::{MsgId, PeerRef};
use vstd::prelude::*;

verus! {

/// One hop's signature on a routed request.
#[derive(Debug)]
pub struct RoutedForward {
    /// The hop.
    pub hop: PeerRef,
    /// The request as the hop signed it.
    pub signed: SignedControl,
}

/// A routed request.
#[derive(Debug)]
pub struct RoutedControlV1 {
    /// The node it is meant for.
    pub target: PeerRef,
    /// The node it comes from.
    pub requester: PeerRef,
    /// The request as its author signed it.
    pub intent: SignedControl,
    /// The hops that signed it, in path order.
    pub forwards: Vec<RoutedForward>,
    /// A grant that the author shows.
    pub grant: Option<SignedAdminGrant>,
}

/// What the cryptography, the registry and the structural checks say of a
/// routed request.
#[derive(Debug)]
pub struct RoutedVerdicts {
    /// Version, bounds and per-forward coherence hold.
    pub valid: bool,
    /// The intent's signature holds under its controller's key.
    pub intent_signature: bool,
    /// What is known of the last forward.
    pub last: Verdicts,
}

/// What a routed request comes to.
#[derive(Debug, Clone, Copy, PartialEq, Eq, Structural)]
pub enum RoutedStep {
    /// It is refused.
    Refuse(RejectCode),
    /// It belongs to the join handshake, which is never routed: note it and
    /// refuse it as unauthorised.
    RefuseJoin,
    /// Handle the intent as a direct request. A carried grant that the store
    /// does not back is noted.
    DispatchIntent {
        /// Whether a carried grant is not backed.
        grant_unbacked: bool,
    },
    /// Handle the last hop's own request as a direct one.
    DispatchForward,
}

/// The forward is signed by the operator that the registry knows for the hop.
pub open spec fn forward_fault(
    forward: RoutedForward,
    registration: Option<ControlError>,
) -> Option<RejectCode> {
    match registration {
        Some(err) => Some(control_msg::control_code(err)),
        None => if forward.hop.node@ != forward.signed.origin@ {
            Some(RejectCode::Unauthorized)
        } else {
            None
        },
    }
}

/// Verify one forward. `registration` says why the registry does not know its
/// controller as its origin's operator, none when it does.
pub fn verify_forward(forward: &RoutedForward, registration: &Option<ControlError>) -> (r: Result<
    (),
    RejectCode,
>)
    ensures
        r == (match forward_fault(*forward, *registration) {
            Some(code) => Err::<(), RejectCode>(code),
            None => Ok(()),
        }),
{
    match registration {
        Some(err) => return Err(control_msg::map_control_error(err)),
        None => {},
    }
    if forward.hop.node != forward.signed.origin {
        return Err(RejectCode::Unauthorized);
    }
    Ok(())
}

/// A carried grant is well formed, of this node's operator, for this node and
/// for the intent's controller.
pub open spec fn grant_holds(
    pre: control::ControlState,
    grant: SignedAdminGrant,
    intent: SignedControl,
) -> bool {
    &&& grant.fault is None
    &&& grant.spec_verifies(pre.operator)
    &&& grant.grant.node@ == pre.node_id
    &&& grant.grant.admin == intent.controller
}

/// The controller has an active grant in the store.
pub open spec fn has_active(
    pre: control::ControlState,
    controller: crate::wire::OperatorPubKey,
    now: u64,
) -> bool {
    exists|scope: AdminScope| #[trigger]
        admin_store::is_active(pre.admins, controller, now, scope)
}

/// What a routed request comes to at its destination, check by check.
pub open spec fn spec_routed(
    pre: control::ControlState,
    routed: RoutedControlV1,
    remote: Seq<char>,
    limits: ControlLimits,
    now: u64,
    verdicts: RoutedVerdicts,
) -> RoutedStep {
    let last = routed.forwards@.last();
    if !verdicts.valid || routed.target.node@ != pre.node_id || pre.record.address != Some(
        routed.target.addr,
    ) || !verdicts.intent_signature {
        RoutedStep::Refuse(RejectCode::Unauthorized)
    } else if now > routed.intent.expiry {
        RoutedStep::Refuse(RejectCode::Expired)
    } else if routed.intent.expiry > now + limits.max_ttl {
        RoutedStep::Refuse(RejectCode::BadRequest)
    } else if routed.forwards@.len() == 0 || last.hop.node@ != remote || forward_fault(
        last,
        verdicts.last.registration,
    ) is Some {
        RoutedStep::Refuse(RejectCode::Unauthorized)
    } else if routed.intent.request.spec_is_join() {
        RoutedStep::RefuseJoin
    } else if routed.intent.request.spec_is_admin() {
        match routed.grant {
            None => RoutedStep::DispatchIntent { grant_unbacked: false },
            Some(grant) => if !grant_holds(pre, grant, routed.intent) {
                RoutedStep::Refuse(RejectCode::Unauthorized)
            } else {
                RoutedStep::DispatchIntent {
                    grant_unbacked: !has_active(pre, routed.intent.controller, now),
                }
            },
        }
    } else if routed.intent.origin@ == pre.node_id && routed.intent.controller == pre.operator {
        RoutedStep::DispatchIntent { grant_unbacked: false }
    } else if pre.authority(last.signed, verdicts.last) == Ok::<Authority, RejectCode>(
        Authority::Peer,
    ) {
        RoutedStep::DispatchForward
    } else {
        RoutedStep::Refuse(RejectCode::Unauthorized)
    }
}

/// Decide what a routed request comes to at its destination. `remote` is the id
/// of the authenticated last hop.
pub fn receive_routed_at(
    node: &ControlNode,
    routed: &RoutedControlV1,
    remote: &String,
    limits: &ControlLimits,
    now: u64,
    verdicts: &RoutedVerdicts,
) -> (r: RoutedStep)
    requires
        node.wf(),
    ensures
        r == spec_routed(node@, *routed, remote@, *limits, now, *verdicts),
{
    if !verdicts.valid || routed.target.node != *node.node_id() {
        return RoutedStep::Refuse(RejectCode::Unauthorized);
    }
    let here: bool = match &node.record().address {
        Some(address) => address.same(&routed.target.addr),
        None => false,
    };
    if !here || !verdicts.intent_signature {
        return RoutedStep::Refuse(RejectCode::Unauthorized);
    }
    if now > routed.intent.expiry {
        return RoutedStep::Refuse(RejectCode::Expired);
    }
    if routed.intent.expiry > now.saturating_add(limits.max_ttl) {
        return RoutedStep::Refuse(RejectCode::BadRequest);
    }
    if routed.forwards.len() == 0 {
        return RoutedStep::Refuse(RejectCode::Unauthorized);
    }
    let last: &RoutedForward = &routed.forwards[routed.forwards.len() - 1];
    if last.hop.node != *remote || verify_forward(last, &verdicts.last.registration).is_err() {
        return RoutedStep::Refuse(RejectCode::Unauthorized);
    }
    if routed.intent.request.is_join() {
        return RoutedStep::RefuseJoin;
    }
    if routed.intent.request.is_admin() {
        return match &routed.grant {
            None => RoutedStep::DispatchIntent { grant_unbacked: false },
            Some(grant) => {
                if grant.fault.is_some() || !grant.verifies(&node.operator_public())
                    || grant.grant.node != *node.node_id() || !text::same32(
                    &grant.grant.admin,
                    &routed.intent.controller,
                ) {
                    RoutedStep::Refuse(RejectCode::Unauthorized)
                } else {
                    let active: Option<AdminScope> = node.admins().active_scope(
                        &routed.intent.controller,
                        now,
                    );
                    proof {
                        if active is Some {
                            assert(admin_store::is_active(
                                node@.admins,
                                routed.intent.controller,
                                now,
                                active->0,
                            ));
                        }
                    }
                    RoutedStep::DispatchIntent { grant_unbacked: active.is_none() }
                }
            },
        };
    }
    if routed.intent.origin == *node.node_id() && text::same32(
        &routed.intent.controller,
        &node.operator_public(),
    ) {
        return RoutedStep::DispatchIntent { grant_unbacked: false };
    }
    match node.authorize(&last.signed, &verdicts.last) {
        Ok(Authority::Peer) => RoutedStep::DispatchForward,
        _ => RoutedStep::Refuse(RejectCode::Unauthorized),
    }
}

/// A carried grant never gives authority of its own: what is dispatched is the
/// same with the grant and without it, and the store decides.
pub proof fn law_carried_grants_give_no_authority(
    pre: control::ControlState,
    routed: RoutedControlV1,
    bare: RoutedControlV1,
    remote: Seq<char>,
    limits: ControlLimits,
    now: u64,
    verdicts: RoutedVerdicts,
)
    requires
        bare.target == routed.target,
        bare.intent == routed.intent,
        bare.forwards == routed.forwards,
        bare.grant is None,
        spec_routed(pre, routed, remote, limits, now, verdicts) is DispatchIntent,
    ensures
        spec_routed(pre, bare, remote, limits, now, verdicts) is DispatchIntent,
{
}

/// A routed topology request acts with the last hop's authority: it is the
/// authenticated remote itself, and this node's senior child.
pub proof fn law_routed_topology_needs_the_senior_child(
    pre: control::ControlState,
    routed: RoutedControlV1,
    remote: Seq<char>,
    limits: ControlLimits,
    now: u64,
    verdicts: RoutedVerdicts,
)
    requires
        spec_routed(pre, routed, remote, limits, now, verdicts) is DispatchForward,
    ensures
        routed.forwards@.len() > 0,
        routed.forwards@.last().signed.origin@ == remote,
        control::is_senior(pre.record.children, remote),
        verdicts.last.registration is None,
{
}

/// What is to be signed for a control message of this node.
#[derive(Debug)]
pub struct Draft {
    /// The node it speaks for.
    pub origin: String,
    /// Names the message.
    pub nonce: u64,
    /// Unix seconds of the last moment at which it stands.
    pub expiry: u64,
}

/// The draft of a control message of `node`, which stands for the usual time
/// from now.
pub fn sign_decision(node: &ControlNode, nonce: u64, now: u64, limits: &ControlLimits) -> (r: Draft)
    ensures
        r.origin@ == node@.node_id,
        r.nonce == nonce,
        r.expiry == (if now + limits.ttl > u64::MAX {
            u64::MAX as int
        } else {
            now + limits.ttl
        }),
{
    Draft { origin: node.node_id().clone(), nonce, expiry: now.saturating_add(limits.ttl) }
}

/// This node as a hop, where it has an address.
pub open spec fn own_hop(state: record::RecordState, node_id: Seq<char>, hop: PeerRef) -> bool {
    state.address == Some(hop.addr) && hop.node@ == node_id
}

/// The hop and the draft of this node's own forward of a routed request. A node
/// without an address cannot forward.
pub fn sign_forward(node: &ControlNode, nonce: u64, now: u64, limits: &ControlLimits) -> (r: Result<
    (PeerRef, Draft),
    ControlError,
>)
    ensures
        match r {
            Ok((hop, draft)) => {
                &&& own_hop(node@.record, node@.node_id, hop)
                &&& draft.origin@ == hop.node@
                &&& draft.nonce == nonce
                &&& draft.expiry == (if now + limits.ttl > u64::MAX {
                    u64::MAX as int
                } else {
                    now + limits.ttl
                })
            },
            Err(e) => node@.record.address is None && (e matches ControlError::Codec(m) && m@
                == "cannot sign a routed forward without an asserted address"@),
        },
{
    match &node.record().address {
        Some(address) => Ok(
            (
                PeerRef { addr: address.copied(), node: node.node_id().clone() },
                sign_decision(node, nonce, now, limits),
            ),
        ),
        None => Err(
            ControlError::Codec(
                "cannot sign a routed forward without an asserted address".to_owned(),
            ),
        ),
    }
}

/// A reply to a routed request, before it is signed.
#[derive(Debug)]
pub struct RoutedReplyV1 {
    /// The message that is answered.
    pub reply_to: MsgId,
    /// The node that asked.
    pub requester: PeerRef,
    /// This node.
    pub responder: PeerRef,
    /// The answer.
    pub reply: ControlReply,
}

/// Build the reply to a routed request. A node without an address cannot
/// answer.
pub fn sign_routed_reply(
    node: &ControlNode,
    reply_to: MsgId,
    requester: PeerRef,
    reply: ControlReply,
) -> (r: Result<RoutedReplyV1, ControlError>)
    ensures
        match r {
            Ok(routed) => {
                &&& routed.reply_to == reply_to
                &&& routed.requester == requester
                &&& routed.reply == reply
                &&& own_hop(node@.record, node@.node_id, routed.responder)
            },
            Err(e) => node@.record.address is None && (e matches ControlError::Codec(m) && m@
                == "cannot sign a routed reply without an asserted address"@),
        },
{
    match &node.record().address {
        Some(address) => Ok(
            RoutedReplyV1 {
                reply_to,
                requester,
                responder: PeerRef { addr: address.copied(), node: node.node_id().clone() },
                reply,
            },
        ),
        None => Err(
            ControlError::Codec(
                "cannot sign a routed reply without an asserted address".to_owned(),
            ),
        ),
    }
}

/// What [`iroh::RelayUrl`] reads in a text: the URL as it renders it, or the
/// message of the parse error.
pub uninterp spec fn relay_url(text: Seq<char>) -> Result<Seq<char>, Seq<char>>;

/// Calls `iroh::RelayUrl::from_str` (through `str::parse`) and renders the URL
/// with its `Display`. The contract claims that the rendering, or the error's
/// message, depends on the text alone.
#[verifier::external_body]
pub(crate) fn read_relay_url(text: &str) -> (r: Result<String, String>)
    ensures
        match r {
            Ok(url) => relay_url(text@) == Ok::<Seq<char>, Seq<char>>(url@),
            Err(detail) => relay_url(text@) == Err::<Seq<char>, Seq<char>>(detail@),
        },
{
    match text.parse::<iroh::RelayUrl>() {
        Ok(url) => Ok(url.to_string()),
        Err(err) => Err(err.to_string()),
    }
}

/// The message of an error that is only a message; empty for any other.
pub fn codec_message(err: &ControlError) -> (r: String)
    ensures
        *err matches ControlError::Codec(m) ==> r@ == m@,
        !(*err is Codec) ==> r@.len() == 0,
{
    match err {
        ControlError::Codec(m) => m.clone(),
        _ => String::new(),
    }
}

/// The transports that an invite names: the relay first, then the socket
/// address.
pub open spec fn invite_transports(
    relay: Option<Seq<char>>,
    ip: Option<Seq<char>>,
    got: Seq<Transport>,
) -> bool {
    let relays = if relay is Some { 1int } else { 0 };
    &&& got.len() == relays + (if ip is Some { 1int } else { 0 })
    &&& relay matches Some(url) ==> (got[0] matches Transport::Relay(shown) && relay_url(url)
        == Ok::<Seq<char>, Seq<char>>(shown@))
    &&& ip matches Some(socket) ==> (got[relays] matches Transport::Ip(shown) && shown@ == socket)
}

/// `message` says why an invite cannot be turned into an address: the parent is
/// no endpoint id, or else the relay is no URL.
pub open spec fn invite_fault(
    parent: Seq<char>,
    relay: Option<Seq<char>>,
    message: Seq<char>,
) -> bool {
    match endpoint::endpoint_key(parent) {
        Err(detail) => message == "invalid parent endpoint id '"@ + parent + "': "@ + detail,
        Ok(_) => relay matches Some(url) && (relay_url(url) matches Err(detail) && message
            == "invalid relay URL in invite: "@ + detail),
    }
}

/// The dial target for an invite: the parent's id and the transports that the
/// invite names. With neither hint the address is left to lookup.
pub fn invite_endpoint_addr(
    parent: &String,
    relay: &Option<String>,
    ip: &Option<String>,
) -> (r: Result<EndpointAddr, ControlError>)
    ensures
        match r {
            Ok(addr) => {
                &&& endpoint::canonical(parent@) == Some(addr.node@)
                &&& invite_transports(
                    match *relay {
                        Some(url) => Some(url@),
                        None => None,
                    },
                    match *ip {
                        Some(socket) => Some(socket@),
                        None => None,
                    },
                    addr.transports@,
                )
            },
            Err(e) => e matches ControlError::Codec(m) && invite_fault(
                parent@,
                match *relay {
                    Some(url) => Some(url@),
                    None => None,
                },
                m@,
            ),
        },
{
    let node: String = match endpoint::parse_endpoint_id(parent) {
        Ok(node) => node,
        Err(bad) => {
            let mut message: String = text::between(
                "invalid parent endpoint id '",
                parent.as_str(),
                "': ",
            );
            message.append(bad.detail.as_str());
            return Err(ControlError::Codec(message));
        },
    };
    let mut transports: Vec<Transport> = Vec::new();
    match relay {
        Some(url) => match read_relay_url(url.as_str()) {
            Ok(shown) => transports.push(Transport::Relay(shown)),
            Err(detail) => {
                let mut message: String = "invalid relay URL in invite: ".to_owned();
                message.append(detail.as_str());
                return Err(ControlError::Codec(message));
            },
        },
        None => {},
    }
    match ip {
        Some(socket) => transports.push(Transport::Ip(socket.clone())),
        None => {},
    }
    Ok(EndpointAddr { node, transports })
}

/// A routed request is acted on only where every check on it holds: it is well
/// formed and meant for this node at its address, its author signed it, it stands
/// now and not too far ahead, and its last hop is the authenticated remote, which
/// signed for itself. A refusal names the time only where the time is wrong.
pub proof fn law_routed_requests_stand_every_check(
    node: ControlNode,
    routed: RoutedControlV1,
    remote: String,
    limits: ControlLimits,
    now: u64,
    verdicts: RoutedVerdicts,
    r: RoutedStep,
)
    requires
        call_ensures(
            receive_routed_at,
            (&node, &routed, &remote, &limits, now, &verdicts),
            r,
        ),
    ensures
        !(r is Refuse) ==> {
            &&& verdicts.valid
            &&& verdicts.intent_signature
            &&& routed.target.node@ == node@.node_id
            &&& node@.record.address == Some(routed.target.addr)
            &&& now <= routed.intent.expiry <= now + limits.max_ttl
            &&& routed.forwards@.len() > 0
            &&& routed.forwards@.last().hop.node@ == remote@
            &&& routed.forwards@.last().signed.origin@ == remote@
            &&& verdicts.last.registration is None
        },
        r is RefuseJoin ==> routed.intent.request is Join || routed.intent.request is JoinApproved
            || routed.intent.request is JoinRejected,
        r matches RoutedStep::Refuse(code) ==> {
            ||| code is Unauthorized
            ||| code is Expired && now > routed.intent.expiry
            ||| code is BadRequest && routed.intent.expiry > now + limits.max_ttl
        },
{
}

/// A routed request that stands every check is handled by its kind. The join
/// handshake is never routed. An admin request is handled as the author's own,
/// with a grant that is shown only where this node's operator signed it for this
/// node and this author; what the store does not back is noted. The operator's own
/// request is handled as it is. Any other is handled as the last hop's, and only
/// where the last hop is another node, the senior child.
pub proof fn law_routed_requests_are_handled_by_kind(
    node: ControlNode,
    routed: RoutedControlV1,
    remote: String,
    limits: ControlLimits,
    now: u64,
    verdicts: RoutedVerdicts,
    r: RoutedStep,
    i: int,
)
    requires
        call_ensures(
            receive_routed_at,
            (&node, &routed, &remote, &limits, now, &verdicts),
            r,
        ),
        verdicts.valid,
        verdicts.intent_signature,
        routed.target.node@ == node@.node_id,
        node@.record.address == Some(routed.target.addr),
        now <= routed.intent.expiry <= now + limits.max_ttl,
        routed.forwards@.len() > 0,
        routed.forwards@.last().hop.node@ == remote@,
        routed.forwards@.last().signed.origin@ == remote@,
        verdicts.last.registration is None,
    ensures
        ({
            let intent = routed.intent;
            let own = intent.origin@ == node@.node_id && intent.controller == node@.operator;
            match intent.request {
                control_msg::ControlRequest::Join(_)
                | control_msg::ControlRequest::JoinApproved(_)
                | control_msg::ControlRequest::JoinRejected(_) => r is RefuseJoin,
                control_msg::ControlRequest::AdminQuery
                | control_msg::ControlRequest::AdminApproveJoin { .. }
                | control_msg::ControlRequest::AdminRejectJoin { .. }
                | control_msg::ControlRequest::AdminRedeliverJoin { .. } => match routed.grant {
                    None => r == (RoutedStep::DispatchIntent { grant_unbacked: false }),
                    Some(grant) => {
                        let stored = node@.admins;
                        &&& r is DispatchIntent <==> grant.fault is None
                            && grant.valid_under@.contains(node@.operator) && grant.grant.node@
                            == node@.node_id && grant.grant.admin == intent.controller
                        &&& !(r is DispatchIntent) ==> r == RoutedStep::Refuse(
                            RejectCode::Unauthorized,
                        )
                        &&& 0 <= i < stored.len() && stored[i].grant.admin == intent.controller
                            && now <= stored[i].grant.expiry ==> r != (RoutedStep::DispatchIntent {
                            grant_unbacked: true,
                        })
                        &&& r == (RoutedStep::DispatchIntent { grant_unbacked: false })
                            ==> exists|k: int| #![trigger stored[k]]
                            0 <= k < stored.len() && stored[k].grant.admin == intent.controller
                                && now <= stored[k].grant.expiry
                    },
                },
                _ => {
                    &&& own ==> r == (RoutedStep::DispatchIntent { grant_unbacked: false })
                    &&& !own && remote@ != node@.node_id && control::is_senior(
                        node@.record.children,
                        remote@,
                    ) ==> r is DispatchForward
                    &&& !own && (remote@ == node@.node_id || !control::is_senior(
                        node@.record.children,
                        remote@,
                    )) ==> r == RoutedStep::Refuse(RejectCode::Unauthorized)
                },
            }
        }),
{
    let stored = node@.admins;
    let controller = routed.intent.controller;
    if 0 <= i < stored.len() && stored[i].grant.admin == controller && now
        <= stored[i].grant.expiry {
        assert(admin_store::grant_at(stored, controller, i));
        assert(admin_store::is_active(stored, controller, now, stored[i].grant.scope));
    }
    if has_active(node@, controller, now) {
        let scope = choose|scope: AdminScope| #[trigger]
            admin_store::is_active(stored, controller, now, scope);
        let k = choose|k: int| #[trigger]
            admin_store::grant_at(stored, controller, k) && now <= stored[k].grant.expiry
                && stored[k].grant.scope == scope;
        assert(stored[k].grant.admin == controller);
    }
}

/// A forward is verified exactly where its hop signed for itself under the key
/// that the registry knows, and is otherwise refused with the registry's reason
/// before any other.
pub proof fn law_hops_sign_for_themselves(
    forward: RoutedForward,
    registration: Option<ControlError>,
    r: Result<(), RejectCode>,
)
    requires
        call_ensures(verify_forward, (&forward, &registration), r),
    ensures
        r is Ok <==> registration is None && forward.hop.node@ == forward.signed.origin@,
        registration is None && r is Err ==> r->Err_0 is Unauthorized,
        registration matches Some(ControlError::UnsupportedVersion(_)) ==> r
            == Err::<(), RejectCode>(RejectCode::BadVersion),
        registration == Some(ControlError::OperatorMismatch) ==> r == Err::<(), RejectCode>(
            RejectCode::Unauthorized,
        ),
{
}

/// What this node signs speaks for this node, under the nonce it drew, and stands
/// for the usual time: never past it, and to its end unless the clock runs out. A
/// forward and a reply name this node at its address, and fail only without one.
pub proof fn law_own_messages_speak_for_this_node(
    node: ControlNode,
    nonce: u64,
    now: u64,
    limits: ControlLimits,
    draft: Draft,
    forward: Result<(PeerRef, Draft), ControlError>,
    reply_to: MsgId,
    requester: PeerRef,
    reply: ControlReply,
    answer: Result<RoutedReplyV1, ControlError>,
)
    requires
        call_ensures(sign_decision, (&node, nonce, now, &limits), draft),
        call_ensures(sign_forward, (&node, nonce, now, &limits), forward),
        call_ensures(sign_routed_reply, (&node, reply_to, requester, reply), answer),
    ensures
        draft.origin@ == node@.node_id,
        draft.nonce == nonce,
        now <= draft.expiry <= now + limits.ttl,
        draft.expiry < u64::MAX ==> draft.expiry == now + limits.ttl,
        forward is Ok <==> node@.record.address is Some,
        answer is Ok <==> node@.record.address is Some,
        forward matches Ok(signed) ==> {
            &&& signed.0.node@ == node@.node_id
            &&& node@.record.address == Some(signed.0.addr)
            &&& signed.1.origin@ == draft.origin@
            &&& signed.1.nonce == draft.nonce
            &&& signed.1.expiry == draft.expiry
        },
        answer matches Ok(routed) ==> {
            &&& routed.reply_to == reply_to
            &&& routed.requester == requester
            &&& routed.reply == reply
            &&& routed.responder.node@ == node@.node_id
            &&& node@.record.address == Some(routed.responder.addr)
        },
{
}

/// An invite is dialed by the parent's id, over the transports it names and no
/// others: the relay before the socket address. It is refused only for an id or a
/// relay that cannot be read.
pub proof fn law_invites_are_dialed_as_written(
    parent: String,
    relay: Option<String>,
    ip: Option<String>,
    r: Result<EndpointAddr, ControlError>,
)
    requires
        call_ensures(invite_endpoint_addr, (&parent, &relay, &ip), r),
    ensures
        r is Err <==> endpoint::endpoint_key(parent@) is Err || (relay matches Some(url)
            && relay_url(url@) is Err),
        r matches Ok(addr) ==> {
            let hops = addr.transports@;
            &&& endpoint::endpoint_key(parent@) matches Ok(key) && addr.node@ == text::hex_lower(
                key@,
            )
            &&& relay is None && ip is None ==> hops.len() == 0
            &&& relay is Some && ip is None ==> hops.len() == 1 && hops[0] is Relay
            &&& relay is None ==> (ip matches Some(socket) ==> hops.len() == 1 && (
            hops[0] matches Transport::Ip(shown) && shown@ == socket@))
            &&& relay is Some ==> (ip matches Some(socket) ==> hops.len() == 2 && hops[0]
                is Relay && (hops[1] matches Transport::Ip(shown) && shown@ == socket@))
            &&& relay matches Some(url) ==> (hops[0] matches Transport::Relay(shown) && relay_url(
                url@,
            ) == Ok::<Seq<char>, Seq<char>>(shown@))
        },
{
}

} // verus!
