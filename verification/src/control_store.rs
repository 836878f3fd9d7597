//! Joins in flight: the applicants that wait at this node for approval, and the
//! one join that this node itself has asked for.
use crate::record::ChildKind;
use crate::wire::{LedgerPubKey, OperatorPubKey};
use vstd::prelude::*;

verus! {

/// Name of the pending-joins file inside the data dir.
pub const PENDING_JOINS_FILE: &'static str = "pending_joins.json";

/// Name of the outbound-join file inside the data dir.
pub const OUTBOUND_JOIN_FILE: &'static str = "outbound_join.json";

/// An applicant's request to join.
#[derive(Debug)]
pub struct JoinRequest {
    /// The applicant.
    pub node: String,
    /// Node or user.
    pub kind: ChildKind,
    /// Its operator key.
    pub operator: OperatorPubKey,
    /// Its ledger key, if it keeps a ledger.
    pub ledger: Option<LedgerPubKey>,
    /// The slot it asks for.
    pub desired_slot: Option<u8>,
    /// Where it says it is.
    pub location_hint: Option<String>,
    /// Names this request.
    pub nonce: u64,
    /// Unix seconds of the last moment at which it stands.
    pub expiry: u64,
}

impl JoinRequest {
    /// A copy of the request.
    pub fn copied(&self) -> (r: JoinRequest)
        ensures
            r == *self,
    {
        JoinRequest {
            node: self.node.clone(),
            kind: self.kind,
            operator: self.operator,
            ledger: self.ledger,
            desired_slot: self.desired_slot,
            location_hint: match &self.location_hint {
                Some(hint) => Some(hint.clone()),
                None => None,
            },
            nonce: self.nonce,
            expiry: self.expiry,
        }
    }
}

/// The join that this node has asked for.
#[derive(Debug)]
pub struct OutboundJoin {
    /// The request that was sent.
    pub request: JoinRequest,
    /// The node it was sent to.
    pub parent: String,
    /// The parent's operator key, where an invite named it beforehand.
    pub pinned_operator: Option<OperatorPubKey>,
}

impl OutboundJoin {
    /// A copy of the join.
    pub fn copied(&self) -> (r: OutboundJoin)
        ensures
            r == *self,
    {
        OutboundJoin {
            request: self.request.copied(),
            parent: self.parent.clone(),
            pinned_operator: self.pinned_operator,
        }
    }
}

/// Errors raised while taking over the stored documents.
#[derive(Debug, PartialEq, Eq)]
pub enum ControlStoreError {
    /// A queued request is malformed.
    InvalidPending(String),
    /// Two queued requests are of the same node.
    DuplicatePending(String),
    /// The outbound request is malformed.
    InvalidOutbound(String),
}

impl ControlStoreError {
    /// The message shown for the error in the file at `path`.
    pub open spec fn spec_text(self, path: Seq<char>) -> Seq<char> {
        match self {
            ControlStoreError::InvalidPending(detail) => path
                + " is corrupt: invalid join request: "@ + detail@,
            ControlStoreError::DuplicatePending(node) => path
                + " is corrupt: duplicate pending node '"@ + node@ + "'"@,
            ControlStoreError::InvalidOutbound(detail) => path
                + " is corrupt: invalid outbound join request: "@ + detail@,
        }
    }

    /// The message shown for the error in the file at `path`.
    pub fn text(&self, path: &String) -> (r: String)
        ensures
            r@ == self.spec_text(path@),
    {
        let mut r: String = path.clone();
        match self {
            ControlStoreError::InvalidPending(detail) => {
                r.append(" is corrupt: invalid join request: ");
                r.append(detail.as_str());
            },
            ControlStoreError::DuplicatePending(node) => {
                r.append(" is corrupt: duplicate pending node '");
                r.append(node.as_str());
                r.append("'");
            },
            ControlStoreError::InvalidOutbound(detail) => {
                r.append(" is corrupt: invalid outbound join request: ");
                r.append(detail.as_str());
            },
        }
        r
    }
}

/// A stored request with the verdict on its structure.
#[derive(Debug)]
pub struct StoredJoin {
    /// The request.
    pub request: JoinRequest,
    /// What is wrong with it, if anything.
    pub fault: Option<String>,
}

/// The requests of a stored list.
pub open spec fn requests(stored: Seq<StoredJoin>) -> Seq<JoinRequest> {
    stored.map_values(|join: StoredJoin| join.request)
}

/// Request `i` is queued for `node`.
pub open spec fn queued_at(pending: Seq<JoinRequest>, node: Seq<char>, i: int) -> bool {
    0 <= i < pending.len() && pending[i].node@ == node
}

/// Some request is queued for `node`.
pub open spec fn is_queued(pending: Seq<JoinRequest>, node: Seq<char>) -> bool {
    exists|i: int| #[trigger] queued_at(pending, node, i)
}

/// The queue with the request, unless its node is queued already.
pub open spec fn with_request(pending: Seq<JoinRequest>, request: JoinRequest) -> Seq<JoinRequest> {
    if is_queued(pending, request.node@) {
        pending
    } else {
        pending.push(request)
    }
}

/// No two requests are of the same node.
pub open spec fn distinct_nodes(pending: Seq<JoinRequest>) -> bool {
    forall|i: int, j: int|
        0 <= i < j < pending.len() ==> (#[trigger] pending[i]).node@ != (
        #[trigger] pending[j]).node@
}

/// A later request than `i` is of the same node.
pub open spec fn repeats_later(pending: Seq<JoinRequest>, i: int) -> bool {
    exists|j: int|
        i < j < pending.len() && (#[trigger] pending[j]).node@ == pending[i].node@
}

/// The first `n` stored requests are well formed.
pub open spec fn sound_up_to(stored: Seq<StoredJoin>, n: int) -> bool {
    forall|j: int| 0 <= j < n ==> (#[trigger] stored[j]).fault is None
}

/// The first `n` requests are not of the same node as a later one.
pub open spec fn single_up_to(pending: Seq<JoinRequest>, n: int) -> bool {
    forall|j: int| 0 <= j < n ==> !#[trigger] repeats_later(pending, j)
}

/// `e` is what a stored list is refused for: its first malformed request, or
/// else its first request that a later one repeats.
pub open spec fn is_pending_fault(stored: Seq<StoredJoin>, e: ControlStoreError) -> bool {
    let pending = requests(stored);
    match e {
        ControlStoreError::InvalidPending(detail) => exists|i: int|
            0 <= i < stored.len() && sound_up_to(stored, i) && (#[trigger] stored[i]).fault == Some(
                detail,
            ),
        ControlStoreError::DuplicatePending(node) => sound_up_to(stored, stored.len() as int)
            && exists|i: int|
            0 <= i < pending.len() && single_up_to(pending, i) && #[trigger] repeats_later(
                pending,
                i,
            ) && node == pending[i].node,
        ControlStoreError::InvalidOutbound(_) => false,
    }
}

/// Take over a stored list of queued requests.
fn load_pending(stored: Vec<StoredJoin>) -> (r: Result<Vec<JoinRequest>, ControlStoreError>)
    ensures
        match r {
            Ok(pending) => {
                &&& pending@ == requests(stored@)
                &&& sound_up_to(stored@, stored@.len() as int)
                &&& distinct_nodes(pending@)
            },
            Err(e) => is_pending_fault(stored@, e),
        },
{
    let mut pending: Vec<JoinRequest> = Vec::new();
    let mut i: usize = 0;
    while i < stored.len()
        invariant
            i <= stored@.len(),
            pending@ == requests(stored@).take(i as int),
            sound_up_to(stored@, i as int),
        decreases stored@.len() - i,
    {
        match &stored[i].fault {
            Some(detail) => {
                assert(stored@[i as int].fault == Some(*detail));
                return Err(ControlStoreError::InvalidPending(detail.clone()));
            },
            None => {},
        }
        pending.push(stored[i].request.copied());
        i = i + 1;
        assert(pending@ =~= requests(stored@).take(i as int));
    }
    assert(pending@ =~= requests(stored@));
    let mut a: usize = 0;
    while a < pending.len()
        invariant
            a <= pending@.len(),
            pending@ == requests(stored@),
            sound_up_to(stored@, stored@.len() as int),
            single_up_to(pending@, a as int),
        decreases pending@.len() - a,
    {
        let mut b: usize = a + 1;
        while b < pending.len()
            invariant
                a < b <= pending@.len(),
                pending@ == requests(stored@),
                sound_up_to(stored@, stored@.len() as int),
                single_up_to(pending@, a as int),
                forall|k: int|
                    a < k < b ==> (#[trigger] pending@[k]).node@ != pending@[a as int].node@,
            decreases pending@.len() - b,
        {
            if pending[b].node == pending[a].node {
                assert(repeats_later(pending@, a as int));
                return Err(ControlStoreError::DuplicatePending(pending[a].node.clone()));
            }
            b = b + 1;
        }
        assert(!repeats_later(pending@, a as int));
        a = a + 1;
    }
    proof {
        assert forall|x: int, y: int| 0 <= x < y < pending@.len() implies (
        #[trigger] pending@[x]).node@ != (#[trigger] pending@[y]).node@ by {
            assert(!repeats_later(pending@, x));
        }
    }
    Ok(pending)
}

/// The joins in flight. At most one request is queued per node.
#[derive(Debug)]
pub struct ControlStore {
    pending: Vec<JoinRequest>,
    outbound: Option<OutboundJoin>,
}

impl ControlStore {
    /// The queued requests, in the order of application.
    pub closed spec fn queue(&self) -> Seq<JoinRequest> {
        self.pending@
    }

    /// The outbound join.
    pub closed spec fn asked(&self) -> Option<OutboundJoin> {
        self.outbound
    }

    /// At most one request is queued per node.
    pub open spec fn wf(&self) -> bool {
        distinct_nodes(self.queue())
    }

    /// Take over the stored documents; an absent list is an empty one.
    pub fn open(stored: Vec<StoredJoin>, outbound: Option<OutboundJoin>, outbound_fault: Option<String>) -> (r: Result<
        ControlStore,
        ControlStoreError,
    >)
        ensures
            match r {
                Ok(store) => {
                    &&& store.wf()
                    &&& store.queue() == requests(stored@)
                    &&& store.asked() == outbound
                    &&& sound_up_to(stored@, stored@.len() as int)
                    &&& outbound is Some ==> outbound_fault is None
                },
                Err(ControlStoreError::InvalidOutbound(detail)) => {
                    &&& sound_up_to(stored@, stored@.len() as int)
                    &&& distinct_nodes(requests(stored@))
                    &&& outbound is Some
                    &&& outbound_fault == Some(detail)
                },
                Err(e) => is_pending_fault(stored@, e),
            },
    {
        let pending: Vec<JoinRequest> = match load_pending(stored) {
            Ok(pending) => pending,
            Err(e) => return Err(e),
        };
        match (&outbound, outbound_fault) {
            (Some(_), Some(detail)) => return Err(ControlStoreError::InvalidOutbound(detail)),
            _ => {},
        }
        Ok(ControlStore { pending, outbound })
    }

    /// The queued requests, in the order of application.
    pub fn pending(&self) -> (r: &Vec<JoinRequest>)
        ensures
            r@ == self.queue(),
    {
        &self.pending
    }

    fn position(&self, node: &String) -> (r: Option<usize>)
        ensures
            match r {
                Some(i) => {
                    &&& queued_at(self.queue(), node@, i as int)
                    &&& forall|j: int| 0 <= j < i ==> (#[trigger] self.queue()[j]).node@ != node@
                },
                None => !is_queued(self.queue(), node@),
            },
    {
        let mut i: usize = 0;
        while i < self.pending.len()
            invariant
                i <= self.pending@.len(),
                self.queue() == self.pending@,
                forall|j: int| 0 <= j < i ==> (#[trigger] self.pending@[j]).node@ != node@,
            decreases self.pending@.len() - i,
        {
            if self.pending[i].node == *node {
                return Some(i);
            }
            i = i + 1;
        }
        None
    }

    /// The queued request of `node`.
    pub fn pending_for(&self, node: &String) -> (r: Option<&JoinRequest>)
        ensures
            match r {
                Some(request) => exists|i: int| #[trigger]
                    queued_at(self.queue(), node@, i) && *request == self.queue()[i],
                None => !is_queued(self.queue(), node@),
            },
    {
        match self.position(node) {
            Some(i) => {
                assert(queued_at(self.queue(), node@, i as int));
                Some(&self.pending[i])
            },
            None => None,
        }
    }

    /// Queue a request. One of a node that is already queued is ignored.
    pub fn add_pending(&mut self, request: JoinRequest)
        requires
            old(self).wf(),
        ensures
            final(self).wf(),
            final(self).asked() == old(self).asked(),
            final(self).queue() == with_request(old(self).queue(), request),
    {
        let ghost before = self.queue();
        match self.position(&request.node) {
            Some(i) => {
                assert(queued_at(before, request.node@, i as int));
            },
            None => {
                proof {
                    assert forall|j: int| 0 <= j < before.len() implies (
                    #[trigger] before[j]).node@ != request.node@ by {
                        assert(!queued_at(before, request.node@, j));
                    }
                }
                self.pending.push(request);
            },
        }
    }

    /// Remove and return the queued request of `node`.
    pub fn remove_pending(&mut self, node: &String) -> (r: Option<JoinRequest>)
        requires
            old(self).wf(),
        ensures
            final(self).wf(),
            final(self).asked() == old(self).asked(),
            !is_queued(final(self).queue(), node@),
            match r {
                Some(request) => exists|i: int| #[trigger]
                    queued_at(old(self).queue(), node@, i) && request == old(self).queue()[i]
                        && final(self).queue() == old(self).queue().remove(i),
                None => !is_queued(old(self).queue(), node@) && final(self).queue() == old(self).queue(),
            },
    {
        let ghost before = self.queue();
        match self.position(node) {
            Some(i) => {
                let request: JoinRequest = self.pending.remove(i);
                proof {
                    let at = i as int;
                    let after = before.remove(at);
                    assert(self.queue() =~= after);
                    assert(queued_at(before, node@, at));
                    assert forall|a: int, b: int| 0 <= a < b < after.len() implies (
                    #[trigger] after[a]).node@ != (#[trigger] after[b]).node@ by {
                        let p = if a < at { a } else { a + 1 };
                        let q = if b < at { b } else { b + 1 };
                        assert(after[a] == before[p] && after[b] == before[q]);
                    }
                    assert forall|j: int| !#[trigger] queued_at(after, node@, j) by {
                        if 0 <= j < after.len() {
                            let p = if j < at { j } else { j + 1 };
                            assert(after[j] == before[p]);
                            if p < at {
                                assert(before[p].node@ != before[at].node@);
                            } else {
                                assert(before[at].node@ != before[p].node@);
                            }
                        }
                    }
                }
                Some(request)
            },
            None => None,
        }
    }

    /// The outbound join.
    pub fn outbound(&self) -> (r: Option<&OutboundJoin>)
        ensures
            match r {
                Some(join) => self.asked() == Some(*join),
                None => self.asked() is None,
            },
    {
        match &self.outbound {
            Some(join) => Some(join),
            None => None,
        }
    }

    /// Record the outbound join, in place of any other.
    pub fn set_outbound(
        &mut self,
        request: JoinRequest,
        parent: String,
        pinned_operator: Option<OperatorPubKey>,
    )
        ensures
            final(self).queue() == old(self).queue(),
            final(self).asked() == Some(OutboundJoin { request, parent, pinned_operator }),
    {
        self.outbound = Some(OutboundJoin { request, parent, pinned_operator });
    }

    /// Forget the outbound join.
    pub fn clear_outbound(&mut self)
        ensures
            final(self).queue() == old(self).queue(),
            final(self).asked() is None,
    {
        self.outbound = None;
    }
}

/// Queueing a request twice is queueing it once.
pub proof fn law_queueing_is_idempotent(pending: Seq<JoinRequest>, request: JoinRequest)
    ensures
        with_request(with_request(pending, request), request) == with_request(pending, request),
{
    if !is_queued(pending, request.node@) {
        assert(queued_at(pending.push(request), request.node@, pending.len() as int));
    }
}

/// A request is queued behind the others, once per node: the first one stays, and
/// no other request moves. The outbound join has nothing to do with it.
pub proof fn law_applications_queue_once(store: &mut ControlStore, request: JoinRequest, i: int)
    requires
        old(store).wf(),
        call_ensures(ControlStore::add_pending, (store, request), ()),
    ensures
        ({
            let before = old(store).queue();
            let after = final(store).queue();
            &&& final(store).asked() == old(store).asked()
            &&& 0 <= i < before.len() ==> i < after.len() && after[i] == before[i]
            &&& 0 <= i < before.len() && before[i].node@ == request.node@ ==> after.len()
                == before.len()
            &&& after.len() == before.len() || after == before.push(request)
            &&& exists|k: int| #![trigger after[k]]
                0 <= k < after.len() && after[k].node@ == request.node@
        }),
{
    let before = old(store).queue();
    let after = final(store).queue();
    if is_queued(before, request.node@) {
        let k = choose|k: int| #[trigger] queued_at(before, request.node@, k);
        assert(after[k].node@ == request.node@);
    } else {
        if 0 <= i < before.len() && before[i].node@ == request.node@ {
            assert(queued_at(before, request.node@, i));
        }
        assert(after[before.len() as int].node@ == request.node@);
    }
}

/// A queued request is found by its node, and taking it out leaves the others in
/// their order. A node that was not queued is answered with nothing, and nothing
/// changes.
pub proof fn law_applications_leave_by_node(
    store: &mut ControlStore,
    node: String,
    i: int,
    r: Option<JoinRequest>,
)
    requires
        old(store).wf(),
        call_ensures(ControlStore::remove_pending, (store, &node), r),
    ensures
        ({
            let before = old(store).queue();
            let after = final(store).queue();
            &&& final(store).asked() == old(store).asked()
            &&& r matches Some(request) ==> request.node@ == node@ && after.len() + 1
                == before.len()
            &&& r is None ==> after == before
            &&& 0 <= i < before.len() && before[i].node@ == node@ ==> r == Some(before[i]) && after
                == before.take(i) + before.skip(i + 1)
            &&& 0 <= i < after.len() ==> after[i].node@ != node@
        }),
{
    let before = old(store).queue();
    let after = final(store).queue();
    if 0 <= i < before.len() && before[i].node@ == node@ {
        assert(queued_at(before, node@, i));
        let k = choose|k: int| #[trigger]
            queued_at(before, node@, k) && r->0 == before[k] && after == before.remove(k);
        if k < i {
            assert(before[k].node@ != before[i].node@);
        } else if i < k {
            assert(before[i].node@ != before[k].node@);
        }
        assert(after =~= before.take(i) + before.skip(i + 1));
    }
    if 0 <= i < after.len() {
        assert(!queued_at(after, node@, i));
    }
}

/// The outbound join is the last one that was set, and none once it was cleared;
/// the queue has nothing to do with it.
pub proof fn law_one_join_is_outbound(
    store: &mut ControlStore,
    request: JoinRequest,
    parent: String,
    pinned_operator: Option<OperatorPubKey>,
    cleared: &mut ControlStore,
)
    requires
        call_ensures(
            ControlStore::set_outbound,
            (store, request, parent, pinned_operator),
            (),
        ),
        call_ensures(ControlStore::clear_outbound, (cleared,), ()),
    ensures
        final(store).queue() == old(store).queue(),
        final(store).asked() matches Some(join) && join.request == request && join.parent == parent
            && join.pinned_operator == pinned_operator,
        final(cleared).queue() == old(cleared).queue(),
        final(cleared).asked() is None,
{
}

/// Stored joins are taken over as they stand or not at all: a store that opens
/// holds every request in its order, none malformed and no node twice, and the
/// outbound join. A store that does not open holds one that is malformed or that
/// repeats a node.
pub proof fn law_stored_joins_are_taken_over_whole(
    stored: Vec<StoredJoin>,
    outbound: Option<OutboundJoin>,
    outbound_fault: Option<String>,
    r: Result<ControlStore, ControlStoreError>,
    i: int,
    j: int,
)
    requires
        call_ensures(ControlStore::open, (stored, outbound, outbound_fault), r),
        0 <= i < j < stored@.len(),
    ensures
        stored@[i].fault is Some || stored@[j].fault is Some || stored@[i].request.node@
            == stored@[j].request.node@ ==> r is Err && !(r->Err_0 is InvalidOutbound),
        outbound is Some && outbound_fault is Some ==> r is Err,
        r matches Ok(store) ==> {
            &&& store.queue().len() == stored@.len()
            &&& store.queue()[i] == stored@[i].request
            &&& store.queue()[j] == stored@[j].request
            &&& store.asked() == outbound
        },
        r matches Err(e) ==> match e {
            ControlStoreError::InvalidOutbound(detail) => outbound is Some && outbound_fault
                == Some(detail),
            ControlStoreError::InvalidPending(detail) => exists|k: int| #![trigger stored@[k]]
                0 <= k < stored@.len() && stored@[k].fault == Some(detail),
            ControlStoreError::DuplicatePending(node) => exists|a: int, b: int|
                #![trigger stored@[a], stored@[b]]
                0 <= a < b < stored@.len() && stored@[a].request.node == node
                    && stored@[b].request.node@ == node@,
        },
{
    let pending = requests(stored@);
    assert(pending[i] == stored@[i].request && pending[j] == stored@[j].request);
    if r is Ok || r->Err_0 is InvalidOutbound {
        assert(stored@[i].fault is None && stored@[j].fault is None);
        assert(pending[i].node@ != pending[j].node@);
    } else {
        match r->Err_0 {
            ControlStoreError::DuplicatePending(node) => {
                let a = choose|a: int|
                    0 <= a < pending.len() && single_up_to(pending, a) && #[trigger] repeats_later(
                        pending,
                        a,
                    ) && node == pending[a].node;
                let b = choose|b: int|
                    a < b < pending.len() && (#[trigger] pending[b]).node@ == pending[a].node@;
                assert(stored@[a].request == pending[a] && stored@[b].request == pending[b]);
            },
            _ => {},
        }
    }
}

/// A waiting request is found by its node, and only where there is one.
pub proof fn law_waiting_requests_are_found_by_node(
    store: ControlStore,
    node: String,
    r: Option<&JoinRequest>,
    i: int,
)
    requires
        store.wf(),
        call_ensures(ControlStore::pending_for, (&store, &node), r),
    ensures
        0 <= i < store.queue().len() && store.queue()[i].node@ == node@ ==> r == Some(
            &store.queue()[i],
        ),
        r matches Some(request) ==> request.node@ == node@ && store.queue().contains(*request),
{
    let queue = store.queue();
    if 0 <= i < queue.len() && queue[i].node@ == node@ {
        assert(queued_at(queue, node@, i));
    }
    if r is Some {
        let k = choose|k: int| #[trigger] queued_at(queue, node@, k) && *(r->0) == queue[k];
        assert(queue[k] == *(r->0));
        if 0 <= i < queue.len() && queue[i].node@ == node@ {
            if i < k {
                assert(queue[i].node@ != queue[k].node@);
            } else if k < i {
                assert(queue[k].node@ != queue[i].node@);
            }
        }
    }
}

} // verus!
