//! The routing view: where this node sits and who its neighbors are.
use crate::addr::OctAddr;
use crate::endpoint;
use crate::endpoint::{parse_endpoint_id, BadEndpointId};
use crate::record::{ChildEntry, ChildKind, NodeRecord};
use crate::text;
use crate::textmap::TextMap;
use crate::wire::PeerRef;
use vstd::prelude::*;

verus! {

/// A direct neighbor.
#[derive(Debug)]
pub struct Neighbor {
    /// Its address.
    pub addr: OctAddr,
    /// Its canonical node id.
    pub node: String,
    /// Node or user.
    pub kind: ChildKind,
}

/// How a transport address reaches an endpoint.
#[derive(Debug)]
pub enum Transport {
    /// A socket address.
    Ip(String),
    /// A relay URL.
    Relay(String),
    /// A custom transport.
    Custom(String),
}

/// A network address: an endpoint id and the transports known for it. With no
/// transports the address is looked up.
#[derive(Debug)]
pub struct EndpointAddr {
    /// The canonical node id.
    pub node: String,
    /// The transports.
    pub transports: Vec<Transport>,
}

/// The contents of an [`EndpointAddr`].
pub ghost struct EndpointAddrState {
    pub node: Seq<char>,
    pub transports: Seq<Transport>,
}

impl View for EndpointAddr {
    type V = EndpointAddrState;

    open spec fn view(&self) -> EndpointAddrState {
        EndpointAddrState { node: self.node@, transports: self.transports@ }
    }
}

impl Transport {
    /// A copy of the transport.
    pub fn copied(&self) -> (r: Transport)
        ensures
            r == *self,
    {
        match self {
            Transport::Ip(s) => Transport::Ip(s.clone()),
            Transport::Relay(s) => Transport::Relay(s.clone()),
            Transport::Custom(s) => Transport::Custom(s.clone()),
        }
    }
}

impl EndpointAddr {
    /// A copy of the address.
    pub fn copied(&self) -> (r: EndpointAddr)
        ensures
            r@ == self@,
    {
        let mut transports: Vec<Transport> = Vec::new();
        let mut i: usize = 0;
        while i < self.transports.len()
            invariant
                i <= self.transports@.len(),
                transports@ == self.transports@.take(i as int),
            decreases self.transports@.len() - i,
        {
            transports.push(self.transports[i].copied());
            i = i + 1;
            assert(transports@ =~= self.transports@.take(i as int));
        }
        assert(transports@ =~= self.transports@);
        EndpointAddr { node: self.node.clone(), transports }
    }
}

/// This node's position and its direct neighbors.
#[derive(Debug)]
pub struct Routable {
    /// This node.
    pub this: PeerRef,
    /// The parent, if there is one.
    pub parent: Option<Neighbor>,
    /// The children, in slot order.
    pub children: Vec<Neighbor>,
}

/// A routing view plus explicit next-hop addresses.
#[derive(Debug)]
pub struct RoutableSnapshot {
    /// The routing view derived from a node record.
    pub routable: Routable,
    /// Explicit addresses by canonical node id.
    pub hints: TextMap<EndpointAddr>,
}

/// Errors raised while deriving a routing view from a node record.
#[derive(Debug, PartialEq, Eq)]
pub enum RoutingSetupError {
    /// The record has no address.
    NoAddress,
    /// A neighbor id is not an endpoint id.
    BadEndpointId {
        /// The id.
        node_id: String,
        /// What is wrong with it.
        detail: String,
    },
    /// The record is structurally inconsistent.
    InvalidRecord(String),
}

/// A [`RoutingSetupError`] with its texts as character sequences.
pub ghost enum RoutingFault {
    NoAddress,
    BadEndpointId { node_id: Seq<char>, detail: Seq<char> },
    InvalidRecord(Seq<char>),
}

impl View for RoutingSetupError {
    type V = RoutingFault;

    open spec fn view(&self) -> RoutingFault {
        match self {
            RoutingSetupError::NoAddress => RoutingFault::NoAddress,
            RoutingSetupError::BadEndpointId { node_id, detail } => RoutingFault::BadEndpointId {
                node_id: node_id@,
                detail: detail@,
            },
            RoutingSetupError::InvalidRecord(detail) => RoutingFault::InvalidRecord(detail@),
        }
    }
}

impl RoutingSetupError {
    /// The message shown to the operator.
    pub open spec fn spec_text(self) -> Seq<char> {
        match self {
            RoutingSetupError::NoAddress => "node record has no address; run `cawala-node topo set-address <ADDR>`"@,
            RoutingSetupError::BadEndpointId { node_id, detail } => "neighbor id '"@ + node_id@
                + "' is not an iroh EndpointId: "@ + detail@,
            RoutingSetupError::InvalidRecord(detail) => "node record is structurally inconsistent: "@
                + detail@,
        }
    }

    /// The message shown to the operator.
    pub fn text(&self) -> (r: String)
        ensures
            r@ == self.spec_text(),
    {
        match self {
            RoutingSetupError::NoAddress => "node record has no address; run `cawala-node topo set-address <ADDR>`".to_owned(),
            RoutingSetupError::BadEndpointId { node_id, detail } => {
                let mut r: String = "neighbor id '".to_owned();
                r.append(node_id.as_str());
                r.append("' is not an iroh EndpointId: ");
                r.append(detail.as_str());
                r
            },
            RoutingSetupError::InvalidRecord(detail) => {
                let mut r: String = "node record is structurally inconsistent: ".to_owned();
                r.append(detail.as_str());
                r
            },
        }
    }
}

impl Neighbor {
    /// A copy of the neighbor.
    pub fn copied(&self) -> (r: Neighbor)
        ensures
            r == *self,
    {
        Neighbor { addr: self.addr.copied(), node: self.node.clone(), kind: self.kind }
    }
}

/// The fault of an id that is not an endpoint id.
pub open spec fn bad_id(text: Seq<char>) -> RoutingFault {
    RoutingFault::BadEndpointId { node_id: text, detail: endpoint::endpoint_key(text)->Err_0 }
}

/// The first child id that is not an endpoint id.
pub open spec fn children_fault(children: Seq<ChildEntry>) -> Option<RoutingFault>
    decreases children.len(),
{
    if children.len() == 0 {
        None
    } else {
        match children_fault(children.drop_last()) {
            Some(fault) => Some(fault),
            None => if endpoint::canonical(children.last().child_id@) is None {
                Some(bad_id(children.last().child_id@))
            } else {
                None
            },
        }
    }
}

/// Why a record does not give a routing view.
pub open spec fn record_fault(record: NodeRecord) -> Option<RoutingFault> {
    match record.address {
        None => Some(RoutingFault::NoAddress),
        Some(address) => match record.parent {
            Some(link) => if endpoint::canonical(link.parent_id@) is None {
                Some(bad_id(link.parent_id@))
            } else if address is Root {
                Some(
                    RoutingFault::InvalidRecord(
                        "record links parent '"@ + link.parent_id@
                            + "' but its address is root '"@ + address.spec_text() + "'"@,
                    ),
                )
            } else {
                children_fault(record.children@)
            },
            None => children_fault(record.children@),
        },
    }
}

/// The neighbor that a child link describes.
pub open spec fn is_child_neighbor(address: OctAddr, child: ChildEntry, n: Neighbor) -> bool {
    &&& n.addr == OctAddr::Child(Box::new(address), child.slot)
    &&& endpoint::canonical(child.child_id@) == Some(n.node@)
    &&& n.kind == child.kind
}

/// The neighbors are the child links in slot order; links at one slot keep
/// their order.
pub open spec fn children_arranged(
    address: OctAddr,
    children: Seq<ChildEntry>,
    neighbors: Seq<Neighbor>,
) -> bool {
    exists|order: Seq<int>| #[trigger] arranged_by(address, children, neighbors, order)
}

/// Neighbor `i` describes child `order[i]`.
pub open spec fn arranged_by(
    address: OctAddr,
    children: Seq<ChildEntry>,
    neighbors: Seq<Neighbor>,
    order: Seq<int>,
) -> bool {
    &&& neighbors.len() == children.len()
    &&& order.len() == children.len()
    &&& forall|i: int|
        0 <= i < order.len() ==> 0 <= #[trigger] order[i] < children.len() && is_child_neighbor(
            address,
            children[order[i]],
            neighbors[i],
        )
    &&& forall|i: int, j: int|
        0 <= i < j < order.len() ==> slot_order(
            children,
            #[trigger] order[i],
            #[trigger] order[j],
        )
}

/// Child `a` comes before child `b`: by slot, then by position.
pub open spec fn slot_order(children: Seq<ChildEntry>, a: int, b: int) -> bool {
    children[a].slot < children[b].slot || (children[a].slot == children[b].slot && a < b)
}

fn bad_endpoint(e: BadEndpointId) -> (r: RoutingSetupError)
    ensures
        r@ == (RoutingFault::BadEndpointId { node_id: e.node_id@, detail: e.detail@ }),
{
    RoutingSetupError::BadEndpointId { node_id: e.node_id, detail: e.detail }
}

proof fn lemma_children_fault_prefix(children: Seq<ChildEntry>, k: int)
    requires
        0 <= k <= children.len(),
        children_fault(children.take(k)) is Some,
    ensures
        children_fault(children) == children_fault(children.take(k)),
    decreases children.len() - k,
{
    if k < children.len() {
        assert(children.take(k + 1).drop_last() =~= children.take(k));
        lemma_children_fault_prefix(children, k + 1);
    } else {
        assert(children.take(k) =~= children);
    }
}

fn neighbor_slot(n: &Neighbor) -> (r: u8)
    ensures
        r == (match n.addr.spec_slot() {
            Some(slot) => slot,
            None => 0,
        }),
{
    match n.addr.slot() {
        Some(s) => s,
        None => 0,
    }
}

fn child_neighbors(address: &OctAddr, children: &Vec<ChildEntry>) -> (r: Result<
    Vec<Neighbor>,
    RoutingSetupError,
>)
    ensures
        match r {
            Ok(neighbors) => children_fault(children@) is None && children_arranged(
                *address,
                children@,
                neighbors@,
            ),
            Err(e) => children_fault(children@) == Some(e@),
        },
{
    let mut out: Vec<Neighbor> = Vec::new();
    let ghost mut order: Seq<int> = Seq::empty();
    let mut i: usize = 0;
    assert(children@.take(0) =~= Seq::<ChildEntry>::empty());
    while i < children.len()
        invariant
            i <= children@.len(),
            children_fault(children@.take(i as int)) is None,
            out@.len() == i,
            order.len() == i,
            forall|k: int|
                0 <= k < order.len() ==> 0 <= #[trigger] order[k] < i && is_child_neighbor(
                    *address,
                    children@[order[k]],
                    out@[k],
                ),
            forall|k: int, l: int|
                0 <= k < l < order.len() ==> slot_order(
                    children@,
                    #[trigger] order[k],
                    #[trigger] order[l],
                ),
        decreases children@.len() - i,
    {
        let child: &ChildEntry = &children[i];
        assert(children@.take(i + 1).drop_last() =~= children@.take(i as int));
        let node: String = match parse_endpoint_id(&child.child_id) {
            Ok(node) => node,
            Err(e) => {
                proof {
                    lemma_children_fault_prefix(children@, i + 1);
                }
                return Err(bad_endpoint(e));
            },
        };
        let item: Neighbor = Neighbor { addr: address.child(child.slot), node, kind: child.kind };
        let ghost before = out@;
        let mut p: usize = out.len();
        while p > 0 && neighbor_slot(&out[p - 1]) > child.slot
            invariant
                p <= out@.len(),
                out@ == before,
                i < children@.len(),
                *child == children@[i as int],
                order.len() == before.len(),
                forall|k: int|
                    0 <= k < order.len() ==> 0 <= #[trigger] order[k] < i && is_child_neighbor(
                        *address,
                        children@[order[k]],
                        before[k],
                    ),
                forall|k: int|
                    p <= k < order.len() ==> children@[#[trigger] order[k]].slot > child.slot,
            decreases p,
        {
            proof {
                assert(0 <= order[p - 1] < i);
            }
            p = p - 1;
        }
        proof {
            if p > 0 {
                assert(0 <= order[p - 1] < i);
                assert(children@[order[p - 1]].slot <= child.slot);
            }
        }
        out.insert(p, item);
        proof {
            let old_order = order;
            order = old_order.insert(p as int, i as int);
            assert forall|k: int| 0 <= k < order.len() implies 0 <= #[trigger] order[k] < i + 1
                && is_child_neighbor(*address, children@[order[k]], out@[k]) by {
                if k < p {
                    assert(order[k] == old_order[k] && out@[k] == before[k]);
                } else if k > p {
                    assert(order[k] == old_order[k - 1] && out@[k] == before[k - 1]);
                }
            }
            assert forall|k: int, l: int| 0 <= k < l < order.len() implies slot_order(
                children@,
                #[trigger] order[k],
                #[trigger] order[l],
            ) by {
                if l == p {
                    assert(order[k] == old_order[k]);
                    if k < p - 1 {
                        assert(slot_order(children@, old_order[k], old_order[p - 1]));
                    }
                } else if k == p {
                    assert(order[l] == old_order[l - 1]);
                } else {
                    let a = if k < p { k } else { k - 1 };
                    let b = if l < p { l } else { l - 1 };
                    assert(order[k] == old_order[a] && order[l] == old_order[b]);
                }
            }
        }
        i = i + 1;
    }
    assert(children@.take(i as int) =~= children@);
    assert(arranged_by(*address, children@, out@, order));
    Ok(out)
}

impl RoutableSnapshot {
    /// The hint map is well formed.
    pub open spec fn wf(&self) -> bool {
        self.hints.wf()
    }

    /// The snapshot is what the record describes, without hints.
    pub open spec fn describes(&self, record: NodeRecord) -> bool {
        &&& record.address == Some(self.routable.this.addr)
        &&& self.routable.this.node@ == record.node_id@
        &&& match record.parent {
            Some(link) => {
                &&& self.routable.parent matches Some(parent)
                &&& self.routable.this.addr.spec_parent() == Some(parent.addr)
                &&& endpoint::canonical(link.parent_id@) == Some(parent.node@)
                &&& parent.kind == ChildKind::Node
            },
            None => self.routable.parent is None,
        }
        &&& children_arranged(
            self.routable.this.addr,
            record.children@,
            self.routable.children@,
        )
    }

    /// Derive a routing snapshot from a node record. The parent address is one
    /// step up and each child address is one step down; every neighbor id is
    /// stored in its canonical form.
    pub fn from_record(record: &NodeRecord) -> (r: Result<RoutableSnapshot, RoutingSetupError>)
        ensures
            match r {
                Ok(snapshot) => {
                    &&& record_fault(*record) is None
                    &&& snapshot.wf()
                    &&& snapshot.describes(*record)
                    &&& snapshot.hints@ == Map::<Seq<char>, EndpointAddr>::empty()
                },
                Err(e) => record_fault(*record) == Some(e@),
            },
    {
        let address: OctAddr = match &record.address {
            Some(a) => a.copied(),
            None => return Err(RoutingSetupError::NoAddress),
        };
        let parent: Option<Neighbor> = match &record.parent {
            Some(link) => {
                let node: String = match parse_endpoint_id(&link.parent_id) {
                    Ok(node) => node,
                    Err(e) => return Err(bad_endpoint(e)),
                };
                match address.parent() {
                    Some(addr) => Some(Neighbor { addr, node, kind: ChildKind::Node }),
                    None => {
                        let mut detail: String = "record links parent '".to_owned();
                        detail.append(link.parent_id.as_str());
                        detail.append("' but its address is root '");
                        let shown: String = address.text();
                        detail.append(shown.as_str());
                        detail.append("'");
                        return Err(RoutingSetupError::InvalidRecord(detail));
                    },
                }
            },
            None => None,
        };
        let children: Vec<Neighbor> = match child_neighbors(&address, &record.children) {
            Ok(children) => children,
            Err(e) => return Err(e),
        };
        Ok(
            RoutableSnapshot {
                routable: Routable {
                    this: PeerRef { addr: address, node: record.node_id.clone() },
                    parent,
                    children,
                },
                hints: TextMap::new(),
            },
        )
    }

    /// Where to dial `node`: the hint for its canonical id, else the bare id.
    pub fn endpoint_addr(&self, node: &String) -> (r: Result<EndpointAddr, RoutingSetupError>)
        requires
            self.wf(),
        ensures
            match endpoint::canonical(node@) {
                None => r matches Err(e) && e@ == bad_id(node@),
                Some(id) => r matches Ok(addr) && if self.hints@.contains_key(id) {
                    addr@ == self.hints@[id]@
                } else {
                    addr@.node == id && addr@.transports.len() == 0
                },
            },
    {
        let id: String = match parse_endpoint_id(node) {
            Ok(id) => id,
            Err(e) => return Err(bad_endpoint(e)),
        };
        match self.hints.get(&id) {
            Some(addr) => Ok(addr.copied()),
            None => Ok(EndpointAddr { node: id, transports: Vec::new() }),
        }
    }

    /// Neighbor `n` has the canonical id `id` and sits at `addr`.
    pub open spec fn names(n: Neighbor, id: Seq<char>, addr: OctAddr) -> bool {
        n.node@ == id && n.addr == addr
    }

    /// Some neighbor of the list has the canonical id `id` and sits at `addr`.
    pub open spec fn among(list: Seq<Neighbor>, id: Seq<char>, addr: OctAddr) -> bool {
        exists|i: int| 0 <= i < list.len() && #[trigger] Self::names(list[i], id, addr)
    }

    /// `node`, in any encoding, at `addr` is the direct parent or a direct
    /// child.
    pub open spec fn spec_is_neighbor(&self, node: Seq<char>, addr: OctAddr) -> bool {
        match endpoint::canonical(node) {
            None => false,
            Some(id) => {
                ||| self.routable.parent matches Some(p) && Self::names(p, id, addr)
                ||| Self::among(self.routable.children@, id, addr)
            },
        }
    }

    /// Whether `node` at `addr` is this node's direct parent or a direct child.
    /// `node` may be in any encoding of an endpoint id.
    pub fn is_neighbor(&self, node: &String, addr: &OctAddr) -> (r: bool)
        ensures
            r == self.spec_is_neighbor(node@, *addr),
    {
        let id: String = match parse_endpoint_id(node) {
            Ok(id) => id,
            Err(_) => return false,
        };
        match &self.routable.parent {
            Some(p) => {
                if p.node == id && p.addr.same(addr) {
                    return true;
                }
            },
            None => {},
        }
        let mut i: usize = 0;
        while i < self.routable.children.len()
            invariant
                i <= self.routable.children@.len(),
                endpoint::canonical(node@) == Some(id@),
                !(self.routable.parent matches Some(p) && Self::names(p, id@, *addr)),
                forall|j: int|
                    0 <= j < i ==> !#[trigger] Self::names(
                        self.routable.children@[j],
                        id@,
                        *addr,
                    ),
            decreases self.routable.children@.len() - i,
        {
            if self.routable.children[i].node == id && self.routable.children[i].addr.same(addr) {
                assert(Self::names(self.routable.children@[i as int], id@, *addr));
                assert(Self::among(self.routable.children@, id@, *addr));
                return true;
            }
            i = i + 1;
        }
        false
    }

    /// Replace the next-hop address hint for `node`, keyed by its canonical id.
    pub fn set_hint(&mut self, node: &String, addr: EndpointAddr) -> (r: Result<
        (),
        RoutingSetupError,
    >)
        requires
            old(self).wf(),
        ensures
            final(self).wf(),
            final(self).routable == old(self).routable,
            match endpoint::canonical(node@) {
                None => r matches Err(e) && e@ == bad_id(node@) && final(self).hints@ == old(self).hints@,
                Some(id) => r is Ok && final(self).hints@ == old(self).hints@.insert(id, addr),
            },
    {
        let id: String = match parse_endpoint_id(node) {
            Ok(id) => id,
            Err(e) => return Err(bad_endpoint(e)),
        };
        self.hints.insert(id, addr);
        Ok(())
    }
}

/// Two encodings of one key are the same neighbor, and an id reads back as
/// itself once it is canonical.
pub proof fn law_encoding_does_not_matter(
    snapshot: RoutableSnapshot,
    a: Seq<char>,
    b: Seq<char>,
    addr: OctAddr,
)
    requires
        endpoint::endpoint_key(a) is Ok,
        endpoint::endpoint_key(a) == endpoint::endpoint_key(b),
    ensures
        endpoint::canonical(a) == endpoint::canonical(b),
        snapshot.spec_is_neighbor(a, addr) == snapshot.spec_is_neighbor(b, addr),
{
}

/// The derived neighbors sit next to this node: the parent one step up, each
/// child one step down, in slot order.
pub proof fn law_neighbors_are_adjacent(snapshot: RoutableSnapshot, record: NodeRecord, i: int)
    requires
        snapshot.describes(record),
    ensures
        snapshot.routable.parent matches Some(p) ==> snapshot.routable.this.addr.spec_parent()
            == Some(p.addr),
        0 <= i < snapshot.routable.children@.len() ==> snapshot.routable.children@[i].addr.spec_parent()
            == Some(snapshot.routable.this.addr),
        0 <= i && i + 1 < snapshot.routable.children@.len()
            ==> snapshot.routable.children@[i].addr.spec_slot()->0
            <= snapshot.routable.children@[i + 1].addr.spec_slot()->0,
{
    let address = snapshot.routable.this.addr;
    let neighbors = snapshot.routable.children@;
    let order = choose|order: Seq<int>| #[trigger]
        arranged_by(address, record.children@, neighbors, order);
    if 0 <= i < neighbors.len() {
        assert(is_child_neighbor(address, record.children@[order[i]], neighbors[i]));
    }
    if 0 <= i && i + 1 < neighbors.len() {
        assert(is_child_neighbor(address, record.children@[order[i + 1]], neighbors[i + 1]));
        assert(slot_order(record.children@, order[i], order[i + 1]));
    }
}

/// Where a message handler gets its routing view.
#[derive(Debug)]
pub enum NeighborSource {
    /// A fixed routing view.
    Static(RoutableSnapshot),
    /// A view rebuilt from the stored record for every message, falling back to
    /// the last good one. The hints stay across rebuilds.
    Live(RoutableSnapshot),
}

impl NeighborSource {
    /// The view in use.
    pub open spec fn current(self) -> RoutableSnapshot {
        match self {
            NeighborSource::Static(snapshot) => snapshot,
            NeighborSource::Live(snapshot) => snapshot,
        }
    }

    /// Take note of the stored record, as far as it could be read. A live
    /// source follows a record that gives a routing view and otherwise keeps
    /// the last good one; a static source stays as it is.
    pub fn refresh(&mut self, stored: Option<&NodeRecord>)
        requires
            old(self).current().wf(),
        ensures
            final(self).current().wf(),
            *final(self) is Live == *old(self) is Live,
            final(self).current().hints == old(self).current().hints,
            if *old(self) is Live && stored is Some && record_fault(*stored->0) is None {
                final(self).current().describes(*stored->0)
            } else {
                *final(self) == *old(self)
            },
    {
        match self {
            NeighborSource::Static(_) => {},
            NeighborSource::Live(current) => {
                match stored {
                    Some(record) => {
                        match RoutableSnapshot::from_record(record) {
                            Ok(snapshot) => {
                                current.routable = snapshot.routable;
                            },
                            Err(_) => {},
                        }
                    },
                    None => {},
                }
            },
        }
    }

    /// The routing view in use.
    pub fn snapshot(&self) -> (r: &RoutableSnapshot)
        ensures
            *r == self.current(),
    {
        match self {
            NeighborSource::Static(snapshot) => snapshot,
            NeighborSource::Live(snapshot) => snapshot,
        }
    }

    /// See [`RoutableSnapshot::is_neighbor`].
    pub fn is_neighbor(&self, node: &String, addr: &OctAddr) -> (r: bool)
        ensures
            r == self.current().spec_is_neighbor(node@, *addr),
    {
        self.snapshot().is_neighbor(node, addr)
    }

    /// See [`RoutableSnapshot::endpoint_addr`].
    pub fn endpoint_addr(&self, node: &String) -> (r: Result<EndpointAddr, RoutingSetupError>)
        requires
            self.current().wf(),
        ensures
            match endpoint::canonical(node@) {
                None => r matches Err(e) && e@ == bad_id(node@),
                Some(id) => r matches Ok(addr) && if self.current().hints@.contains_key(id) {
                    addr@ == self.current().hints@[id]@
                } else {
                    addr@.node == id && addr@.transports.len() == 0
                },
            },
    {
        self.snapshot().endpoint_addr(node)
    }
}

/// Child `k` of a record is among the neighbors that were arranged from it.
proof fn lemma_arranged_holds_child(
    address: OctAddr,
    children: Seq<ChildEntry>,
    neighbors: Seq<Neighbor>,
    order: Seq<int>,
    k: int,
) -> (i: int)
    requires
        arranged_by(address, children, neighbors, order),
        0 <= k < children.len(),
    ensures
        0 <= i < neighbors.len(),
        order[i] == k,
{
    lemma_no_child_is_left_out(children, order, k);
    choose|i: int| 0 <= i < order.len() && #[trigger] order[i] == k
}

/// As many distinct positions as there are children leave no child out.
proof fn lemma_no_child_is_left_out(children: Seq<ChildEntry>, order: Seq<int>, k: int)
    requires
        order.len() == children.len(),
        0 <= k < children.len(),
        forall|i: int| 0 <= i < order.len() ==> 0 <= #[trigger] order[i] < children.len(),
        forall|i: int, j: int|
            0 <= i < j < order.len() ==> slot_order(
                children,
                #[trigger] order[i],
                #[trigger] order[j],
            ),
    ensures
        exists|i: int| 0 <= i < order.len() && #[trigger] order[i] == k,
{
    if forall|i: int| 0 <= i < order.len() ==> #[trigger] order[i] != k {
        let all = order.push(k);
        assert(all.no_duplicates()) by {
            assert forall|i: int, j: int|
                0 <= i < all.len() && 0 <= j < all.len() && i != j implies all[i] != all[j] by {
                if i < order.len() && j < order.len() {
                    if i < j {
                        assert(slot_order(children, order[i], order[j]));
                    } else {
                        assert(slot_order(children, order[j], order[i]));
                    }
                }
            }
        }
        let places = all.to_set();
        all.unique_seq_to_set();
        let n = children.len() as int;
        let room = vstd::set_lib::set_int_range(0, n);
        vstd::set_lib::lemma_int_range(0, n);
        assert forall|x: int| places.contains(x) implies room.contains(x) by {
            let i = choose|i: int| 0 <= i < all.len() && all[i] == x;
        }
        vstd::set_lib::lemma_len_subset(places, room);
    }
}

/// The neighbors of a node are its record's links and nobody else: the parent, one
/// step up, and every child, at its slot one step down. A node at any other place,
/// or any other node at such a place, is no neighbor.
pub proof fn law_neighbors_are_the_links(
    record: NodeRecord,
    snapshot: RoutableSnapshot,
    address: OctAddr,
    k: int,
    node: String,
    at: OctAddr,
    r: bool,
)
    requires
        call_ensures(RoutableSnapshot::from_record, (&record,), Ok(snapshot)),
        call_ensures(RoutableSnapshot::is_neighbor, (&snapshot, &node, &at), r),
        record.address == Some(address),
    ensures
        snapshot.routable.this.addr == address,
        snapshot.routable.this.node@ == record.node_id@,
        0 <= k < record.children@.len() && endpoint::canonical(node@) == endpoint::canonical(
            record.children@[k].child_id@,
        ) && at == OctAddr::Child(Box::new(address), record.children@[k].slot) ==> r,
        record.parent matches Some(link) && endpoint::canonical(node@) == endpoint::canonical(
            link.parent_id@,
        ) && address.spec_parent() == Some(at) ==> r,
        r ==> (record.parent matches Some(link) && endpoint::canonical(node@)
            == endpoint::canonical(link.parent_id@) && address.spec_parent() == Some(at))
            || exists|i: int|
            #![trigger record.children@[i]]
            0 <= i < record.children@.len() && endpoint::canonical(node@) == endpoint::canonical(
                record.children@[i].child_id@,
            ) && at == OctAddr::Child(Box::new(address), record.children@[i].slot),
{
    let children = record.children@;
    let neighbors = snapshot.routable.children@;
    let order = choose|order: Seq<int>| #[trigger]
        arranged_by(address, children, neighbors, order);
    if 0 <= k < children.len() && endpoint::canonical(node@) == endpoint::canonical(
        children[k].child_id@,
    ) && at == OctAddr::Child(Box::new(address), children[k].slot) {
        let i = lemma_arranged_holds_child(address, children, neighbors, order, k);
        assert(is_child_neighbor(address, children[order[i]], neighbors[i]));
        assert(RoutableSnapshot::names(neighbors[i], neighbors[i].node@, at));
        assert(RoutableSnapshot::among(neighbors, neighbors[i].node@, at));
    }
    if r {
        let id = endpoint::canonical(node@)->0;
        if RoutableSnapshot::among(neighbors, id, at) {
            let i = choose|i: int|
                0 <= i < neighbors.len() && #[trigger] RoutableSnapshot::names(
                    neighbors[i],
                    id,
                    at,
                );
            assert(is_child_neighbor(address, children[order[i]], neighbors[i]));
            assert(children[order[i]].slot == children[order[i]].slot);
        }
    }
}

/// A record gives a routing view exactly where it has an address, its parent link
/// does not stand beside the root address, and every link is an endpoint's id.
pub proof fn law_records_with_an_address_route(
    record: NodeRecord,
    r: Result<RoutableSnapshot, RoutingSetupError>,
    k: int,
)
    requires
        call_ensures(RoutableSnapshot::from_record, (&record,), r),
    ensures
        record.address is None ==> (r matches Err(e) && e is NoAddress),
        r is Ok ==> record.address is Some && (record.parent matches Some(link)
            ==> endpoint::canonical(link.parent_id@) is Some && record.address
            != Some(OctAddr::Root)) && (0 <= k < record.children@.len() ==> endpoint::canonical(
            record.children@[k].child_id@,
        ) is Some),
        record.address is Some && (record.parent matches Some(link) ==> endpoint::canonical(
            link.parent_id@,
        ) is Some && record.address != Some(OctAddr::Root)) && (forall|i: int|
            0 <= i < record.children@.len() ==> endpoint::canonical(
                (#[trigger] record.children@[i]).child_id@,
            ) is Some) ==> r is Ok,
{
    lemma_sound_children(record.children@);
}

proof fn lemma_sound_children(children: Seq<ChildEntry>)
    ensures
        children_fault(children) is None <==> forall|i: int|
            0 <= i < children.len() ==> endpoint::canonical((#[trigger] children[i]).child_id@)
                is Some,
    decreases children.len(),
{
    if children.len() > 0 {
        let init = children.drop_last();
        lemma_sound_children(init);
        assert forall|i: int| 0 <= i < init.len() implies #[trigger] init[i] == children[i] by {}
        assert(children.last() == children[children.len() - 1]);
        if children_fault(children) is None {
            assert forall|i: int| 0 <= i < children.len() implies endpoint::canonical(
                (#[trigger] children[i]).child_id@,
            ) is Some by {
                if i < init.len() {
                    assert(init[i] == children[i]);
                }
            }
        }
        if forall|i: int|
            0 <= i < children.len() ==> endpoint::canonical((#[trigger] children[i]).child_id@)
                is Some {
            assert forall|i: int| 0 <= i < init.len() implies endpoint::canonical(
                (#[trigger] init[i]).child_id@,
            ) is Some by {
                assert(init[i] == children[i]);
            }
        }
    }
}

/// A hint for a node is what that node is dialed at, under any encoding of its
/// id; every other node is dialed as before, and who is a neighbor does not change.
pub proof fn law_hints_are_dialed(
    snapshot: &mut RoutableSnapshot,
    node: String,
    addr: EndpointAddr,
    before: RoutableSnapshot,
    after: RoutableSnapshot,
    same: String,
    other: String,
    dialed: Result<EndpointAddr, RoutingSetupError>,
    was: Result<EndpointAddr, RoutingSetupError>,
    is: Result<EndpointAddr, RoutingSetupError>,
)
    requires
        before == *old(snapshot),
        before.wf(),
        call_ensures(
            RoutableSnapshot::set_hint,
            (snapshot, &node, addr),
            Ok::<(), RoutingSetupError>(()),
        ),
        after == *final(snapshot),
        endpoint::canonical(same@) == endpoint::canonical(node@),
        endpoint::canonical(other@) is Some,
        endpoint::canonical(other@) != endpoint::canonical(node@),
        call_ensures(RoutableSnapshot::endpoint_addr, (&after, &same), dialed),
        call_ensures(RoutableSnapshot::endpoint_addr, (&before, &other), was),
        call_ensures(RoutableSnapshot::endpoint_addr, (&after, &other), is),
    ensures
        dialed matches Ok(target) && target.node@ == addr.node@ && target.transports@
            == addr.transports@,
        was matches Ok(old_target) && (is matches Ok(new_target) && new_target.node@
            == old_target.node@ && new_target.transports@ == old_target.transports@),
        after.routable == before.routable,
{
}

/// A live view follows the stored record as soon as that gives a view, keeps the
/// last good one otherwise, and never loses a hint; a static view stays.
pub proof fn law_live_views_follow_the_record(
    source: &mut NeighborSource,
    record: NodeRecord,
    snapshot: RoutableSnapshot,
    fixed: &mut NeighborSource,
)
    requires
        old(source).current().wf(),
        *old(source) is Live,
        call_ensures(RoutableSnapshot::from_record, (&record,), Ok(snapshot)),
        call_ensures(NeighborSource::refresh, (source, Some(&record)), ()),
        old(fixed).current().wf(),
        *old(fixed) is Static,
        call_ensures(NeighborSource::refresh, (fixed, Some(&record)), ()),
    ensures
        record.address == Some(final(source).current().routable.this.addr),
        final(source).current().routable.this.node@ == record.node_id@,
        final(source).current().routable.children@.len() == record.children@.len(),
        final(source).current().routable.parent is Some <==> record.parent is Some,
        final(source).current().hints == old(source).current().hints,
        *final(fixed) == *old(fixed),
{
}

/// Every child link is a neighbor of its own kind, at the address that follows from
/// its slot, and every neighbor below is a child link; they stand in slot order.
pub proof fn law_every_child_is_a_neighbor_of_its_kind(
    record: NodeRecord,
    snapshot: RoutableSnapshot,
    address: OctAddr,
    k: int,
    i: int,
    j: int,
)
    requires
        call_ensures(RoutableSnapshot::from_record, (&record,), Ok(snapshot)),
        record.address == Some(address),
    ensures
        ({
            let children = record.children@;
            let neighbors = snapshot.routable.children@;
            &&& neighbors.len() == children.len()
            &&& 0 <= k < children.len() ==> exists|n: int| #![trigger neighbors[n]]
                0 <= n < neighbors.len() && endpoint::canonical(children[k].child_id@) == Some(
                    neighbors[n].node@,
                ) && neighbors[n].addr == OctAddr::Child(Box::new(address), children[k].slot)
                    && neighbors[n].kind == children[k].kind
            &&& 0 <= i < neighbors.len() ==> exists|c: int| #![trigger children[c]]
                0 <= c < children.len() && endpoint::canonical(children[c].child_id@) == Some(
                    neighbors[i].node@,
                ) && neighbors[i].addr == OctAddr::Child(Box::new(address), children[c].slot)
                    && neighbors[i].kind == children[c].kind
            &&& 0 <= i < j < neighbors.len() ==> neighbors[i].addr.spec_slot()->0
                <= neighbors[j].addr.spec_slot()->0
        }),
{
    let children = record.children@;
    let neighbors = snapshot.routable.children@;
    let order = choose|order: Seq<int>| #[trigger]
        arranged_by(address, children, neighbors, order);
    if 0 <= k < children.len() {
        let n = lemma_arranged_holds_child(address, children, neighbors, order, k);
        assert(is_child_neighbor(address, children[order[n]], neighbors[n]));
    }
    if 0 <= i < neighbors.len() {
        let c = order[i];
        assert(is_child_neighbor(address, children[c], neighbors[i]));
        if i < j < neighbors.len() {
            let d = order[j];
            assert(is_child_neighbor(address, children[d], neighbors[j]));
        }
    }
}

/// A source answers as the view that it holds.
pub proof fn law_sources_answer_as_their_view(
    source: NeighborSource,
    node: String,
    addr: OctAddr,
    shown: &RoutableSnapshot,
    view: bool,
    asked: bool,
    dialed: Result<EndpointAddr, RoutingSetupError>,
    direct: Result<EndpointAddr, RoutingSetupError>,
)
    requires
        call_ensures(NeighborSource::snapshot, (&source,), shown),
        call_ensures(NeighborSource::is_neighbor, (&source, &node, &addr), asked),
        call_ensures(RoutableSnapshot::is_neighbor, (shown, &node, &addr), view),
        call_ensures(NeighborSource::endpoint_addr, (&source, &node), dialed),
        call_ensures(RoutableSnapshot::endpoint_addr, (shown, &node), direct),
    ensures
        source == NeighborSource::Static(*shown) || source == NeighborSource::Live(*shown),
        asked == view,
        dialed is Ok <==> direct is Ok,
        dialed matches Ok(a) ==> (direct matches Ok(b) && a@.node == b@.node),
{
    match endpoint::canonical(node@) {
        Some(id) => {
            if !shown.hints@.contains_key(id) {
                assert(dialed->Ok_0@.node == id && direct->Ok_0@.node == id);
            }
        },
        None => {},
    }
}

} // verus!
