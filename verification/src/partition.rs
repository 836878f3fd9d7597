//! The topology of a network, assembled from the records of its nodes.
//!
//! Each record's own parent link is authoritative. A parent-side row that
//! disagrees with its child's record is stale and reported, not fatal. The
//! surviving links group the nodes into weakly connected components, each with
//! exactly one parentless root.
use crate::addr::MAX_SLOT;
use crate::record::{ChildEntry, ChildKind, NodeRecord};
use crate::text;
use crate::textmap;
use crate::textmap::TextMap;
use crate::union_find;
use crate::union_find::UnionFind;
use vstd::prelude::*;

verus! {

/// A parent and the slot held under it.
#[derive(Debug)]
pub struct SlotRef {
    /// The parent's node id.
    pub parent: String,
    /// The slot under that parent.
    pub slot: u8,
}

/// What is known of one topology node while links are collected.
#[derive(Debug)]
pub struct NodeBuilder {
    /// Node or user.
    pub kind: ChildKind,
    /// The link to its parent.
    pub parent: Option<SlotRef>,
    /// Whether the node supplied a record of its own.
    pub own: bool,
}

/// A parent-side row that its child's own record contradicts.
#[derive(Debug, PartialEq, Eq)]
pub struct StaleLink {
    /// The node that lists the child.
    pub parent: String,
    /// The child.
    pub child: String,
}

/// One node of a component.
#[derive(Debug)]
pub struct TopoNode {
    /// The node's id.
    pub node_id: String,
    /// Node or user.
    pub kind: ChildKind,
    /// The parent's id; none for the root.
    pub parent: Option<String>,
    /// The slot under the parent; none for the root.
    pub slot: Option<u8>,
    /// The slots of the node's children, ascending.
    pub children: Vec<u8>,
}

/// A single-root component.
#[derive(Debug)]
pub struct NetComponent {
    /// The component's root.
    pub root: String,
    /// Its nodes, in the order of their ids.
    pub nodes: Vec<TopoNode>,
    /// For an island, the parent that still lists its root.
    pub stranded_parent: Option<String>,
}

/// A partition of a network: one component per weakly connected part, primary
/// first, and the stale rows found on the way.
#[derive(Debug)]
pub struct TopologyPartition {
    /// Every component, primary first.
    pub components: Vec<NetComponent>,
    /// The stale rows, in the order of the records.
    pub findings: Vec<StaleLink>,
}

/// Why records do not form a topology.
#[derive(Debug, PartialEq, Eq)]
pub enum TopologyError {
    /// A record's parent slot is out of range.
    ParentSlotOutOfRange {
        /// The record.
        node: String,
        /// The slot.
        slot: u8,
    },
    /// A child row's slot is out of range.
    ChildSlotOutOfRange {
        /// The child.
        child: String,
        /// The slot.
        slot: u8,
    },
    /// An id is declared as both a node and a user.
    KindConflict(String),
    /// Two rows place a child without a record under different links.
    ConflictingLinks {
        /// The child.
        child: String,
        /// The first parent.
        first: String,
        /// The slot under it.
        first_slot: u8,
        /// The other parent.
        second: String,
        /// The slot under it.
        second_slot: u8,
    },
    /// A link names a parent that nothing declares.
    MissingParent {
        /// The child.
        child: String,
        /// The parent.
        parent: String,
    },
    /// A component has no root, or several.
    RootCount {
        /// How many.
        roots: usize,
        /// The component.
        members: Vec<String>,
    },
    /// The designated primary names no node.
    UnknownPrimary(String),
    /// A component is not a valid tree.
    InvalidComponent {
        /// Its root.
        root: String,
    },
}

impl TopologyError {
    /// The message shown for the error.
    pub open spec fn spec_text(self) -> Seq<char> {
        match self {
            TopologyError::ParentSlotOutOfRange { node, slot } => "topology node '"@ + node@
                + "' parent slot "@ + text::decimal(slot as nat) + " out of range"@,
            TopologyError::ChildSlotOutOfRange { child, slot } => "topology child '"@ + child@
                + "' slot "@ + text::decimal(slot as nat) + " out of range"@,
            TopologyError::KindConflict(id) => "topology node '"@ + id@
                + "' is declared as both a node and a user"@,
            TopologyError::ConflictingLinks { child, first, first_slot, second, second_slot } => {
                "topology child '"@ + child@ + "' has conflicting parent links ('"@ + first@ + "'@"@
                    + text::decimal(first_slot as nat) + " vs '"@ + second@ + "'@"@ + text::decimal(
                    second_slot as nat,
                ) + ")"@
            },
            TopologyError::MissingParent { child, parent } => "topology node '"@ + child@
                + "' references missing parent '"@ + parent@ + "'"@,
            TopologyError::RootCount { roots, members } => "topology component has "@
                + text::decimal(roots as nat) + " parent-less roots ("@ + text::joined(
                text::views(members@),
                ", "@,
            ) + ")"@,
            TopologyError::UnknownPrimary(root) => "designated primary root '"@ + root@
                + "' not found in the peer records"@,
            TopologyError::InvalidComponent { root } => {
                "peer records do not form a valid topology component rooted at '"@ + root@ + "'"@
            },
        }
    }

    /// The message shown for the error.
    pub fn text(&self) -> (r: String)
        ensures
            r@ == self.spec_text(),
    {
        match self {
            TopologyError::ParentSlotOutOfRange { node, slot } => {
                let mut r: String = text::between(
                    "topology node '",
                    node.as_str(),
                    "' parent slot ",
                );
                r.append(text::u64_text(*slot as u64).as_str());
                r.append(" out of range");
                r
            },
            TopologyError::ChildSlotOutOfRange { child, slot } => {
                let mut r: String = text::between("topology child '", child.as_str(), "' slot ");
                r.append(text::u64_text(*slot as u64).as_str());
                r.append(" out of range");
                r
            },
            TopologyError::KindConflict(id) => text::between(
                "topology node '",
                id.as_str(),
                "' is declared as both a node and a user",
            ),
            TopologyError::ConflictingLinks { child, first, first_slot, second, second_slot } => {
                let mut r: String = text::between(
                    "topology child '",
                    child.as_str(),
                    "' has conflicting parent links ('",
                );
                r.append(first.as_str());
                r.append("'@");
                r.append(text::u64_text(*first_slot as u64).as_str());
                r.append(" vs '");
                r.append(second.as_str());
                r.append("'@");
                r.append(text::u64_text(*second_slot as u64).as_str());
                r.append(")");
                r
            },
            TopologyError::MissingParent { child, parent } => {
                let mut r: String = text::between(
                    "topology node '",
                    child.as_str(),
                    "' references missing parent '",
                );
                r.append(parent.as_str());
                r.append("'");
                r
            },
            TopologyError::RootCount { roots, members } => {
                let mut r: String = text::between(
                    "topology component has ",
                    text::u64_text(*roots as u64).as_str(),
                    " parent-less roots (",
                );
                r.append(text::join(members, ", ").as_str());
                r.append(")");
                r
            },
            TopologyError::UnknownPrimary(root) => text::between(
                "designated primary root '",
                root.as_str(),
                "' not found in the peer records",
            ),
            TopologyError::InvalidComponent { root } => text::between(
                "peer records do not form a valid topology component rooted at '",
                root.as_str(),
                "'",
            ),
        }
    }
}

/// A [`TopologyError`] of the link-collecting passes, with its texts as
/// character sequences.
pub ghost enum LinkFault {
    ParentSlotOutOfRange { node: Seq<char>, slot: u8 },
    ChildSlotOutOfRange { child: Seq<char>, slot: u8 },
    KindConflict(Seq<char>),
    ConflictingLinks {
        child: Seq<char>,
        first: Seq<char>,
        first_slot: u8,
        second: Seq<char>,
        second_slot: u8,
    },
}

/// The collected nodes by id.
pub type Nodes = Map<Seq<char>, NodeBuilder>;

/// The collected nodes and stale rows.
pub ghost struct Graph {
    pub nodes: Nodes,
    pub stale: Seq<StaleLink>,
}

impl TopologyError {
    /// The error is this fault of the link-collecting passes.
    pub open spec fn is_fault(self, fault: LinkFault) -> bool {
        match fault {
            LinkFault::ParentSlotOutOfRange { node, slot } => {
                self matches TopologyError::ParentSlotOutOfRange { node: n, slot: s } && n@ == node
                    && s == slot
            },
            LinkFault::ChildSlotOutOfRange { child, slot } => {
                self matches TopologyError::ChildSlotOutOfRange { child: c, slot: s } && c@ == child
                    && s == slot
            },
            LinkFault::KindConflict(id) => {
                self matches TopologyError::KindConflict(i) && i@ == id
            },
            LinkFault::ConflictingLinks { child, first, first_slot, second, second_slot } => {
                self matches TopologyError::ConflictingLinks {
                    child: c,
                    first: f,
                    first_slot: fs,
                    second: s,
                    second_slot: ss,
                } && c@ == child && f@ == first && fs == first_slot && s@ == second && ss
                    == second_slot
            },
        }
    }
}

/// First pass: every record is a node, and its own parent link counts. Of
/// several records with one id the last parent link stays.
pub open spec fn own_links(records: Seq<NodeRecord>) -> Result<Nodes, LinkFault>
    decreases records.len(),
{
    if records.len() == 0 {
        Ok(Map::empty())
    } else {
        match own_links(records.drop_last()) {
            Err(fault) => Err(fault),
            Ok(nodes) => own_link_step(nodes, records.last()),
        }
    }
}

/// One record of the first pass.
pub open spec fn own_link_step(nodes: Nodes, rec: NodeRecord) -> Result<Nodes, LinkFault> {
    let id = rec.node_id@;
    match rec.parent {
        Some(link) => if link.slot > MAX_SLOT {
            Err(LinkFault::ParentSlotOutOfRange { node: id, slot: link.slot })
        } else {
            Ok(
                nodes.insert(
                    id,
                    NodeBuilder {
                        kind: ChildKind::Node,
                        parent: Some(SlotRef { parent: link.parent_id, slot: link.slot }),
                        own: true,
                    },
                ),
            )
        },
        None => Ok(
            nodes.insert(
                id,
                NodeBuilder {
                    kind: ChildKind::Node,
                    parent: if nodes.contains_key(id) {
                        nodes[id].parent
                    } else {
                        None
                    },
                    own: true,
                },
            ),
        ),
    }
}

/// One parent-side row of the second pass. A child with a record of its own is
/// only checked against it; a child without one takes the link of the row.
pub open spec fn row_step(graph: Graph, lister: String, row: ChildEntry) -> Result<
    Graph,
    LinkFault,
> {
    let id = row.child_id@;
    if row.slot > MAX_SLOT {
        Err(LinkFault::ChildSlotOutOfRange { child: id, slot: row.slot })
    } else if graph.nodes.contains_key(id) && graph.nodes[id].kind != row.kind {
        Err(LinkFault::KindConflict(id))
    } else if graph.nodes.contains_key(id) && graph.nodes[id].own {
        if graph.nodes[id].parent matches Some(link) && link.parent@ == lister@ && link.slot
            == row.slot {
            Ok(graph)
        } else {
            Ok(
                Graph {
                    stale: graph.stale.push(StaleLink { parent: lister, child: row.child_id }),
                    ..graph
                },
            )
        }
    } else if graph.nodes.contains_key(id) && graph.nodes[id].parent is Some {
        let link = graph.nodes[id].parent->0;
        if link.parent@ == lister@ && link.slot == row.slot {
            Ok(graph)
        } else {
            Err(
                LinkFault::ConflictingLinks {
                    child: id,
                    first: link.parent@,
                    first_slot: link.slot,
                    second: lister@,
                    second_slot: row.slot,
                },
            )
        }
    } else {
        Ok(
            Graph {
                nodes: graph.nodes.insert(
                    id,
                    NodeBuilder {
                        kind: row.kind,
                        parent: Some(SlotRef { parent: lister, slot: row.slot }),
                        own: false,
                    },
                ),
                ..graph
            },
        )
    }
}

/// The rows of one record, in order.
pub open spec fn rows_of(graph: Graph, lister: String, rows: Seq<ChildEntry>) -> Result<
    Graph,
    LinkFault,
>
    decreases rows.len(),
{
    if rows.len() == 0 {
        Ok(graph)
    } else {
        match rows_of(graph, lister, rows.drop_last()) {
            Err(fault) => Err(fault),
            Ok(next) => row_step(next, lister, rows.last()),
        }
    }
}

/// Second pass: the rows of every record, in order.
pub open spec fn listed_links(graph: Graph, records: Seq<NodeRecord>) -> Result<Graph, LinkFault>
    decreases records.len(),
{
    if records.len() == 0 {
        Ok(graph)
    } else {
        match listed_links(graph, records.drop_last()) {
            Err(fault) => Err(fault),
            Ok(next) => rows_of(next, records.last().node_id, records.last().children@),
        }
    }
}

/// The graph that the records describe, or the first fault in them.
pub open spec fn graph_of(records: Seq<NodeRecord>) -> Result<Graph, LinkFault> {
    match own_links(records) {
        Err(fault) => Err(fault),
        Ok(nodes) => listed_links(Graph { nodes, stale: Seq::empty() }, records),
    }
}

/// `parent` is the parent of `child`.
pub open spec fn parent_pairs(nodes: Nodes) -> spec_fn(Seq<char>, Seq<char>) -> bool {
    |child: Seq<char>, parent: Seq<char>|
        nodes.contains_key(child) && nodes[child].parent is Some && nodes[child].parent->0.parent@
            == parent
}

/// Two nodes belong to one component.
pub open spec fn together(nodes: Nodes, a: Seq<char>, b: Seq<char>) -> bool {
    union_find::connected(parent_pairs(nodes), a, b)
}

/// The node's link names a parent that nothing declares.
pub open spec fn dangling(nodes: Nodes, id: Seq<char>) -> bool {
    nodes.contains_key(id) && nodes[id].parent is Some && !nodes.contains_key(
        nodes[id].parent->0.parent@,
    )
}

/// Every component has exactly one parentless node.
pub open spec fn rooted(nodes: Nodes) -> bool {
    &&& forall|a: Seq<char>| #[trigger]
        nodes.contains_key(a) ==> exists|r: Seq<char>|
            #![trigger nodes[r]]
            nodes.contains_key(r) && nodes[r].parent is None && together(nodes, a, r)
    &&& forall|a: Seq<char>, b: Seq<char>|
        #![trigger nodes[a], nodes[b]]
        nodes.contains_key(a) && nodes.contains_key(b) && nodes[a].parent is None
            && nodes[b].parent is None && together(nodes, a, b) ==> a == b
}

/// The ids are one whole component, in text order.
pub open spec fn is_component(nodes: Nodes, members: Seq<String>) -> bool {
    &&& members.len() > 0
    &&& forall|i: int, j: int|
        0 <= i < j < members.len() ==> text::text_less((#[trigger] members[i])@, (
        #[trigger] members[j])@)
    &&& forall|i: int| 0 <= i < members.len() ==> nodes.contains_key((#[trigger] members[i])@)
    &&& forall|i: int, id: Seq<char>|
        0 <= i < members.len() && nodes.contains_key(id) ==> (text::holds_text(members, id)
            <==> #[trigger] together(nodes, members[i]@, id))
}

/// Number of parentless ids in the list.
pub open spec fn count_roots(nodes: Nodes, members: Seq<String>) -> nat
    decreases members.len(),
{
    if members.len() == 0 {
        0
    } else {
        count_roots(nodes, members.drop_last()) + if nodes[members.last()@].parent is None {
            1nat
        } else {
            0nat
        }
    }
}

/// `root` is the one parentless id in the list.
pub open spec fn is_root_of(nodes: Nodes, members: Seq<String>, root: Seq<char>) -> bool {
    &&& text::holds_text(members, root)
    &&& forall|i: int|
        0 <= i < members.len() ==> (nodes[(#[trigger] members[i])@].parent is None <==> members[i]@
            == root)
}

/// A component with its root.
#[derive(Debug)]
pub struct Group {
    /// The parentless member.
    pub root: String,
    /// Every member, in text order.
    pub members: Vec<String>,
}

/// A larger component comes first; components of one size go by root.
pub open spec fn comes_before(size_a: nat, root_a: Seq<char>, size_b: nat, root_b: Seq<char>) -> bool {
    size_a > size_b || (size_a == size_b && text::text_less(root_a, root_b))
}

spec fn group_ok(nodes: Nodes, group: Group) -> bool {
    is_component(nodes, group.members@) && is_root_of(nodes, group.members@, group.root@)
}

spec fn groups_apart(nodes: Nodes, groups: Seq<Group>) -> bool {
    forall|g: int, h: int|
        0 <= g < groups.len() && 0 <= h < groups.len() && g != h ==> !together(
            nodes,
            (#[trigger] groups[g]).root@,
            (#[trigger] groups[h]).root@,
        )
}

spec fn groups_sorted(groups: Seq<Group>) -> bool {
    forall|g: int, h: int|
        0 <= g < h < groups.len() ==> comes_before(
            (#[trigger] groups[g]).members@.len(),
            groups[g].root@,
            (#[trigger] groups[h]).members@.len(),
            groups[h].root@,
        )
}

impl SlotRef {
    fn copied(&self) -> (r: SlotRef)
        ensures
            r == *self,
    {
        SlotRef { parent: self.parent.clone(), slot: self.slot }
    }
}

/// Add one record's own link.
fn add_own_link(nodes: &mut TextMap<NodeBuilder>, rec: &NodeRecord) -> (r: Result<
    (),
    TopologyError,
>)
    requires
        old(nodes).wf(),
    ensures
        final(nodes).wf(),
        match own_link_step(old(nodes)@, *rec) {
            Ok(next) => r is Ok && final(nodes)@ == next,
            Err(fault) => r matches Err(e) && e.is_fault(fault),
        },
{
    let parent: Option<SlotRef> = match &rec.parent {
        Some(link) => {
            if link.slot > MAX_SLOT {
                return Err(
                    TopologyError::ParentSlotOutOfRange {
                        node: rec.node_id.clone(),
                        slot: link.slot,
                    },
                );
            }
            Some(SlotRef { parent: link.parent_id.clone(), slot: link.slot })
        },
        None => match nodes.get(&rec.node_id) {
            Some(prior) => match &prior.parent {
                Some(link) => Some(link.copied()),
                None => None,
            },
            None => None,
        },
    };
    nodes.insert(rec.node_id.clone(), NodeBuilder { kind: ChildKind::Node, parent, own: true });
    Ok(())
}

/// Check or add the link of one parent-side row.
fn add_row(
    nodes: &mut TextMap<NodeBuilder>,
    stale: &mut Vec<StaleLink>,
    lister: &String,
    row: &ChildEntry,
) -> (r: Result<(), TopologyError>)
    requires
        old(nodes).wf(),
    ensures
        final(nodes).wf(),
        match row_step(Graph { nodes: old(nodes)@, stale: old(stale)@ }, *lister, *row) {
            Ok(next) => r is Ok && final(nodes)@ == next.nodes && final(stale)@ == next.stale,
            Err(fault) => r matches Err(e) && e.is_fault(fault),
        },
{
    if row.slot > MAX_SLOT {
        return Err(
            TopologyError::ChildSlotOutOfRange { child: row.child_id.clone(), slot: row.slot },
        );
    }
    match nodes.get(&row.child_id) {
        Some(known) => {
            if known.kind != row.kind {
                return Err(TopologyError::KindConflict(row.child_id.clone()));
            }
            let agrees: bool = match &known.parent {
                Some(link) => link.parent == *lister && link.slot == row.slot,
                None => false,
            };
            if known.own {
                if !agrees {
                    stale.push(
                        StaleLink { parent: lister.clone(), child: row.child_id.clone() },
                    );
                }
                return Ok(());
            }
            match &known.parent {
                Some(link) => {
                    if !agrees {
                        return Err(
                            TopologyError::ConflictingLinks {
                                child: row.child_id.clone(),
                                first: link.parent.clone(),
                                first_slot: link.slot,
                                second: lister.clone(),
                                second_slot: row.slot,
                            },
                        );
                    }
                    return Ok(());
                },
                None => {},
            }
        },
        None => {},
    }
    nodes.insert(
        row.child_id.clone(),
        NodeBuilder {
            kind: row.kind,
            parent: Some(SlotRef { parent: lister.clone(), slot: row.slot }),
            own: false,
        },
    );
    Ok(())
}

proof fn lemma_own_links_fault(records: Seq<NodeRecord>, k: int)
    requires
        0 <= k <= records.len(),
        own_links(records.take(k)) is Err,
    ensures
        own_links(records) == own_links(records.take(k)),
    decreases records.len() - k,
{
    if k < records.len() {
        assert(records.take(k + 1).drop_last() =~= records.take(k));
        lemma_own_links_fault(records, k + 1);
    } else {
        assert(records.take(k) =~= records);
    }
}

proof fn lemma_rows_fault(graph: Graph, lister: String, rows: Seq<ChildEntry>, k: int)
    requires
        0 <= k <= rows.len(),
        rows_of(graph, lister, rows.take(k)) is Err,
    ensures
        rows_of(graph, lister, rows) == rows_of(graph, lister, rows.take(k)),
    decreases rows.len() - k,
{
    if k < rows.len() {
        assert(rows.take(k + 1).drop_last() =~= rows.take(k));
        lemma_rows_fault(graph, lister, rows, k + 1);
    } else {
        assert(rows.take(k) =~= rows);
    }
}

proof fn lemma_listed_links_fault(graph: Graph, records: Seq<NodeRecord>, k: int)
    requires
        0 <= k <= records.len(),
        listed_links(graph, records.take(k)) is Err,
    ensures
        listed_links(graph, records) == listed_links(graph, records.take(k)),
    decreases records.len() - k,
{
    if k < records.len() {
        assert(records.take(k + 1).drop_last() =~= records.take(k));
        lemma_listed_links_fault(graph, records, k + 1);
    } else {
        assert(records.take(k) =~= records);
    }
}

/// Collect the links of all records.
fn collect_links(records: &[NodeRecord]) -> (r: Result<
    (TextMap<NodeBuilder>, Vec<StaleLink>),
    TopologyError,
>)
    ensures
        match graph_of(records@) {
            Ok(graph) => r matches Ok((nodes, stale)) && nodes.wf() && nodes@ == graph.nodes
                && stale@ == graph.stale,
            Err(fault) => r matches Err(e) && e.is_fault(fault),
        },
{
    let mut nodes: TextMap<NodeBuilder> = TextMap::new();
    let mut stale: Vec<StaleLink> = Vec::new();
    let mut i: usize = 0;
    assert(records@.take(0) =~= Seq::<NodeRecord>::empty());
    while i < records.len()
        invariant
            i <= records@.len(),
            nodes.wf(),
            own_links(records@.take(i as int)) == Ok::<Nodes, LinkFault>(nodes@),
        decreases records@.len() - i,
    {
        assert(records@.take(i + 1).drop_last() =~= records@.take(i as int));
        match add_own_link(&mut nodes, &records[i]) {
            Ok(_) => {},
            Err(e) => {
                proof {
                    lemma_own_links_fault(records@, i + 1);
                }
                return Err(e);
            },
        }
        i = i + 1;
    }
    assert(records@.take(i as int) =~= records@);
    let ghost start = Graph { nodes: nodes@, stale: Seq::<StaleLink>::empty() };
    let mut i: usize = 0;
    assert(stale@ =~= Seq::<StaleLink>::empty());
    while i < records.len()
        invariant
            i <= records@.len(),
            nodes.wf(),
            own_links(records@) == Ok::<Nodes, LinkFault>(start.nodes),
            start.stale == Seq::<StaleLink>::empty(),
            listed_links(start, records@.take(i as int)) == Ok::<Graph, LinkFault>(
                Graph { nodes: nodes@, stale: stale@ },
            ),
        decreases records@.len() - i,
    {
        let rec: &NodeRecord = &records[i];
        let ghost base = Graph { nodes: nodes@, stale: stale@ };
        let mut k: usize = 0;
        assert(records@.take(i + 1).drop_last() =~= records@.take(i as int));
        assert(rec.children@.take(0) =~= Seq::<ChildEntry>::empty());
        while k < rec.children.len()
            invariant
                i < records@.len(),
                *rec == records@[i as int],
                k <= rec.children@.len(),
                nodes.wf(),
                own_links(records@) == Ok::<Nodes, LinkFault>(start.nodes),
                start.stale == Seq::<StaleLink>::empty(),
                listed_links(start, records@.take(i as int)) == Ok::<Graph, LinkFault>(base),
                records@.take(i + 1).drop_last() == records@.take(i as int),
                rows_of(base, rec.node_id, rec.children@.take(k as int)) == Ok::<Graph, LinkFault>(
                    Graph { nodes: nodes@, stale: stale@ },
                ),
            decreases rec.children@.len() - k,
        {
            assert(rec.children@.take(k + 1).drop_last() =~= rec.children@.take(k as int));
            match add_row(&mut nodes, &mut stale, &rec.node_id, &rec.children[k]) {
                Ok(_) => {},
                Err(e) => {
                    proof {
                        lemma_rows_fault(base, rec.node_id, rec.children@, k + 1);
                        lemma_listed_links_fault(start, records@, i + 1);
                    }
                    return Err(e);
                },
            }
            k = k + 1;
        }
        assert(rec.children@.take(k as int) =~= rec.children@);
        i = i + 1;
    }
    assert(records@.take(i as int) =~= records@);
    Ok((nodes, stale))
}

/// The dangling node that comes first in text order.
pub open spec fn first_dangling(nodes: Nodes, id: Seq<char>) -> bool {
    dangling(nodes, id) && forall|other: Seq<char>| #[trigger]
        dangling(nodes, other) ==> !text::text_less(other, id)
}

/// Find the dangling node that comes first in text order.
fn find_dangling(nodes: &TextMap<NodeBuilder>) -> (r: Option<(String, String)>)
    requires
        nodes.wf(),
    ensures
        match r {
            Some((child, parent)) => first_dangling(nodes@, child@) && parent@
                == nodes@[child@].parent->0.parent@,
            None => forall|id: Seq<char>| !#[trigger] dangling(nodes@, id),
        },
{
    let mut best: Option<usize> = None;
    let mut i: usize = 0;
    while i < nodes.keys.len()
        invariant
            nodes.wf(),
            i <= nodes.keys@.len(),
            match best {
                Some(b) => {
                    &&& b < i
                    &&& dangling(nodes@, nodes.keys@[b as int]@)
                    &&& forall|j: int|
                        0 <= j < i && dangling(nodes@, (#[trigger] nodes.keys@[j])@)
                            ==> !text::text_less(nodes.keys@[j]@, nodes.keys@[b as int]@)
                },
                None => forall|j: int|
                    0 <= j < i ==> !dangling(nodes@, (#[trigger] nodes.keys@[j])@),
            },
        decreases nodes.keys@.len() - i,
    {
        proof {
            nodes.lemma_entry(i as int);
        }
        let missing: bool = match &nodes.values[i].parent {
            Some(link) => nodes.find(&link.parent).is_none(),
            None => false,
        };
        if missing {
            let first: bool = match best {
                Some(b) => text::text_before(&nodes.keys[i], &nodes.keys[b]),
                None => true,
            };
            if first {
                proof {
                    assert forall|j: int|
                        0 <= j <= i && dangling(
                            nodes@,
                            (#[trigger] nodes.keys@[j])@,
                        ) implies !text::text_less(nodes.keys@[j]@, nodes.keys@[i as int]@) by {
                        text::law_text_order(
                            nodes.keys@[i as int]@,
                            nodes.keys@[j]@,
                            nodes.keys@[i as int]@,
                        );
                        if j < i {
                            let b = best->0;
                            text::law_text_order(
                                nodes.keys@[j]@,
                                nodes.keys@[i as int]@,
                                nodes.keys@[b as int]@,
                            );
                        }
                    }
                }
                best = Some(i);
            }
        }
        i = i + 1;
    }
    proof {
        assert forall|id: Seq<char>| #[trigger] dangling(nodes@, id) implies exists|j: int|
            0 <= j < nodes.keys@.len() && (#[trigger] nodes.keys@[j])@ == id by {
            assert(text::holds_text(nodes.keys@, id));
        }
    }
    match best {
        None => None,
        Some(b) => {
            proof {
                nodes.lemma_entry(b as int);
            }
            match &nodes.values[b].parent {
                Some(link) => Some((nodes.keys[b].clone(), link.parent.clone())),
                None => None,
            }
        },
    }
}

// The parent pairs among the first `upto` entries, by position.
spec fn index_pairs(nodes: TextMap<NodeBuilder>, upto: int) -> spec_fn(int, int) -> bool {
    |x: int, y: int|
        0 <= x < upto && x < nodes.keys@.len() && 0 <= y < nodes.keys@.len()
            && nodes.values@[x].parent is Some && nodes.values@[x].parent->0.parent@
            == nodes.keys@[y]@
}

proof fn lemma_tracks_same(
    sets: UnionFind,
    a: spec_fn(int, int) -> bool,
    b: spec_fn(int, int) -> bool,
)
    requires
        sets.tracks(a),
        forall|x: int, y: int| #[trigger] a(x, y) <==> b(x, y),
        forall|x: int, y: int| a(x, y) <==> #[trigger] b(x, y),
    ensures
        sets.tracks(b),
{
    assert forall|i: int, j: int| 0 <= i < sets.size() && 0 <= j < sets.size() implies (
    #[trigger] sets.rep(i) == #[trigger] sets.rep(j) <==> union_find::connected(b, i, j)) by {
        if union_find::connected(a, i, j) {
            union_find::lemma_connected_monotone(a, b, i, j);
        }
        if union_find::connected(b, i, j) {
            union_find::lemma_connected_monotone(b, a, i, j);
        }
    }
}

proof fn lemma_walk_by_name(nodes: TextMap<NodeBuilder>, i: int, j: int)
    requires
        nodes.wf(),
        0 <= i < nodes.keys@.len(),
        0 <= j < nodes.keys@.len(),
        forall|id: Seq<char>| !#[trigger] dangling(nodes@, id),
    ensures
        union_find::connected(index_pairs(nodes, nodes.keys@.len() as int), i, j) <==> together(
            nodes@,
            nodes.keys@[i]@,
            nodes.keys@[j]@,
        ),
{
    let n = nodes.keys@.len() as int;
    let by_index = index_pairs(nodes, n);
    let by_name = parent_pairs(nodes@);
    if union_find::connected(by_index, i, j) {
        let path = choose|path: Seq<int>| #[trigger]
            union_find::is_walk(by_index, path) && path[0] == i && path.last() == j;
        let names = Seq::new(path.len(), |k: int| nodes.keys@[path[k]]@);
        assert forall|k: int| 0 <= k < names.len() - 1 implies by_name(
            #[trigger] names[k],
            names[k + 1],
        ) || by_name(names[k + 1], names[k]) by {
            assert(by_index(path[k], path[k + 1]) || by_index(path[k + 1], path[k]));
            if by_index(path[k], path[k + 1]) {
                nodes.lemma_entry(path[k]);
            } else {
                nodes.lemma_entry(path[k + 1]);
            }
        }
        assert(union_find::is_walk(by_name, names));
    }
    if union_find::connected(by_name, nodes.keys@[i]@, nodes.keys@[j]@) {
        let names = choose|names: Seq<Seq<char>>| #[trigger]
            union_find::is_walk(by_name, names) && names[0] == nodes.keys@[i]@ && names.last()
                == nodes.keys@[j]@;
        let path = Seq::new(
            names.len(),
            |k: int| textmap::key_index(nodes.keys@, names[k]),
        );
        assert forall|k: int| 0 <= k < names.len() implies nodes@.contains_key(
            #[trigger] names[k],
        ) by {
            if k + 1 < names.len() {
                assert(by_name(names[k], names[k + 1]) || by_name(names[k + 1], names[k]));
                assert(!dangling(nodes@, names[k]));
                assert(!dangling(nodes@, names[k + 1]));
            } else {
                nodes.lemma_entry(j);
            }
        }
        assert forall|k: int| 0 <= k < path.len() - 1 implies by_index(
            #[trigger] path[k],
            path[k + 1],
        ) || by_index(path[k + 1], path[k]) by {
            assert(by_name(names[k], names[k + 1]) || by_name(names[k + 1], names[k]));
            assert(nodes@.contains_key(names[k]) && nodes@.contains_key(names[k + 1]));
            assert(nodes.keys@[path[k]]@ == names[k]);
            assert(nodes.keys@[path[k + 1]]@ == names[k + 1]);
            nodes.lemma_entry(path[k]);
            nodes.lemma_entry(path[k + 1]);
        }
        assert(union_find::is_walk(by_index, path));
        nodes.lemma_entry(i);
        nodes.lemma_entry(j);
        assert(path[0] == i);
        assert(path.last() == j);
    }
}

/// The representative of each entry's component.
fn component_ids(nodes: &TextMap<NodeBuilder>) -> (r: Vec<usize>)
    requires
        nodes.wf(),
        forall|id: Seq<char>| !#[trigger] dangling(nodes@, id),
    ensures
        r@.len() == nodes.keys@.len(),
        forall|i: int| 0 <= i < r@.len() ==> (#[trigger] r@[i]) < r@.len() && r@[r@[i] as int]
            == r@[i],
        forall|i: int, j: int|
            0 <= i < r@.len() && 0 <= j < r@.len() ==> (#[trigger] r@[i] == #[trigger] r@[j]
                <==> together(nodes@, nodes.keys@[i]@, nodes.keys@[j]@)),
{
    let n: usize = nodes.keys.len();
    let mut sets: UnionFind = UnionFind::new(n);
    let mut i: usize = 0;
    proof {
        lemma_tracks_same(sets, |x: int, y: int| false, index_pairs(*nodes, 0));
    }
    while i < n
        invariant
            nodes.wf(),
            n == nodes.keys@.len(),
            i <= n,
            forall|id: Seq<char>| !#[trigger] dangling(nodes@, id),
            sets.wf(),
            sets.size() == n,
            sets.tracks(index_pairs(*nodes, i as int)),
        decreases n - i,
    {
        let ghost here = index_pairs(*nodes, i as int);
        let ghost next = index_pairs(*nodes, i + 1);
        proof {
            nodes.lemma_entry(i as int);
            assert(!dangling(nodes@, nodes.keys@[i as int]@));
        }
        match &nodes.values[i].parent {
            Some(link) => {
                match nodes.find(&link.parent) {
                    Some(j) => {
                        let ghost more = union_find::with_edge(here, i as int, j as int);
                        sets.union_edge(i, j, Ghost(here));
                        proof {
                            assert forall|x: int, y: int| #[trigger] more(x, y) <==> next(x, y) by {
                                if next(x, y) && x == i && y != j {
                                    let lo = if y < j { y } else { j as int };
                                    let hi = if y < j { j as int } else { y };
                                    assert(nodes.keys@[lo]@ != nodes.keys@[hi]@);
                                }
                            }
                            assert forall|x: int, y: int| more(x, y) <==> #[trigger] next(x, y) by {
                                assert(more(x, y) <==> next(x, y));
                            }
                            lemma_tracks_same(sets, more, next);
                        }
                    },
                    None => {
                        assert(false);
                    },
                }
            },
            None => {
                proof {
                    lemma_tracks_same(sets, here, next);
                }
            },
        }
        i = i + 1;
    }
    let mut r: Vec<usize> = Vec::new();
    let mut i: usize = 0;
    while i < n
        invariant
            n == nodes.keys@.len(),
            i <= n,
            r@.len() == i,
            sets.wf(),
            sets.size() == n,
            sets.tracks(index_pairs(*nodes, n as int)),
            forall|k: int| 0 <= k < i ==> (#[trigger] r@[k]) == sets.rep(k),
        decreases n - i,
    {
        let ghost before = sets;
        let id: usize = sets.find(i);
        proof {
            assert forall|x: int, y: int| 0 <= x < sets.size() && 0 <= y < sets.size() implies (
            #[trigger] sets.rep(x) == #[trigger] sets.rep(y) <==> union_find::connected(
                index_pairs(*nodes, n as int),
                x,
                y,
            )) by {
                assert(before.rep(x) == before.rep(y) <==> union_find::connected(
                    index_pairs(*nodes, n as int),
                    x,
                    y,
                ));
            }
        }
        r.push(id);
        i = i + 1;
    }
    proof {
        assert forall|k: int| 0 <= k < r@.len() implies (#[trigger] r@[k]) < r@.len()
            && r@[r@[k] as int] == r@[k] by {
            sets.lemma_rep(k);
            assert(r@[k] == sets.rep(k));
            assert(r@[r@[k] as int] == sets.rep(r@[k] as int));
        }
        assert forall|x: int, y: int| 0 <= x < r@.len() && 0 <= y < r@.len() implies (
        #[trigger] r@[x] == #[trigger] r@[y] <==> together(
            nodes@,
            nodes.keys@[x]@,
            nodes.keys@[y]@,
        )) by {
            lemma_walk_by_name(*nodes, x, y);
            assert(r@[x] == sets.rep(x) && r@[y] == sets.rep(y));
        }
    }
    r
}

spec fn ids_ok(nodes: TextMap<NodeBuilder>, ids: Seq<usize>) -> bool {
    &&& ids.len() == nodes.keys@.len()
    &&& forall|i: int| 0 <= i < ids.len() ==> (#[trigger] ids[i]) < ids.len() && ids[ids[i] as int]
        == ids[i]
    &&& forall|i: int, j: int|
        0 <= i < ids.len() && 0 <= j < ids.len() ==> (#[trigger] ids[i] == #[trigger] ids[j]
            <==> together(nodes@, nodes.keys@[i]@, nodes.keys@[j]@))
}

spec fn in_class(
    nodes: TextMap<NodeBuilder>,
    ids: Seq<usize>,
    r: usize,
    upto: int,
    id: Seq<char>,
) -> bool {
    exists|k: int| 0 <= k < upto && #[trigger] ids[k] == r && nodes.keys@[k]@ == id
}

spec fn seeded(nodes: TextMap<NodeBuilder>, ids: Seq<usize>, upto: int, group: Group) -> bool {
    exists|k: int|
        0 <= k < upto && #[trigger] ids[k] == k && text::holds_text(
            group.members@,
            nodes.keys@[k]@,
        )
}

/// The members of the component represented by `r`, in text order.
fn members_of(nodes: &TextMap<NodeBuilder>, ids: &Vec<usize>, r: usize) -> (members: Vec<String>)
    requires
        nodes.wf(),
        ids_ok(*nodes, ids@),
        r < ids@.len(),
        ids@[r as int] == r,
    ensures
        is_component(nodes@, members@),
        text::holds_text(members@, nodes.keys@[r as int]@),
{
    let mut members: Vec<String> = Vec::new();
    let mut i: usize = 0;
    while i < ids.len()
        invariant
            nodes.wf(),
            ids_ok(*nodes, ids@),
            i <= ids@.len(),
            text::sorted_texts(members@),
            forall|m: int|
                0 <= m < members@.len() ==> in_class(
                    *nodes,
                    ids@,
                    r,
                    i as int,
                    (#[trigger] members@[m])@,
                ),
            forall|k: int|
                0 <= k < i && (#[trigger] ids@[k]) == r ==> text::holds_text(
                    members@,
                    nodes.keys@[k]@,
                ),
            forall|m: int, l: int|
                0 <= m < l < members@.len() ==> (#[trigger] members@[m])@ != (
                #[trigger] members@[l])@,
        decreases ids@.len() - i,
    {
        if ids[i] == r {
            let ghost before = members@;
            let item: String = nodes.keys[i].clone();
            text::insert_sorted(&mut members, item);
            proof {
                let p = choose|p: int|
                    0 <= p <= before.len() && members@ == #[trigger] before.insert(p, item);
                assert(members@[p] == item);
                assert forall|m: int| 0 <= m < members@.len() implies in_class(
                    *nodes,
                    ids@,
                    r,
                    i + 1,
                    (#[trigger] members@[m])@,
                ) by {
                    if m == p {
                        assert(ids@[i as int] == r && nodes.keys@[i as int]@ == members@[m]@);
                    } else {
                        let q = if m < p { m } else { m - 1 };
                        assert(members@[m] == before[q]);
                        assert(in_class(*nodes, ids@, r, i as int, before[q]@));
                    }
                }
                assert forall|k: int| 0 <= k < i + 1 && (#[trigger] ids@[k])
                    == r implies text::holds_text(members@, nodes.keys@[k]@) by {
                    if k < i {
                        let q = choose|q: int|
                            0 <= q < before.len() && (#[trigger] before[q])@ == nodes.keys@[k]@;
                        let m = if q < p { q } else { q + 1 };
                        assert(members@[m] == before[q]);
                    } else {
                        assert(members@[p]@ == nodes.keys@[k]@);
                    }
                }
                assert forall|q: int| 0 <= q < before.len() implies (#[trigger] before[q])@
                    != item@ by {
                    assert(in_class(*nodes, ids@, r, i as int, before[q]@));
                    let k = choose|k: int|
                        0 <= k < i && #[trigger] ids@[k] == r && nodes.keys@[k]@ == before[q]@;
                    assert(nodes.keys@[k]@ != nodes.keys@[i as int]@);
                }
                assert forall|m: int, l: int| 0 <= m < l < members@.len() implies (
                #[trigger] members@[m])@ != (#[trigger] members@[l])@ by {
                    let a = if m < p { m } else { m - 1 };
                    let b = if l < p { l } else { l - 1 };
                    if m == p {
                        assert(members@[l] == before[b]);
                    } else if l == p {
                        assert(members@[m] == before[a]);
                    } else {
                        assert(members@[m] == before[a] && members@[l] == before[b]);
                    }
                }
            }
        }
        i = i + 1;
    }
    proof {
        assert(ids@[r as int] == r);
        assert(text::holds_text(members@, nodes.keys@[r as int]@));
        assert forall|m: int, l: int| 0 <= m < l < members@.len() implies text::text_less(
            (#[trigger] members@[m])@,
            (#[trigger] members@[l])@,
        ) by {
            text::law_text_order(members@[m]@, members@[l]@, members@[m]@);
        }
        assert forall|m: int| 0 <= m < members@.len() implies nodes@.contains_key(
            (#[trigger] members@[m])@,
        ) by {
            assert(in_class(*nodes, ids@, r, i as int, members@[m]@));
            let k = choose|k: int|
                0 <= k < i && #[trigger] ids@[k] == r && nodes.keys@[k]@ == members@[m]@;
            nodes.lemma_entry(k);
        }
        assert forall|m: int, id: Seq<char>|
            0 <= m < members@.len() && nodes@.contains_key(id) implies (text::holds_text(
            members@,
            id,
        ) <==> #[trigger] together(nodes@, members@[m]@, id)) by {
            assert(in_class(*nodes, ids@, r, i as int, members@[m]@));
            let k = choose|k: int|
                0 <= k < i && #[trigger] ids@[k] == r && nodes.keys@[k]@ == members@[m]@;
            let q = textmap::key_index(nodes.keys@, id);
            assert(0 <= q < nodes.keys@.len() && nodes.keys@[q]@ == id);
            assert(ids@[k] == ids@[q] <==> together(nodes@, members@[m]@, id));
            if text::holds_text(members@, id) {
                let l = choose|l: int| 0 <= l < members@.len() && (#[trigger] members@[l])@ == id;
                assert(in_class(*nodes, ids@, r, i as int, members@[l]@));
                let z = choose|z: int|
                    0 <= z < i && #[trigger] ids@[z] == r && nodes.keys@[z]@ == members@[l]@;
                nodes.lemma_entry(z);
                nodes.lemma_entry(q);
                assert(z == q);
            }
        }
    }
    members
}

/// The parentless members.
fn roots_of(nodes: &TextMap<NodeBuilder>, members: &Vec<String>) -> (roots: Vec<String>)
    requires
        nodes.wf(),
        is_component(nodes@, members@),
    ensures
        roots@.len() == count_roots(nodes@, members@),
        roots@.len() == 1 ==> is_root_of(nodes@, members@, roots@[0]@),
        roots@.len() != 1 ==> !rooted(nodes@),
{
    let mut roots: Vec<String> = Vec::new();
    let ghost mut pos: Seq<int> = Seq::empty();
    let mut i: usize = 0;
    assert(members@.take(0) =~= Seq::<String>::empty());
    while i < members.len()
        invariant
            nodes.wf(),
            is_component(nodes@, members@),
            i <= members@.len(),
            roots@.len() == count_roots(nodes@, members@.take(i as int)),
            pos.len() == roots@.len(),
            forall|k: int|
                0 <= k < pos.len() ==> 0 <= (#[trigger] pos[k]) < i && roots@[k]
                    == members@[pos[k]] && nodes@[members@[pos[k]]@].parent is None,
            forall|k: int, l: int| 0 <= k < l < pos.len() ==> #[trigger] pos[k] < #[trigger] pos[l],
            forall|j: int|
                0 <= j < i && nodes@[(#[trigger] members@[j])@].parent is None ==> pos.contains(j),
        decreases members@.len() - i,
    {
        assert(members@.take(i + 1).drop_last() =~= members@.take(i as int));
        assert(nodes@.contains_key(members@[i as int]@));
        let parentless: bool = match nodes.get(&members[i]) {
            Some(builder) => builder.parent.is_none(),
            None => false,
        };
        if parentless {
            roots.push(members[i].clone());
            proof {
                let before = pos;
                pos = pos.push(i as int);
                assert(pos[before.len() as int] == i);
                assert forall|j: int| 0 <= j < i + 1 && nodes@[(
                #[trigger] members@[j])@].parent is None implies pos.contains(j) by {
                    if j < i {
                        let k = choose|k: int| 0 <= k < before.len() && before[k] == j;
                        assert(pos[k] == j);
                    }
                }
            }
        }
        i = i + 1;
    }
    assert(members@.take(i as int) =~= members@);
    proof {
        if roots@.len() == 1 {
            assert(members@[pos[0]] == roots@[0]);
            assert forall|j: int| 0 <= j < members@.len() implies (nodes@[(
            #[trigger] members@[j])@].parent is None <==> members@[j]@ == roots@[0]@) by {
                if nodes@[members@[j]@].parent is None {
                    let k = choose|k: int| 0 <= k < pos.len() && pos[k] == j;
                    assert(k == 0);
                }
            }
        } else if rooted(nodes@) {
            let first = members@[0]@;
            assert(nodes@.contains_key(first));
            let r = choose|r: Seq<char>|
                #![trigger nodes@[r]]
                nodes@.contains_key(r) && nodes@[r].parent is None && together(nodes@, first, r);
            assert(members@[0]@ == first && nodes@.contains_key(r));
            assert(text::holds_text(members@, r));
            let j = choose|j: int| 0 <= j < members@.len() && (#[trigger] members@[j])@ == r;
            assert(pos.contains(j));
            assert(pos.len() >= 2);
            let a = members@[pos[0]];
            let b = members@[pos[1]];
            assert(pos[0] < pos[1]);
            assert(text::text_less(a@, b@));
            text::law_text_order(a@, b@, a@);
            assert(nodes@.contains_key(a@) && nodes@.contains_key(b@));
            assert(text::holds_text(members@, b@));
            assert(together(nodes@, a@, b@));
            assert(nodes@[a@].parent is None && nodes@[b@].parent is None);
        }
    }
    roots
}

/// Insert a group, keeping larger groups first.
fn insert_group(groups: &mut Vec<Group>, group: Group)
    requires
        groups_sorted(old(groups)@),
        forall|g: int|
            0 <= g < old(groups)@.len() ==> (#[trigger] old(groups)@[g]).root@ != group.root@,
    ensures
        groups_sorted(final(groups)@),
        exists|p: int|
            0 <= p <= old(groups)@.len() && final(groups)@ == #[trigger] old(groups)@.insert(
                p,
                group,
            ),
{
    let ghost before = groups@;
    let mut p: usize = 0;
    while p < groups.len() && !(group.members.len() > groups[p].members.len() || (
    group.members.len() == groups[p].members.len() && text::text_before(
        &group.root,
        &groups[p].root,
    )))
        invariant
            p <= groups@.len(),
            groups@ == before,
            forall|j: int|
                0 <= j < p ==> !comes_before(
                    group.members@.len(),
                    group.root@,
                    (#[trigger] before[j]).members@.len(),
                    before[j].root@,
                ),
        decreases groups@.len() - p,
    {
        p = p + 1;
    }
    groups.insert(p, group);
    proof {
        let after = before.insert(p as int, group);
        assert forall|g: int, h: int| 0 <= g < h < after.len() implies comes_before(
            (#[trigger] after[g]).members@.len(),
            after[g].root@,
            (#[trigger] after[h]).members@.len(),
            after[h].root@,
        ) by {
            if h == p {
                assert(after[g] == before[g]);
                text::law_text_order(before[g].root@, group.root@, group.root@);
            } else if g == p {
                assert(after[h] == before[h - 1]);
                if h - 1 > p {
                    assert(comes_before(
                        before[p as int].members@.len(),
                        before[p as int].root@,
                        before[h - 1].members@.len(),
                        before[h - 1].root@,
                    ));
                    text::law_text_order(group.root@, before[p as int].root@, before[h - 1].root@);
                }
            } else {
                let x = if g < p { g } else { g - 1 };
                let y = if h < p { h } else { h - 1 };
                assert(after[g] == before[x] && after[h] == before[y]);
            }
        }
    }
}

spec fn in_some_group(groups: Seq<Group>, id: Seq<char>) -> bool {
    exists|g: int| 0 <= g < groups.len() && text::holds_text((#[trigger] groups[g]).members@, id)
}

spec fn groups_ok(nodes: Nodes, groups: Seq<Group>) -> bool {
    &&& forall|g: int| 0 <= g < groups.len() ==> group_ok(nodes, #[trigger] groups[g])
    &&& groups_apart(nodes, groups)
    &&& forall|id: Seq<char>| #[trigger] nodes.contains_key(id) ==> in_some_group(groups, id)
}

proof fn lemma_root_exists(nodes: Nodes, groups: Seq<Group>, a: Seq<char>) -> (r: Seq<char>)
    requires
        groups_ok(nodes, groups),
        nodes.contains_key(a),
    ensures
        nodes.contains_key(r),
        nodes[r].parent is None,
        together(nodes, a, r),
{
    assert(in_some_group(groups, a));
    let g = choose|g: int|
        0 <= g < groups.len() && text::holds_text((#[trigger] groups[g]).members@, a);
    let members = groups[g].members@;
    let root = groups[g].root@;
    assert(group_ok(nodes, groups[g]));
    lemma_root_together(nodes, groups[g], a);
    union_find::law_connected_symmetric(parent_pairs(nodes), root, a);
    let k = choose|k: int| 0 <= k < members.len() && (#[trigger] members[k])@ == root;
    assert(members[k]@ == root);
    root
}

proof fn lemma_root_unique(nodes: Nodes, groups: Seq<Group>, a: Seq<char>, b: Seq<char>)
    requires
        groups_ok(nodes, groups),
        nodes.contains_key(a),
        nodes.contains_key(b),
        nodes[a].parent is None,
        nodes[b].parent is None,
        together(nodes, a, b),
    ensures
        a == b,
{
    assert(in_some_group(groups, a));
    let g = choose|g: int|
        0 <= g < groups.len() && text::holds_text((#[trigger] groups[g]).members@, a);
    let members = groups[g].members@;
    assert(group_ok(nodes, groups[g]));
    let i = choose|i: int| 0 <= i < members.len() && (#[trigger] members[i])@ == a;
    assert(together(nodes, members[i]@, b));
    assert(text::holds_text(members, b));
    let k = choose|k: int| 0 <= k < members.len() && (#[trigger] members[k])@ == b;
    assert(members[i]@ == groups[g].root@);
    assert(members[k]@ == groups[g].root@);
}

proof fn lemma_groups_rooted(nodes: Nodes, groups: Seq<Group>)
    requires
        groups_ok(nodes, groups),
    ensures
        rooted(nodes),
{
    assert forall|a: Seq<char>| #[trigger] nodes.contains_key(a) implies exists|r: Seq<char>|
        #![trigger nodes[r]]
        nodes.contains_key(r) && nodes[r].parent is None && together(nodes, a, r) by {
        let r = lemma_root_exists(nodes, groups, a);
        assert(nodes[r].parent is None);
    }
    assert forall|a: Seq<char>, b: Seq<char>|
        #![trigger nodes[a], nodes[b]]
        nodes.contains_key(a) && nodes.contains_key(b) && nodes[a].parent is None
            && nodes[b].parent is None && together(nodes, a, b) implies a == b by {
        lemma_root_unique(nodes, groups, a, b);
    }
}

/// Split the nodes into components, each with its root, larger ones first.
fn collect_groups(nodes: &TextMap<NodeBuilder>) -> (r: Result<Vec<Group>, TopologyError>)
    requires
        nodes.wf(),
        forall|id: Seq<char>| !#[trigger] dangling(nodes@, id),
    ensures
        match r {
            Ok(groups) => groups_ok(nodes@, groups@) && groups_sorted(groups@) && rooted(nodes@),
            Err(e) => {
                &&& !rooted(nodes@)
                &&& e matches TopologyError::RootCount { roots, members }
                &&& is_component(nodes@, members@)
                &&& roots == count_roots(nodes@, members@)
                &&& roots != 1
            },
        },
{
    let ids: Vec<usize> = component_ids(nodes);
    let mut groups: Vec<Group> = Vec::new();
    let mut i: usize = 0;
    while i < ids.len()
        invariant
            nodes.wf(),
            ids_ok(*nodes, ids@),
            i <= ids@.len(),
            groups_sorted(groups@),
            groups_apart(nodes@, groups@),
            forall|g: int| 0 <= g < groups@.len() ==> group_ok(nodes@, #[trigger] groups@[g]),
            forall|g: int|
                0 <= g < groups@.len() ==> seeded(*nodes, ids@, i as int, #[trigger] groups@[g]),
            forall|k: int|
                0 <= k < ids@.len() && (#[trigger] ids@[k]) < i ==> in_some_group(
                    groups@,
                    nodes.keys@[k]@,
                ),
        decreases ids@.len() - i,
    {
        if ids[i] == i {
            let members: Vec<String> = members_of(nodes, &ids, i);
            let mut roots: Vec<String> = roots_of(nodes, &members);
            if roots.len() != 1 {
                return Err(TopologyError::RootCount { roots: roots.len(), members });
            }
            let root: String = roots.remove(0);
            let group: Group = Group { root, members };
            let ghost before = groups@;
            proof {
                lemma_new_group_apart(*nodes, ids@, before, group, i as int);
            }
            insert_group(&mut groups, group);
            proof {
                let p = choose|p: int|
                    0 <= p <= before.len() && groups@ == #[trigger] before.insert(p, group);
                lemma_group_inserted(*nodes, ids@, before, group, p, i as int);
            }
        } else {
            assert(ids@[i as int] != i);
            assert forall|k: int| 0 <= k < ids@.len() && (#[trigger] ids@[k])
                < i + 1 implies in_some_group(groups@, nodes.keys@[k]@) by {
                assert(ids@[ids@[k] as int] == ids@[k]);
            }
        }
        i = i + 1;
    }
    proof {
        assert forall|id: Seq<char>| #[trigger] nodes@.contains_key(id) implies in_some_group(
            groups@,
            id,
        ) by {
            let k = textmap::key_index(nodes.keys@, id);
            assert(0 <= k < nodes.keys@.len() && nodes.keys@[k]@ == id);
            assert(ids@[k] < ids@.len());
        }
        lemma_groups_rooted(nodes@, groups@);
    }
    Ok(groups)
}

proof fn lemma_new_group_apart(
    nodes: TextMap<NodeBuilder>,
    ids: Seq<usize>,
    groups: Seq<Group>,
    group: Group,
    i: int,
)
    requires
        nodes.wf(),
        ids_ok(nodes, ids),
        0 <= i < ids.len(),
        ids[i] == i,
        group_ok(nodes@, group),
        text::holds_text(group.members@, nodes.keys@[i]@),
        forall|g: int| 0 <= g < groups.len() ==> group_ok(nodes@, #[trigger] groups[g]),
        forall|g: int| 0 <= g < groups.len() ==> seeded(nodes, ids, i, #[trigger] groups[g]),
    ensures
        forall|g: int|
            0 <= g < groups.len() ==> !together(nodes@, (#[trigger] groups[g]).root@, group.root@)
                && !together(nodes@, group.root@, groups[g].root@) && groups[g].root@
                != group.root@,
{
    assert forall|g: int| 0 <= g < groups.len() implies !together(
        nodes@,
        (#[trigger] groups[g]).root@,
        group.root@,
    ) && !together(nodes@, group.root@, groups[g].root@) && groups[g].root@ != group.root@ by {
        let other = groups[g];
        assert(seeded(nodes, ids, i, other));
        let k = choose|k: int|
            0 <= k < i && #[trigger] ids[k] == k && text::holds_text(
                other.members@,
                nodes.keys@[k]@,
            );
        nodes.lemma_entry(k);
        nodes.lemma_entry(i);
        lemma_root_together(nodes@, other, nodes.keys@[k]@);
        lemma_root_together(nodes@, group, nodes.keys@[i]@);
        let pairs = parent_pairs(nodes@);
        let x = nodes.keys@[k]@;
        let y = nodes.keys@[i]@;
        if together(nodes@, other.root@, group.root@) || together(
            nodes@,
            group.root@,
            other.root@,
        ) || other.root@ == group.root@ {
            if together(nodes@, group.root@, other.root@) {
                union_find::law_connected_symmetric(pairs, group.root@, other.root@);
            } else if other.root@ == group.root@ {
                union_find::law_connected_reflexive(pairs, group.root@);
            }
            union_find::law_connected_symmetric(pairs, other.root@, x);
            union_find::law_connected_transitive(pairs, x, other.root@, group.root@);
            union_find::law_connected_transitive(pairs, x, group.root@, y);
            assert(ids[k] == ids[i]);
        }
    }
}

proof fn lemma_root_together(nodes: Nodes, group: Group, id: Seq<char>)
    requires
        group_ok(nodes, group),
        nodes.contains_key(id),
        text::holds_text(group.members@, id),
    ensures
        together(nodes, group.root@, id),
        nodes.contains_key(group.root@),
{
    let members = group.members@;
    let k = choose|k: int| 0 <= k < members.len() && (#[trigger] members[k])@ == group.root@;
    assert(members[k]@ == group.root@);
    assert(nodes.contains_key(members[k]@));
    assert(together(nodes, members[k]@, id));
}

proof fn lemma_group_inserted(
    nodes: TextMap<NodeBuilder>,
    ids: Seq<usize>,
    before: Seq<Group>,
    group: Group,
    p: int,
    i: int,
)
    requires
        nodes.wf(),
        ids_ok(nodes, ids),
        0 <= i < ids.len(),
        ids[i] == i,
        0 <= p <= before.len(),
        group_ok(nodes@, group),
        text::holds_text(group.members@, nodes.keys@[i]@),
        groups_apart(nodes@, before),
        forall|g: int| 0 <= g < before.len() ==> group_ok(nodes@, #[trigger] before[g]),
        forall|g: int| 0 <= g < before.len() ==> seeded(nodes, ids, i, #[trigger] before[g]),
        forall|k: int|
            0 <= k < ids.len() && (#[trigger] ids[k]) < i ==> in_some_group(
                before,
                nodes.keys@[k]@,
            ),
        forall|g: int|
            0 <= g < before.len() ==> !together(nodes@, (#[trigger] before[g]).root@, group.root@)
                && !together(nodes@, group.root@, before[g].root@),
    ensures
        ({
            let after = before.insert(p, group);
            &&& groups_apart(nodes@, after)
            &&& forall|g: int| 0 <= g < after.len() ==> group_ok(nodes@, #[trigger] after[g])
            &&& forall|g: int|
                0 <= g < after.len() ==> seeded(nodes, ids, i + 1, #[trigger] after[g])
            &&& forall|k: int|
                0 <= k < ids.len() && (#[trigger] ids[k]) < i + 1 ==> in_some_group(
                    after,
                    nodes.keys@[k]@,
                )
        }),
{
    let after = before.insert(p, group);
    assert(after[p] == group);
    assert forall|g: int| 0 <= g < after.len() && g != p implies #[trigger] after[g] == before[if g
        < p {
        g
    } else {
        g - 1
    }] by {}
    assert forall|g: int| 0 <= g < after.len() implies group_ok(nodes@, #[trigger] after[g]) by {
        if g != p {
            let q = if g < p { g } else { g - 1 };
            assert(after[g] == before[q]);
        }
    }
    assert forall|g: int, h: int|
        0 <= g < after.len() && 0 <= h < after.len() && g != h implies !together(
        nodes@,
        (#[trigger] after[g]).root@,
        (#[trigger] after[h]).root@,
    ) by {
        let x = if g < p { g } else { g - 1 };
        let y = if h < p { h } else { h - 1 };
        if g == p {
            assert(after[h] == before[y]);
        } else if h == p {
            assert(after[g] == before[x]);
        } else {
            assert(after[g] == before[x] && after[h] == before[y]);
        }
    }
    assert forall|g: int| 0 <= g < after.len() implies seeded(
        nodes,
        ids,
        i + 1,
        #[trigger] after[g],
    ) by {
        if g == p {
            assert(ids[i] == i && text::holds_text(after[g].members@, nodes.keys@[i]@));
        } else {
            let q = if g < p { g } else { g - 1 };
            assert(after[g] == before[q]);
            assert(seeded(nodes, ids, i, before[q]));
        }
    }
    assert forall|k: int| 0 <= k < ids.len() && (#[trigger] ids[k]) < i
        + 1 implies in_some_group(after, nodes.keys@[k]@) by {
        if ids[k] < i {
            assert(in_some_group(before, nodes.keys@[k]@));
            let q = choose|q: int|
                0 <= q < before.len() && text::holds_text(
                    (#[trigger] before[q]).members@,
                    nodes.keys@[k]@,
                );
            let g = if q < p { q } else { q + 1 };
            assert(after[g] == before[q]);
            assert(text::holds_text(after[g].members@, nodes.keys@[k]@));
        } else {
            assert(ids[k] == ids[i]);
            nodes.lemma_entry(k);
            nodes.lemma_entry(i);
            lemma_root_together(nodes@, group, nodes.keys@[i]@);
            let m = choose|m: int|
                0 <= m < group.members@.len() && (#[trigger] group.members@[m])@
                    == nodes.keys@[i]@;
            assert(together(nodes@, nodes.keys@[i]@, nodes.keys@[k]@));
            assert(group.members@[m]@ == nodes.keys@[i]@);
            assert(text::holds_text(group.members@, nodes.keys@[k]@));
            assert(text::holds_text(after[p].members@, nodes.keys@[k]@));
        }
    }
}

/// Some node links to `id` at `slot`.
pub open spec fn slot_used(nodes: Nodes, id: Seq<char>, slot: int) -> bool {
    exists|child: Seq<char>| #[trigger]
        nodes.contains_key(child) && nodes[child].parent is Some
            && nodes[child].parent->0.parent@ == id && nodes[child].parent->0.slot == slot
}

/// The ascending slots under `id`.
pub open spec fn are_child_slots(nodes: Nodes, id: Seq<char>, slots: Seq<u8>) -> bool {
    &&& forall|i: int, j: int|
        0 <= i < j < slots.len() ==> (#[trigger] slots[i]) < (#[trigger] slots[j])
    &&& forall|s: u8| #[trigger] slots.contains(s) <==> s <= MAX_SLOT && slot_used(nodes, id, s as int)
}

/// A component's row for one node says what the links say.
pub open spec fn row_ok(nodes: Nodes, row: TopoNode) -> bool {
    let id = row.node_id@;
    &&& nodes.contains_key(id)
    &&& row.kind == nodes[id].kind
    &&& match nodes[id].parent {
        Some(link) => row.parent is Some && row.parent->0@ == link.parent@ && row.slot == Some(
            link.slot,
        ),
        None => row.parent is None && row.slot is None,
    }
    &&& are_child_slots(nodes, id, row.children@)
}

/// The ids of a component's nodes.
pub open spec fn ids_of(component: NetComponent) -> Seq<String> {
    component.nodes@.map_values(|row: TopoNode| row.node_id)
}

/// The lister of the first stale row for `child`.
pub open spec fn first_lister(stale: Seq<StaleLink>, child: Seq<char>) -> Option<Seq<char>>
    decreases stale.len(),
{
    if stale.len() == 0 {
        None
    } else if stale[0].child@ == child {
        Some(stale[0].parent@)
    } else {
        first_lister(stale.drop_first(), child)
    }
}

/// A whole component with its root and rows. Only an island reports the parent
/// that it was severed from.
pub open spec fn component_ok(
    nodes: Nodes,
    stale: Seq<StaleLink>,
    component: NetComponent,
    island: bool,
) -> bool {
    &&& is_component(nodes, ids_of(component))
    &&& is_root_of(nodes, ids_of(component), component.root@)
    &&& forall|i: int|
        0 <= i < component.nodes@.len() ==> row_ok(nodes, #[trigger] component.nodes@[i])
    &&& match component.stranded_parent {
        Some(parent) => island && first_lister(stale, component.root@) == Some(parent@),
        None => island ==> first_lister(stale, component.root@) is None,
    }
}

/// Larger components first, components of one size by root.
pub open spec fn components_sorted(components: Seq<NetComponent>) -> bool {
    forall|c: int, d: int|
        0 <= c < d < components.len() ==> comes_before(
            (#[trigger] components[c]).nodes@.len(),
            components[c].root@,
            (#[trigger] components[d]).nodes@.len(),
            components[d].root@,
        )
}

/// The list with its first and its `p`-th entry exchanged.
pub open spec fn exchanged<T>(items: Seq<T>, p: int) -> Seq<T> {
    items.update(0, items[p]).update(p, items[0])
}

/// The components partition the nodes, and the primary one is first: the
/// designated one, or the largest.
pub open spec fn partition_ok(
    nodes: Nodes,
    stale: Seq<StaleLink>,
    primary: Option<Seq<char>>,
    components: Seq<NetComponent>,
) -> bool {
    &&& components.len() > 0
    &&& forall|c: int|
        0 <= c < components.len() ==> component_ok(nodes, stale, #[trigger] components[c], c > 0)
    &&& forall|c: int, d: int|
        0 <= c < components.len() && 0 <= d < components.len() && c != d ==> !together(
            nodes,
            (#[trigger] components[c]).root@,
            (#[trigger] components[d]).root@,
        )
    &&& forall|id: Seq<char>| #[trigger]
        nodes.contains_key(id) ==> exists|c: int|
            0 <= c < components.len() && text::holds_text(
                ids_of(#[trigger] components[c]),
                id,
            )
    &&& exists|p: int|
        0 <= p < components.len() && components_sorted(#[trigger] exchanged(components, p))
            && match primary {
            Some(id) => text::holds_text(ids_of(components[0]), id),
            None => p == 0,
        }
}

/// The ascending slots under `id`.
fn child_slots(nodes: &TextMap<NodeBuilder>, id: &String) -> (r: Vec<u8>)
    requires
        nodes.wf(),
    ensures
        are_child_slots(nodes@, id@, r@),
{
    let mut r: Vec<u8> = Vec::new();
    let mut slot: u8 = 0;
    while slot <= MAX_SLOT
        invariant
            nodes.wf(),
            slot <= MAX_SLOT + 1,
            forall|i: int| 0 <= i < r@.len() ==> (#[trigger] r@[i]) < slot,
            forall|i: int, j: int|
                0 <= i < j < r@.len() ==> (#[trigger] r@[i]) < (#[trigger] r@[j]),
            forall|s: u8| #[trigger]
                r@.contains(s) <==> s < slot && slot_used(nodes@, id@, s as int),
        decreases MAX_SLOT + 1 - slot,
    {
        let mut used: bool = false;
        let mut i: usize = 0;
        while i < nodes.keys.len()
            invariant
                nodes.wf(),
                i <= nodes.keys@.len(),
                used == (exists|k: int|
                    0 <= k < i && (#[trigger] nodes.values@[k]).parent is Some
                        && nodes.values@[k].parent->0.parent@ == id@
                        && nodes.values@[k].parent->0.slot == slot),
            decreases nodes.keys@.len() - i,
        {
            match &nodes.values[i].parent {
                Some(link) => {
                    if link.parent == *id && link.slot == slot {
                        used = true;
                    }
                },
                None => {},
            }
            i = i + 1;
        }
        proof {
            if used {
                let k = choose|k: int|
                    0 <= k < i && (#[trigger] nodes.values@[k]).parent is Some
                        && nodes.values@[k].parent->0.parent@ == id@
                        && nodes.values@[k].parent->0.slot == slot;
                nodes.lemma_entry(k);
                assert(nodes@.contains_key(nodes.keys@[k]@));
            }
            if slot_used(nodes@, id@, slot as int) {
                let child = choose|child: Seq<char>| #[trigger]
                    nodes@.contains_key(child) && nodes@[child].parent is Some
                        && nodes@[child].parent->0.parent@ == id@ && nodes@[child].parent->0.slot
                        == slot as int;
                let k = textmap::key_index(nodes.keys@, child);
                assert(nodes.keys@[k]@ == child);
                nodes.lemma_entry(k);
                assert(nodes.values@[k].parent is Some);
            }
        }
        let ghost before = r@;
        if used {
            r.push(slot);
            proof {
                assert(r@[before.len() as int] == slot);
                assert forall|s: u8| #[trigger] r@.contains(s) <==> s < slot + 1 && slot_used(
                    nodes@,
                    id@,
                    s as int,
                ) by {
                    if r@.contains(s) {
                        let k = choose|k: int| 0 <= k < r@.len() && r@[k] == s;
                        if k < before.len() {
                            assert(before[k] == s);
                            assert(before.contains(s));
                        }
                    }
                    if before.contains(s) {
                        let k = choose|k: int| 0 <= k < before.len() && before[k] == s;
                        assert(r@[k] == s);
                    }
                }
            }
        } else {
            assert forall|s: u8| #[trigger] r@.contains(s) <==> s < slot + 1 && slot_used(
                nodes@,
                id@,
                s as int,
            ) by {}
        }
        slot = slot + 1;
    }
    r
}

/// The row of one node.
fn node_row(nodes: &TextMap<NodeBuilder>, id: &String) -> (r: TopoNode)
    requires
        nodes.wf(),
        nodes@.contains_key(id@),
    ensures
        row_ok(nodes@, r),
        r.node_id == *id,
{
    let children: Vec<u8> = child_slots(nodes, id);
    match nodes.get(id) {
        Some(builder) => {
            let (parent, slot): (Option<String>, Option<u8>) = match &builder.parent {
                Some(link) => (Some(link.parent.clone()), Some(link.slot)),
                None => (None, None),
            };
            TopoNode { node_id: id.clone(), kind: builder.kind, parent, slot, children }
        },
        None => TopoNode {
            node_id: id.clone(),
            kind: ChildKind::Node,
            parent: None,
            slot: None,
            children,
        },
    }
}

proof fn lemma_first_lister(stale: Seq<StaleLink>, child: Seq<char>, k: int)
    requires
        0 <= k <= stale.len(),
        forall|i: int| 0 <= i < k ==> (#[trigger] stale[i]).child@ != child,
    ensures
        k == stale.len() ==> first_lister(stale, child) is None,
        k < stale.len() && stale[k].child@ == child ==> first_lister(stale, child) == Some(
            stale[k].parent@,
        ),
    decreases stale.len(),
{
    if stale.len() > 0 && k > 0 {
        assert(stale[0].child@ != child);
        let rest = stale.drop_first();
        assert forall|i: int| 0 <= i < k - 1 implies (#[trigger] rest[i]).child@ != child by {
            assert(rest[i] == stale[i + 1]);
        }
        lemma_first_lister(rest, child, k - 1);
        if k < stale.len() {
            assert(rest[k - 1] == stale[k]);
        }
    }
}

/// The lister of the first stale row for `child`.
fn find_lister(stale: &Vec<StaleLink>, child: &String) -> (r: Option<String>)
    ensures
        match r {
            Some(parent) => first_lister(stale@, child@) == Some(parent@),
            None => first_lister(stale@, child@) is None,
        },
{
    let mut i: usize = 0;
    while i < stale.len()
        invariant
            i <= stale@.len(),
            forall|j: int| 0 <= j < i ==> (#[trigger] stale@[j]).child@ != child@,
        decreases stale@.len() - i,
    {
        if stale[i].child == *child {
            proof {
                lemma_first_lister(stale@, child@, i as int);
            }
            return Some(stale[i].parent.clone());
        }
        i = i + 1;
    }
    proof {
        lemma_first_lister(stale@, child@, i as int);
    }
    None
}

/// Turn a group into a component.
fn component_from(
    nodes: &TextMap<NodeBuilder>,
    stale: &Vec<StaleLink>,
    group: &Group,
    island: bool,
) -> (r: NetComponent)
    requires
        nodes.wf(),
        group_ok(nodes@, *group),
    ensures
        component_ok(nodes@, stale@, r, island),
        r.root == group.root,
        ids_of(r) == group.members@,
        r.nodes@.len() == group.members@.len(),
{
    let mut rows: Vec<TopoNode> = Vec::new();
    let mut i: usize = 0;
    while i < group.members.len()
        invariant
            nodes.wf(),
            group_ok(nodes@, *group),
            i <= group.members@.len(),
            rows@.len() == i,
            forall|k: int|
                0 <= k < i ==> row_ok(nodes@, #[trigger] rows@[k]) && rows@[k].node_id
                    == group.members@[k],
        decreases group.members@.len() - i,
    {
        assert(nodes@.contains_key(group.members@[i as int]@));
        rows.push(node_row(nodes, &group.members[i]));
        i = i + 1;
    }
    let stranded_parent: Option<String> = if island {
        find_lister(stale, &group.root)
    } else {
        None
    };
    let r: NetComponent = NetComponent { root: group.root.clone(), nodes: rows, stranded_parent };
    assert(ids_of(r) =~= group.members@);
    r
}

/// The group that holds `id`.
fn group_with(groups: &Vec<Group>, id: &String) -> (r: Option<usize>)
    ensures
        match r {
            Some(p) => p < groups@.len() && text::holds_text(groups@[p as int].members@, id@),
            None => !in_some_group(groups@, id@),
        },
{
    let mut i: usize = 0;
    while i < groups.len()
        invariant
            i <= groups@.len(),
            forall|g: int|
                0 <= g < i ==> !text::holds_text((#[trigger] groups@[g]).members@, id@),
        decreases groups@.len() - i,
    {
        if text::list_holds(&groups[i].members, id) {
            return Some(i);
        }
        i = i + 1;
    }
    None
}

/// Exchange the first group with the `p`-th.
fn exchange_groups(groups: &mut Vec<Group>, p: usize)
    requires
        p < old(groups)@.len(),
    ensures
        final(groups)@ == exchanged(old(groups)@, p as int),
{
    let ghost before = groups@;
    if p > 0 {
        let chosen: Group = groups.remove(p);
        let first: Group = groups.remove(0);
        groups.insert(0, chosen);
        groups.insert(p, first);
    }
    assert(groups@ =~= exchanged(before, p as int));
}

/// What the records come to: their first fault, the first link that leads nowhere,
/// a part without exactly one root, an unknown primary, or the partition.
pub open spec fn comes_to(
    records: Seq<NodeRecord>,
    primary: Option<Seq<char>>,
    r: Result<TopologyPartition, TopologyError>,
) -> bool {
    match graph_of(records) {
        Err(fault) => r matches Err(e) && e.is_fault(fault),
        Ok(graph) => match r {
            Ok(partition) => {
                &&& forall|id: Seq<char>| !#[trigger] dangling(graph.nodes, id)
                &&& rooted(graph.nodes)
                &&& primary matches Some(id) ==> graph.nodes.contains_key(id)
                &&& partition.findings@ == graph.stale
                &&& partition_ok(graph.nodes, graph.stale, primary, partition.components@)
            },
            Err(TopologyError::MissingParent { child, parent }) => {
                &&& first_dangling(graph.nodes, child@)
                &&& parent@ == graph.nodes[child@].parent->0.parent@
            },
            Err(TopologyError::RootCount { roots, members }) => {
                &&& forall|id: Seq<char>| !#[trigger] dangling(graph.nodes, id)
                &&& !rooted(graph.nodes)
                &&& is_component(graph.nodes, members@)
                &&& roots == count_roots(graph.nodes, members@)
                &&& roots != 1
            },
            Err(TopologyError::UnknownPrimary(root)) => {
                &&& forall|id: Seq<char>| !#[trigger] dangling(graph.nodes, id)
                &&& rooted(graph.nodes)
                &&& primary matches Some(id) && root@ == id && !graph.nodes.contains_key(id)
            },
            Err(_) => false,
        },
    }
}

/// Collect the links, group what they connect and lay out the components.
fn partition_of(records: &[NodeRecord], primary_root: Option<&String>) -> (r: Result<
    TopologyPartition,
    TopologyError,
>)
    requires
        records@.len() > 0 || primary_root is Some,
    ensures
        match graph_of(records@) {
            Err(fault) => r matches Err(e) && e.is_fault(fault),
            Ok(graph) => match r {
                Ok(partition) => {
                    &&& forall|id: Seq<char>| !#[trigger] dangling(graph.nodes, id)
                    &&& rooted(graph.nodes)
                    &&& primary_root matches Some(id) ==> graph.nodes.contains_key(id@)
                    &&& partition.findings@ == graph.stale
                    &&& partition_ok(
                        graph.nodes,
                        graph.stale,
                        match primary_root {
                            Some(id) => Some(id@),
                            None => None,
                        },
                        partition.components@,
                    )
                },
                Err(TopologyError::MissingParent { child, parent }) => {
                    &&& first_dangling(graph.nodes, child@)
                    &&& parent@ == graph.nodes[child@].parent->0.parent@
                },
                Err(TopologyError::RootCount { roots, members }) => {
                    &&& forall|id: Seq<char>| !#[trigger] dangling(graph.nodes, id)
                    &&& !rooted(graph.nodes)
                    &&& is_component(graph.nodes, members@)
                    &&& roots == count_roots(graph.nodes, members@)
                    &&& roots != 1
                },
                Err(TopologyError::UnknownPrimary(root)) => {
                    &&& forall|id: Seq<char>| !#[trigger] dangling(graph.nodes, id)
                    &&& rooted(graph.nodes)
                    &&& primary_root matches Some(id) && root@ == id@
                        && !graph.nodes.contains_key(id@)
                },
                Err(_) => false,
            },
        },
{
    let (nodes, stale): (TextMap<NodeBuilder>, Vec<StaleLink>) = match collect_links(records) {
        Ok(collected) => collected,
        Err(e) => return Err(e),
    };
    match find_dangling(&nodes) {
        Some((child, parent)) => return Err(TopologyError::MissingParent { child, parent }),
        None => {},
    }
    let mut groups: Vec<Group> = match collect_groups(&nodes) {
        Ok(groups) => groups,
        Err(e) => return Err(e),
    };
    proof {
        if records@.len() > 0 {
            lemma_records_declared(records@);
            let id = records@[0].node_id@;
            assert(nodes@.contains_key(id));
            assert(in_some_group(groups@, id));
        }
    }
    let p: usize = match primary_root {
        Some(root) => {
            if nodes.find(root).is_none() {
                return Err(TopologyError::UnknownPrimary(root.clone()));
            }
            match group_with(&groups, root) {
                Some(p) => p,
                None => {
                    assert(in_some_group(groups@, root@));
                    0
                },
            }
        },
        None => 0,
    };
    let ghost sorted = groups@;
    exchange_groups(&mut groups, p);
    proof {
        lemma_exchanged_groups_ok(nodes@, sorted, p as int);
    }
    let mut components: Vec<NetComponent> = Vec::new();
    let mut i: usize = 0;
    while i < groups.len()
        invariant
            nodes.wf(),
            groups_ok(nodes@, groups@),
            i <= groups@.len(),
            components@.len() == i,
            forall|c: int|
                0 <= c < i ==> component_ok(nodes@, stale@, #[trigger] components@[c], c > 0)
                    && components@[c].root == groups@[c].root && ids_of(components@[c])
                    == groups@[c].members@ && components@[c].nodes@.len()
                    == groups@[c].members@.len(),
        decreases groups@.len() - i,
    {
        components.push(component_from(&nodes, &stale, &groups[i], i > 0));
        i = i + 1;
    }
    proof {
        assert forall|c: int, d: int|
            0 <= c < components@.len() && 0 <= d < components@.len() && c != d implies !together(
            nodes@,
            (#[trigger] components@[c]).root@,
            (#[trigger] components@[d]).root@,
        ) by {
            assert(components@[c].root == groups@[c].root);
            assert(components@[d].root == groups@[d].root);
        }
        assert forall|id: Seq<char>| #[trigger] nodes@.contains_key(id) implies exists|c: int|
            0 <= c < components@.len() && text::holds_text(
                ids_of(#[trigger] components@[c]),
                id,
            ) by {
            assert(in_some_group(groups@, id));
            let g = choose|g: int|
                0 <= g < groups@.len() && text::holds_text((#[trigger] groups@[g]).members@, id);
            assert(text::holds_text(ids_of(components@[g]), id));
        }
        let back = exchanged(components@, p as int);
        assert forall|c: int, d: int| 0 <= c < d < back.len() implies comes_before(
            (#[trigger] back[c]).nodes@.len(),
            back[c].root@,
            (#[trigger] back[d]).nodes@.len(),
            back[d].root@,
        ) by {
            let x = if c == 0 { p as int } else if c == p { 0 } else { c };
            let y = if d == 0 { p as int } else if d == p { 0 } else { d };
            assert(back[c] == components@[x]);
            assert(back[d] == components@[y]);
            assert(groups@[x] == sorted[c]);
            assert(groups@[y] == sorted[d]);
        }
        assert(components_sorted(exchanged(components@, p as int)));
        assert(ids_of(components@[0]) == groups@[0].members@);
    }
    Ok(TopologyPartition { components, findings: stale })
}

/// Build the components of a network from the records of its nodes.
///
/// `primary_root` designates the primary component by naming any member; when
/// it is `None` the largest component is primary, ties going by root id. Every
/// other component is an island.
pub fn build_topology_partition(records: &[NodeRecord], primary_root: Option<&String>) -> (r: Result<
    TopologyPartition,
    TopologyError,
>)
    requires
        records@.len() > 0 || primary_root is Some,
    ensures
        comes_to(
            records@,
            match primary_root {
                Some(id) => Some(id@),
                None => None,
            },
            r,
        ),
{
    partition_of(records, primary_root)
}

proof fn lemma_exchanged_groups_ok(nodes: Nodes, groups: Seq<Group>, p: int)
    requires
        groups_ok(nodes, groups),
        0 <= p < groups.len(),
    ensures
        groups_ok(nodes, exchanged(groups, p)),
{
    let after = exchanged(groups, p);
    assert forall|g: int| 0 <= g < after.len() implies group_ok(nodes, #[trigger] after[g]) by {
        let x = if g == 0 { p } else if g == p { 0 } else { g };
        assert(after[g] == groups[x]);
    }
    assert forall|g: int, h: int|
        0 <= g < after.len() && 0 <= h < after.len() && g != h implies !together(
        nodes,
        (#[trigger] after[g]).root@,
        (#[trigger] after[h]).root@,
    ) by {
        let x = if g == 0 { p } else if g == p { 0 } else { g };
        let y = if h == 0 { p } else if h == p { 0 } else { h };
        assert(after[g] == groups[x] && after[h] == groups[y]);
    }
    assert forall|id: Seq<char>| #[trigger] nodes.contains_key(id) implies in_some_group(
        after,
        id,
    ) by {
        assert(in_some_group(groups, id));
        let x = choose|x: int|
            0 <= x < groups.len() && text::holds_text((#[trigger] groups[x]).members@, id);
        let g = if x == 0 { p } else if x == p { 0 } else { x };
        assert(after[g] == groups[x]);
        assert(text::holds_text(after[g].members@, id));
    }
}

proof fn lemma_own_links_declare(records: Seq<NodeRecord>, i: int)
    requires
        0 <= i < records.len(),
        own_links(records) is Ok,
    ensures
        own_links(records)->Ok_0.contains_key(records[i].node_id@),
    decreases records.len(),
{
    if i < records.len() - 1 {
        lemma_own_links_declare(records.drop_last(), i);
    }
}

proof fn lemma_rows_keep(graph: Graph, lister: String, rows: Seq<ChildEntry>, id: Seq<char>)
    requires
        graph.nodes.contains_key(id),
        rows_of(graph, lister, rows) is Ok,
    ensures
        rows_of(graph, lister, rows)->Ok_0.nodes.contains_key(id),
    decreases rows.len(),
{
    if rows.len() > 0 {
        lemma_rows_keep(graph, lister, rows.drop_last(), id);
    }
}

proof fn lemma_listed_links_keep(graph: Graph, records: Seq<NodeRecord>, id: Seq<char>)
    requires
        graph.nodes.contains_key(id),
        listed_links(graph, records) is Ok,
    ensures
        listed_links(graph, records)->Ok_0.nodes.contains_key(id),
    decreases records.len(),
{
    if records.len() > 0 {
        lemma_listed_links_keep(graph, records.drop_last(), id);
        lemma_rows_keep(
            listed_links(graph, records.drop_last())->Ok_0,
            records.last().node_id,
            records.last().children@,
            id,
        );
    }
}

proof fn lemma_records_declared(records: Seq<NodeRecord>)
    requires
        records.len() > 0,
        graph_of(records) is Ok,
    ensures
        graph_of(records)->Ok_0.nodes.contains_key(records[0].node_id@),
{
    lemma_own_links_declare(records, 0);
    let start = Graph { nodes: own_links(records)->Ok_0, stale: Seq::<StaleLink>::empty() };
    lemma_listed_links_keep(start, records, records[0].node_id@);
}

proof fn lemma_rows_keep_own(graph: Graph, lister: String, rows: Seq<ChildEntry>, id: Seq<char>)
    requires
        graph.nodes.contains_key(id),
        graph.nodes[id].own,
        rows_of(graph, lister, rows) is Ok,
    ensures
        rows_of(graph, lister, rows)->Ok_0.nodes.contains_key(id),
        rows_of(graph, lister, rows)->Ok_0.nodes[id] == graph.nodes[id],
    decreases rows.len(),
{
    if rows.len() > 0 {
        lemma_rows_keep_own(graph, lister, rows.drop_last(), id);
    }
}

proof fn lemma_listed_links_keep_own(graph: Graph, records: Seq<NodeRecord>, id: Seq<char>)
    requires
        graph.nodes.contains_key(id),
        graph.nodes[id].own,
        listed_links(graph, records) is Ok,
    ensures
        listed_links(graph, records)->Ok_0.nodes.contains_key(id),
        listed_links(graph, records)->Ok_0.nodes[id] == graph.nodes[id],
    decreases records.len(),
{
    if records.len() > 0 {
        lemma_listed_links_keep_own(graph, records.drop_last(), id);
        lemma_rows_keep_own(
            listed_links(graph, records.drop_last())->Ok_0,
            records.last().node_id,
            records.last().children@,
            id,
        );
    }
}

proof fn lemma_own_link_of(records: Seq<NodeRecord>, i: int)
    requires
        0 <= i < records.len(),
        own_links(records) is Ok,
        forall|j: int|
            0 <= j < records.len() && j != i ==> (#[trigger] records[j]).node_id@
                != records[i].node_id@,
    ensures
        own_links(records)->Ok_0.contains_key(records[i].node_id@),
        own_links(records)->Ok_0[records[i].node_id@].own,
        match records[i].parent {
            Some(link) => {
                let got = own_links(records)->Ok_0[records[i].node_id@].parent;
                got is Some && got->0.parent == link.parent_id && got->0.slot == link.slot
            },
            None => own_links(records)->Ok_0[records[i].node_id@].parent is None,
        },
    decreases records.len(),
{
    let init = records.drop_last();
    if i < records.len() - 1 {
        assert forall|j: int| 0 <= j < init.len() && j != i implies (
        #[trigger] init[j]).node_id@ != init[i].node_id@ by {
            assert(init[j] == records[j]);
        }
        lemma_own_link_of(init, i);
        assert(records[records.len() - 1].node_id@ != records[i].node_id@);
    } else {
        lemma_own_links_absent(init, records[i].node_id@);
    }
}

proof fn lemma_own_links_absent(records: Seq<NodeRecord>, id: Seq<char>)
    requires
        own_links(records) is Ok,
        forall|j: int| 0 <= j < records.len() ==> (#[trigger] records[j]).node_id@ != id,
    ensures
        !own_links(records)->Ok_0.contains_key(id),
    decreases records.len(),
{
    if records.len() > 0 {
        let init = records.drop_last();
        assert forall|j: int| 0 <= j < init.len() implies (#[trigger] init[j]).node_id@ != id by {
            assert(init[j] == records[j]);
        }
        lemma_own_links_absent(init, id);
        assert(records[records.len() - 1].node_id@ != id);
    }
}

/// A node's own record is authoritative: whatever other records list, its link
/// in the graph is the one it declares, including none.
pub proof fn law_own_record_wins(records: Seq<NodeRecord>, i: int)
    requires
        0 <= i < records.len(),
        graph_of(records) is Ok,
        forall|j: int|
            0 <= j < records.len() && j != i ==> (#[trigger] records[j]).node_id@
                != records[i].node_id@,
    ensures
        ({
            let nodes = graph_of(records)->Ok_0.nodes;
            let id = records[i].node_id@;
            &&& nodes.contains_key(id)
            &&& match records[i].parent {
                Some(link) => nodes[id].parent is Some && nodes[id].parent->0.parent
                    == link.parent_id && nodes[id].parent->0.slot == link.slot,
                None => nodes[id].parent is None,
            }
        }),
{
    lemma_own_link_of(records, i);
    let start = Graph { nodes: own_links(records)->Ok_0, stale: Seq::<StaleLink>::empty() };
    lemma_listed_links_keep_own(start, records, records[i].node_id@);
}

/// The node `steps` parent links above `id`.
pub open spec fn climb(nodes: Nodes, id: Seq<char>, steps: nat) -> Option<Seq<char>>
    decreases steps,
{
    if steps == 0 {
        Some(id)
    } else {
        match nodes[id].parent {
            Some(link) => climb(nodes, link.parent@, (steps - 1) as nat),
            None => None,
        }
    }
}

proof fn lemma_walk_climbs(nodes: Nodes, path: Seq<Seq<char>>, r: Seq<char>) -> (steps: nat)
    requires
        union_find::is_walk(parent_pairs(nodes), path),
        path.last() == r,
        nodes[r].parent is None,
    ensures
        climb(nodes, path[0], steps) == Some(r),
    decreases path.len(),
{
    if path.len() == 1 {
        0
    } else {
        let rest = path.drop_first();
        let pairs = parent_pairs(nodes);
        assert forall|k: int| 0 <= k < rest.len() - 1 implies pairs(
            #[trigger] rest[k],
            rest[k + 1],
        ) || pairs(rest[k + 1], rest[k]) by {
            assert(rest[k] == path[k + 1] && rest[k + 1] == path[k + 2]);
        }
        let above = lemma_walk_climbs(nodes, rest, r);
        assert(pairs(path[0], path[1]) || pairs(path[1], path[0]));
        if pairs(path[0], path[1]) {
            above + 1
        } else {
            (above - 1) as nat
        }
    }
}

/// Every component with exactly one parentless node is a tree: following the
/// parent links from any node ends at that node.
pub proof fn law_links_lead_to_the_root(nodes: Nodes, id: Seq<char>)
    requires
        rooted(nodes),
        nodes.contains_key(id),
    ensures
        exists|steps: nat|
            {
                let end = #[trigger] climb(nodes, id, steps);
                end is Some && nodes.contains_key(end->0) && nodes[end->0].parent is None
            },
{
    let r = choose|r: Seq<char>|
        #![trigger nodes[r]]
        nodes.contains_key(r) && nodes[r].parent is None && together(nodes, id, r);
    let path = choose|path: Seq<Seq<char>>| #[trigger]
        union_find::is_walk(parent_pairs(nodes), path) && path[0] == id && path.last() == r;
    let steps = lemma_walk_climbs(nodes, path, r);
    assert(climb(nodes, id, steps) == Some(r));
}

/// The first `n` verdicts are good.
pub open spec fn valid_up_to(valid: Seq<bool>, n: int) -> bool {
    forall|i: int| 0 <= i < n ==> #[trigger] valid[i]
}

/// Verdict `i` is the first that is not good.
pub open spec fn first_invalid(valid: Seq<bool>, i: int) -> bool {
    0 <= i < valid.len() && !valid[i] && valid_up_to(valid, i)
}

impl TopologyPartition {
    /// The primary component.
    pub fn primary(&self) -> (r: &NetComponent)
        requires
            self.components@.len() > 0,
        ensures
            *r == self.components@[0],
    {
        &self.components[0]
    }

    /// Hold the partition against the tree validation of its components:
    /// `valid[i]` says whether component `i` is a valid tree. The first one
    /// that is not decides.
    pub fn checked(self, valid: &Vec<bool>) -> (r: Result<TopologyPartition, TopologyError>)
        requires
            valid@.len() == self.components@.len(),
        ensures
            match r {
                Ok(partition) => partition == self && valid_up_to(valid@, valid@.len() as int),
                Err(e) => exists|i: int|
                    {
                        &&& #[trigger] first_invalid(valid@, i)
                        &&& e matches TopologyError::InvalidComponent { root } && root
                            == self.components@[i].root
                    },
            },
    {
        let mut i: usize = 0;
        while i < valid.len()
            invariant
                i <= valid@.len(),
                valid@.len() == self.components@.len(),
                forall|j: int| 0 <= j < i ==> #[trigger] valid@[j],
            decreases valid@.len() - i,
        {
            if !valid[i] {
                assert(first_invalid(valid@, i as int));
                return Err(
                    TopologyError::InvalidComponent { root: self.components[i].root.clone() },
                );
            }
            i = i + 1;
        }
        Ok(self)
    }
}

/// Build the primary component of a network: the largest, ties going by root
/// id.
pub fn build_topology(records: &[NodeRecord]) -> (r: Result<NetComponent, TopologyError>)
    requires
        records@.len() > 0,
    ensures
        match graph_of(records@) {
            Err(fault) => r matches Err(e) && e.is_fault(fault),
            Ok(graph) => match r {
                Ok(primary) => exists|components: Seq<NetComponent>|
                    {
                        &&& #[trigger] partition_ok(graph.nodes, graph.stale, None, components)
                        &&& primary == components[0]
                        &&& rooted(graph.nodes)
                        &&& forall|id: Seq<char>| !#[trigger] dangling(graph.nodes, id)
                    },
                Err(TopologyError::MissingParent { child, parent }) => {
                    &&& first_dangling(graph.nodes, child@)
                    &&& parent@ == graph.nodes[child@].parent->0.parent@
                },
                Err(TopologyError::RootCount { roots, members }) => {
                    &&& forall|id: Seq<char>| !#[trigger] dangling(graph.nodes, id)
                    &&& !rooted(graph.nodes)
                    &&& is_component(graph.nodes, members@)
                    &&& roots == count_roots(graph.nodes, members@)
                    &&& roots != 1
                },
                Err(_) => false,
            },
        },
{
    match build_topology_partition(records, None) {
        Err(e) => Err(e),
        Ok(partition) => {
            let mut components: Vec<NetComponent> = partition.components;
            Ok(components.remove(0))
        },
    }
}

/// The row of `lister` for its child stands in the graph: the child's own record
/// agrees with it or it is noted as stale, and a child without a record sits where
/// the row puts it.
spec fn row_stands(graph: Graph, lister: String, row: ChildEntry) -> bool {
    let id = row.child_id@;
    &&& row.slot <= MAX_SLOT
    &&& graph.nodes.contains_key(id)
    &&& graph.nodes[id].kind == row.kind
    &&& if graph.nodes[id].own {
        (graph.nodes[id].parent matches Some(link) && link.parent@ == lister@ && link.slot
            == row.slot) || graph.stale.contains(
            StaleLink { parent: lister, child: row.child_id },
        )
    } else {
        graph.nodes[id].parent matches Some(link) && link.parent@ == lister@ && link.slot
            == row.slot
    }
}

/// Every node without a record of its own has the link of the row that listed it.
spec fn listed_ok(graph: Graph) -> bool {
    forall|id: Seq<char>| #[trigger]
        graph.nodes.contains_key(id) && !graph.nodes[id].own ==> graph.nodes[id].parent is Some
}

/// `next` holds what `graph` holds.
spec fn extends(graph: Graph, next: Graph) -> bool {
    &&& forall|id: Seq<char>| #[trigger]
        graph.nodes.contains_key(id) ==> next.nodes.contains_key(id) && next.nodes[id]
            == graph.nodes[id]
    &&& forall|id: Seq<char>| #[trigger]
        next.nodes.contains_key(id) && next.nodes[id].own ==> graph.nodes.contains_key(id)
    &&& forall|link: StaleLink| #[trigger]
        graph.stale.contains(link) ==> next.stale.contains(link)
}

proof fn lemma_row_step(graph: Graph, lister: String, row: ChildEntry)
    requires
        listed_ok(graph),
        row_step(graph, lister, row) is Ok,
    ensures
        listed_ok(row_step(graph, lister, row)->Ok_0),
        extends(graph, row_step(graph, lister, row)->Ok_0),
        row_stands(row_step(graph, lister, row)->Ok_0, lister, row),
{
    let next = row_step(graph, lister, row)->Ok_0;
    let link = StaleLink { parent: lister, child: row.child_id };
    if next.stale == graph.stale.push(link) {
        assert(next.stale[graph.stale.len() as int] == link);
        assert(next.stale.contains(link));
        assert forall|other: StaleLink| #[trigger] graph.stale.contains(other) implies next.stale.contains(
            other,
        ) by {
            let i = choose|i: int| 0 <= i < graph.stale.len() && graph.stale[i] == other;
            assert(next.stale[i] == other);
        }
    }
}

proof fn lemma_extends_keeps_row(graph: Graph, next: Graph, lister: String, row: ChildEntry)
    requires
        extends(graph, next),
        row_stands(graph, lister, row),
    ensures
        row_stands(next, lister, row),
{
    assert(graph.nodes.contains_key(row.child_id@));
}

proof fn lemma_rows_stand(graph: Graph, lister: String, rows: Seq<ChildEntry>, b: int)
    requires
        listed_ok(graph),
        rows_of(graph, lister, rows) is Ok,
    ensures
        listed_ok(rows_of(graph, lister, rows)->Ok_0),
        extends(graph, rows_of(graph, lister, rows)->Ok_0),
        0 <= b < rows.len() ==> row_stands(rows_of(graph, lister, rows)->Ok_0, lister, rows[b]),
    decreases rows.len(),
{
    if rows.len() > 0 {
        let init = rows.drop_last();
        lemma_rows_stand(graph, lister, init, b);
        let mid = rows_of(graph, lister, init)->Ok_0;
        let next = rows_of(graph, lister, rows)->Ok_0;
        lemma_row_step(mid, lister, rows.last());
        if 0 <= b < init.len() {
            assert(init[b] == rows[b]);
            lemma_extends_keeps_row(mid, next, lister, rows[b]);
        }
    }
}

proof fn lemma_listed_stand(graph: Graph, records: Seq<NodeRecord>, a: int, b: int)
    requires
        listed_ok(graph),
        listed_links(graph, records) is Ok,
    ensures
        listed_ok(listed_links(graph, records)->Ok_0),
        extends(graph, listed_links(graph, records)->Ok_0),
        0 <= a < records.len() && 0 <= b < records[a].children@.len() ==> row_stands(
            listed_links(graph, records)->Ok_0,
            records[a].node_id,
            records[a].children@[b],
        ),
    decreases records.len(),
{
    if records.len() > 0 {
        let init = records.drop_last();
        lemma_listed_stand(graph, init, a, b);
        let mid = listed_links(graph, init)->Ok_0;
        let next = listed_links(graph, records)->Ok_0;
        let last = records.last();
        lemma_rows_stand(mid, last.node_id, last.children@, b);
        if 0 <= a < init.len() && 0 <= b < records[a].children@.len() {
            assert(init[a] == records[a]);
            lemma_extends_keeps_row(mid, next, records[a].node_id, records[a].children@[b]);
        }
    }
}

/// Some record has this id.
pub open spec fn has_record(records: Seq<NodeRecord>, id: Seq<char>) -> bool {
    exists|i: int| 0 <= i < records.len() && (#[trigger] records[i]).node_id@ == id
}

proof fn lemma_own_links_are_records(records: Seq<NodeRecord>, id: Seq<char>)
    requires
        own_links(records) is Ok,
    ensures
        own_links(records)->Ok_0.contains_key(id) <==> has_record(records, id),
        own_links(records)->Ok_0.contains_key(id) ==> own_links(records)->Ok_0[id].own
            && own_links(records)->Ok_0[id].kind == ChildKind::Node,
    decreases records.len(),
{
    if records.len() > 0 {
        let init = records.drop_last();
        lemma_own_links_are_records(init, id);
        assert(records[records.len() - 1] == records.last());
        if has_record(init, id) {
            let i = choose|i: int| 0 <= i < init.len() && (#[trigger] init[i]).node_id@ == id;
            assert(records[i].node_id@ == id);
        }
        if has_record(records, id) && records.last().node_id@ != id {
            let i = choose|i: int| 0 <= i < records.len() && (#[trigger] records[i]).node_id@ == id;
            assert(init[i].node_id@ == id);
        }
    }
}

/// What the graph holds of a row and of a record.
proof fn lemma_graph_of_rows(records: Seq<NodeRecord>, a: int, b: int, id: Seq<char>)
    requires
        graph_of(records) is Ok,
    ensures
        ({
            let graph = graph_of(records)->Ok_0;
            &&& 0 <= a < records.len() && 0 <= b < records[a].children@.len() ==> row_stands(
                graph,
                records[a].node_id,
                records[a].children@[b],
            )
            &&& has_record(records, id) ==> graph.nodes.contains_key(id) && graph.nodes[id].own
                && graph.nodes[id].kind == ChildKind::Node
            &&& graph.nodes.contains_key(id) && graph.nodes[id].own ==> has_record(records, id)
        }),
{
    let nodes = own_links(records)->Ok_0;
    let start = Graph { nodes, stale: Seq::<StaleLink>::empty() };
    assert forall|other: Seq<char>| #[trigger] nodes.contains_key(other) implies nodes[other].own by {
        lemma_own_links_are_records(records, other);
    }
    lemma_listed_stand(start, records, a, b);
    lemma_own_links_are_records(records, id);
}

/// Node `k` of component `c`.
pub open spec fn sits_at(components: Seq<NetComponent>, c: int, k: int, id: Seq<char>) -> bool {
    0 <= c < components.len() && 0 <= k < components[c].nodes@.len()
        && components[c].nodes@[k].node_id@ == id
}

proof fn lemma_declared_sits(
    nodes: Nodes,
    stale: Seq<StaleLink>,
    primary: Option<Seq<char>>,
    components: Seq<NetComponent>,
    id: Seq<char>,
)
    requires
        partition_ok(nodes, stale, primary, components),
        nodes.contains_key(id),
    ensures
        exists|c: int, k: int| #[trigger] sits_at(components, c, k, id),
{
    let c = choose|c: int|
        0 <= c < components.len() && text::holds_text(ids_of(#[trigger] components[c]), id);
    let ids = ids_of(components[c]);
    let k = choose|k: int| 0 <= k < ids.len() && (#[trigger] ids[k])@ == id;
    assert(sits_at(components, c, k, id));
}

/// Each recorded node sits in one place of one component, as its own record says:
/// as a node, below the parent it names at the slot it names, or as a root where it
/// names none; and its parent sits in the same component.
pub proof fn law_every_record_has_its_place(
    records: &[NodeRecord],
    primary: Option<&String>,
    partition: TopologyPartition,
    i: int,
    c: int,
    k: int,
    d: int,
    m: int,
)
    requires
        call_ensures(build_topology_partition, (records, primary), Ok(partition)),
        0 <= i < records@.len(),
        forall|j: int|
            0 <= j < records@.len() && j != i ==> (#[trigger] records@[j]).node_id@
                != records@[i].node_id@,
    ensures
        exists|x: int, y: int| #[trigger]
            sits_at(partition.components@, x, y, records@[i].node_id@),
        sits_at(partition.components@, c, k, records@[i].node_id@) ==> {
            let row = partition.components@[c].nodes@[k];
            &&& row.kind == ChildKind::Node
            &&& records@[i].parent matches Some(link) ==> {
                &&& row.parent is Some
                &&& row.parent->0@ == link.parent_id@
                &&& row.slot == Some(link.slot)
                &&& link.slot <= 7
                &&& partition.components@[c].root@ != row.node_id@
                &&& exists|y: int| #[trigger]
                    sits_at(partition.components@, c, y, link.parent_id@)
            }
            &&& records@[i].parent is None ==> {
                &&& row.parent is None
                &&& row.slot is None
                &&& partition.components@[c].root@ == row.node_id@
            }
        },
        sits_at(partition.components@, c, k, records@[i].node_id@) && sits_at(
            partition.components@,
            d,
            m,
            records@[i].node_id@,
        ) ==> c == d && k == m,
{
    let graph = graph_of(records@)->Ok_0;
    let nodes = graph.nodes;
    let stale = graph.stale;
    let components = partition.components@;
    let id = records@[i].node_id@;
    let named = match primary {
        Some(id) => Some(id@),
        None => None,
    };
    assert(records@[i].node_id@ == id);
    assert(has_record(records@, id));
    lemma_graph_of_rows(records@, 0, 0, id);
    law_own_record_wins(records@, i);
    lemma_declared_sits(nodes, stale, named, components, id);
    if sits_at(components, c, k, id) {
        let part = components[c];
        let ids = ids_of(part);
        assert(component_ok(nodes, stale, part, c > 0));
        assert(row_ok(nodes, part.nodes@[k]));
        assert(ids[k]@ == id);
        if records@[i].parent is Some {
            let up = records@[i].parent->0.parent_id@;
            assert(!dangling(nodes, id));
            assert(parent_pairs(nodes)(id, up));
            union_find::law_adjacent_connected(parent_pairs(nodes), id, up);
            assert(together(nodes, ids[k]@, up));
            assert(text::holds_text(ids, up));
            let y = choose|y: int| 0 <= y < ids.len() && (#[trigger] ids[y])@ == up;
            assert(sits_at(components, c, y, up));
            lemma_parent_slot_in_range(records@, i);
        }
        if sits_at(components, d, m, id) {
            lemma_one_place(nodes, stale, named, components, c, k, d, m, id);
        }
    }
}

proof fn lemma_parent_slot_in_range(records: Seq<NodeRecord>, i: int)
    requires
        own_links(records) is Ok,
        0 <= i < records.len(),
    ensures
        records[i].parent matches Some(link) ==> link.slot <= 7,
    decreases records.len(),
{
    if i < records.len() - 1 {
        assert(records.drop_last()[i] == records[i]);
        lemma_parent_slot_in_range(records.drop_last(), i);
    } else {
        assert(records.last() == records[i]);
    }
}

proof fn lemma_one_place(
    nodes: Nodes,
    stale: Seq<StaleLink>,
    primary: Option<Seq<char>>,
    components: Seq<NetComponent>,
    c: int,
    k: int,
    d: int,
    m: int,
    id: Seq<char>,
)
    requires
        partition_ok(nodes, stale, primary, components),
        sits_at(components, c, k, id),
        sits_at(components, d, m, id),
    ensures
        c == d,
        k == m,
{
    let pairs = parent_pairs(nodes);
    let one = ids_of(components[c]);
    let two = ids_of(components[d]);
    assert(component_ok(nodes, stale, components[c], c > 0));
    assert(component_ok(nodes, stale, components[d], d > 0));
    assert(one[k]@ == id);
    assert(two[m]@ == id);
    assert(nodes.contains_key(one[k]@));
    if c != d {
        let a = choose|a: int| 0 <= a < one.len() && (#[trigger] one[a])@ == components[c].root@;
        let b = choose|b: int| 0 <= b < two.len() && (#[trigger] two[b])@ == components[d].root@;
        assert(text::holds_text(one, id));
        assert(text::holds_text(two, id));
        assert(together(nodes, one[a]@, id));
        assert(together(nodes, two[b]@, id));
        union_find::law_connected_symmetric(pairs, components[d].root@, id);
        union_find::law_connected_transitive(
            pairs,
            components[c].root@,
            id,
            components[d].root@,
        );
        assert(!together(nodes, components[c].root@, components[d].root@));
    } else if k < m {
        assert(text::text_less(one[k]@, one[m]@));
        text::law_text_order(id, id, id);
    } else if m < k {
        assert(text::text_less(one[m]@, one[k]@));
        text::law_text_order(id, id, id);
    }
}

/// A child that supplied no record sits where it is listed: of the listed kind,
/// below the node that lists it, at the listed slot. A child with a record of its
/// own is listed as a node, and a row that its record contradicts is reported.
pub proof fn law_listed_children_have_their_place(
    records: &[NodeRecord],
    primary: Option<&String>,
    partition: TopologyPartition,
    a: int,
    b: int,
    c: int,
    k: int,
)
    requires
        call_ensures(build_topology_partition, (records, primary), Ok(partition)),
        0 <= a < records@.len(),
        0 <= b < records@[a].children@.len(),
    ensures
        ({
            let row = records@[a].children@[b];
            let id = row.child_id@;
            &&& row.slot <= 7
            &&& !has_record(records@, id) && sits_at(partition.components@, c, k, id) ==> {
                let at = partition.components@[c].nodes@[k];
                &&& at.kind == row.kind
                &&& at.parent is Some
                &&& at.parent->0@ == records@[a].node_id@
                &&& at.slot == Some(row.slot)
            }
            &&& exists|x: int, y: int| #[trigger] sits_at(partition.components@, x, y, id)
            &&& has_record(records@, id) ==> row.kind == ChildKind::Node
            &&& forall|i: int|
                0 <= i < records@.len() && (#[trigger] records@[i]).node_id@ == id && (forall|
                    j: int,
                |
                    0 <= j < records@.len() && j != i ==> (#[trigger] records@[j]).node_id@ != id)
                    && !(records@[i].parent matches Some(link) && link.parent_id@
                    == records@[a].node_id@ && link.slot == row.slot)
                    ==> partition.findings@.contains(
                    StaleLink { parent: records@[a].node_id, child: row.child_id },
                )
        }),
{
    let graph = graph_of(records@)->Ok_0;
    let nodes = graph.nodes;
    let components = partition.components@;
    let row = records@[a].children@[b];
    let id = row.child_id@;
    let named = match primary {
        Some(id) => Some(id@),
        None => None,
    };
    lemma_graph_of_rows(records@, a, b, id);
    lemma_declared_sits(nodes, graph.stale, named, components, id);
    if sits_at(components, c, k, id) {
        assert(component_ok(nodes, graph.stale, components[c], c > 0));
        assert(row_ok(nodes, components[c].nodes@[k]));
    }
    assert forall|i: int|
        0 <= i < records@.len() && (#[trigger] records@[i]).node_id@ == id && (forall|j: int|
            0 <= j < records@.len() && j != i ==> (#[trigger] records@[j]).node_id@ != id)
            && !(records@[i].parent matches Some(link) && link.parent_id@ == records@[a].node_id@
            && link.slot == row.slot) implies partition.findings@.contains(
        StaleLink { parent: records@[a].node_id, child: row.child_id },
    ) by {
        assert(has_record(records@, id));
        law_own_record_wins(records@, i);
    }
}

/// The first component is the designated one, or the largest where none was
/// designated, and among the largest the one whose root comes first; and only an
/// island names the parent that it was severed from.
pub proof fn law_primary_component_comes_first(
    records: &[NodeRecord],
    name: String,
    partition: TopologyPartition,
    largest: TopologyPartition,
    c: int,
)
    requires
        call_ensures(build_topology_partition, (records, Some(&name)), Ok(partition)),
        call_ensures(build_topology_partition, (records, None::<&String>), Ok(largest)),
    ensures
        partition.components@.len() > 0,
        exists|k: int| #[trigger] sits_at(partition.components@, 0, k, name@),
        partition.components@[0].stranded_parent is None,
        largest.components@.len() > 0,
        largest.components@[0].stranded_parent is None,
        0 < c < largest.components@.len() ==> {
            let first = largest.components@[0];
            let other = largest.components@[c];
            &&& first.nodes@.len() >= other.nodes@.len()
            &&& first.nodes@.len() == other.nodes@.len() ==> text::text_less(
                first.root@,
                other.root@,
            )
        },
{
    let graph = graph_of(records@)->Ok_0;
    let ids = ids_of(partition.components@[0]);
    assert(text::holds_text(ids, name@));
    let k = choose|k: int| 0 <= k < ids.len() && (#[trigger] ids[k])@ == name@;
    assert(sits_at(partition.components@, 0, k, name@));
    assert(component_ok(graph.nodes, graph.stale, partition.components@[0], false));
    let all = largest.components@;
    assert(component_ok(graph.nodes, graph.stale, all[0], false));
    let p = choose|p: int|
        0 <= p < all.len() && components_sorted(#[trigger] exchanged(all, p)) && p == 0;
    assert(exchanged(all, 0) =~= all);
    if 0 < c < all.len() {
        assert(comes_before(all[0].nodes@.len(), all[0].root@, all[c].nodes@.len(), all[c].root@));
    }
}

/// An island whose root is still listed by a node it left names that node, the
/// first that lists it; an island that nobody lists names none.
pub proof fn law_islands_name_the_parent_they_left(
    records: &[NodeRecord],
    primary: Option<&String>,
    partition: TopologyPartition,
    c: int,
    f: int,
)
    requires
        call_ensures(build_topology_partition, (records, primary), Ok(partition)),
        0 < c < partition.components@.len(),
    ensures
        0 <= f < partition.findings@.len() && partition.findings@[f].child@
            == partition.components@[c].root@ && (forall|g: int|
            0 <= g < f ==> (#[trigger] partition.findings@[g]).child@
                != partition.components@[c].root@) ==> partition.components@[c].stranded_parent
            is Some && partition.components@[c].stranded_parent->0@
            == partition.findings@[f].parent@,
        (forall|g: int|
            0 <= g < partition.findings@.len() ==> (#[trigger] partition.findings@[g]).child@
                != partition.components@[c].root@)
            ==> partition.components@[c].stranded_parent is None,
{
    let graph = graph_of(records@)->Ok_0;
    assert(component_ok(graph.nodes, graph.stale, partition.components@[c], true));
    let root = partition.components@[c].root@;
    let stale = partition.findings@;
    if 0 <= f < stale.len() && (forall|g: int|
        0 <= g < f ==> (#[trigger] stale[g]).child@ != root) {
        lemma_first_lister(stale, root, f);
    }
    if forall|g: int| 0 <= g < stale.len() ==> (#[trigger] stale[g]).child@ != root {
        lemma_first_lister(stale, root, stale.len() as int);
    }
}

/// A partition is taken as it is where every component is valid; otherwise a
/// component that is not is named by its root, and none before it is invalid.
pub proof fn law_every_component_must_be_valid(
    partition: TopologyPartition,
    valid: Vec<bool>,
    r: Result<TopologyPartition, TopologyError>,
    i: int,
)
    requires
        valid@.len() == partition.components@.len(),
        call_ensures(TopologyPartition::checked, (partition, &valid), r),
    ensures
        0 <= i < valid@.len() && !valid@[i] ==> r is Err,
        r matches Ok(kept) ==> kept == partition,
        r is Err ==> exists|k: int| #![trigger valid@[k]]
            0 <= k < valid@.len() && !valid@[k] && r->Err_0 == (TopologyError::InvalidComponent {
                root: partition.components@[k].root,
            }),
        0 <= i < valid@.len() && !valid@[i] && (forall|j: int|
            0 <= j < i ==> #[trigger] valid@[j]) ==> r == Err::<TopologyPartition, TopologyError>(
            TopologyError::InvalidComponent { root: partition.components@[i].root },
        ),
{
    if r is Ok {
        if 0 <= i < valid@.len() {
            assert(valid@[i]);
        }
    } else {
        let k = choose|k: int|
            {
                &&& #[trigger] first_invalid(valid@, k)
                &&& r->Err_0 matches TopologyError::InvalidComponent { root } && root
                    == partition.components@[k].root
            };
        assert(!valid@[k]);
        if 0 <= i < valid@.len() && !valid@[i] && (forall|j: int|
            0 <= j < i ==> #[trigger] valid@[j]) {
            assert(!(i < k) && !(k < i));
        }
    }
}

/// A message on the topology shows the node it is about and the other side, each
/// under its own name.
pub proof fn law_topology_messages_show_both_sides(e: TopologyError, m: String)
    requires
        call_ensures(TopologyError::text, (&e,), m),
    ensures
        e matches TopologyError::MissingParent { child, parent } ==> m@ == "topology node '"@ + child@
            + "' references missing parent '"@ + parent@ + "'"@,
        e matches TopologyError::ConflictingLinks {
            child,
            first,
            first_slot,
            second,
            second_slot,
        } ==> {
            &&& text::occurs(
                m@,
                "' has conflicting parent links ('"@ + first@ + "'@"@ + text::decimal(
                    first_slot as nat,
                ),
            )
            &&& text::occurs(
                m@,
                " vs '"@ + second@ + "'@"@ + text::decimal(second_slot as nat) + ")"@,
            )
            &&& m@.take(("topology child '"@ + child@).len() as int) == "topology child '"@ + child@
        },
        e matches TopologyError::ParentSlotOutOfRange { node, slot } ==> text::occurs(
            m@,
            node@ + "' parent slot "@ + text::decimal(slot as nat),
        ),
        e matches TopologyError::ChildSlotOutOfRange { child, slot } ==> text::occurs(
            m@,
            child@ + "' slot "@ + text::decimal(slot as nat),
        ),
        e matches TopologyError::KindConflict(id) ==> text::occurs(m@, id@),
        e matches TopologyError::UnknownPrimary(root) ==> text::occurs(m@, root@),
        e matches TopologyError::InvalidComponent { root } ==> text::occurs(m@, root@),
        e matches TopologyError::RootCount { roots, members } ==> text::occurs(
            m@,
            text::decimal(roots as nat) + " parent-less roots"@,
        ),
{
    match e {
        TopologyError::ConflictingLinks { child, first, first_slot, second, second_slot } => {
            let none = Seq::<char>::empty();
            let head = "topology child '"@ + child@;
            let a = "' has conflicting parent links ('"@ + first@ + "'@"@ + text::decimal(
                first_slot as nat,
            );
            let b = " vs '"@ + second@ + "'@"@ + text::decimal(second_slot as nat) + ")"@;
            assert(m@ =~= head + a + b);
            assert(m@ =~= (head + a) + b + none);
            text::lemma_occurs_between(head, a, b);
            text::lemma_occurs_between(head + a, b, none);
            assert(m@.take(head.len() as int) =~= head);
        },
        TopologyError::ParentSlotOutOfRange { node, slot } => {
            let part = node@ + "' parent slot "@ + text::decimal(slot as nat);
            assert(m@ =~= "topology node '"@ + part + " out of range"@);
            text::lemma_occurs_between("topology node '"@, part, " out of range"@);
        },
        TopologyError::ChildSlotOutOfRange { child, slot } => {
            let part = child@ + "' slot "@ + text::decimal(slot as nat);
            assert(m@ =~= "topology child '"@ + part + " out of range"@);
            text::lemma_occurs_between("topology child '"@, part, " out of range"@);
        },
        TopologyError::KindConflict(id) => {
            text::lemma_occurs_between(
                "topology node '"@,
                id@,
                "' is declared as both a node and a user"@,
            );
        },
        TopologyError::UnknownPrimary(root) => {
            text::lemma_occurs_between(
                "designated primary root '"@,
                root@,
                "' not found in the peer records"@,
            );
        },
        TopologyError::InvalidComponent { root } => {
            text::lemma_occurs_between(
                "peer records do not form a valid topology component rooted at '"@,
                root@,
                "'"@,
            );
        },
        TopologyError::RootCount { roots, members } => {
            assert(" parent-less roots ("@ =~= " parent-less roots"@ + " ("@) by {
                reveal_strlit(" parent-less roots (");
                reveal_strlit(" parent-less roots");
                reveal_strlit(" (");
            }
            let part = text::decimal(roots as nat) + " parent-less roots"@;
            let rest = " ("@ + text::joined(text::views(members@), ", "@) + ")"@;
            assert(m@ =~= "topology component has "@ + part + rest);
            text::lemma_occurs_between("topology component has "@, part, rest);
        },
        _ => {},
    }
}

} // verus!
