//! The reconciliation report: what the peers' data amounts to and what is wrong
//! with it.
//!
//! Findings that topology can explain are advisories: a route is audited
//! against live state, and an exited subtree is a network of its own. All
//! others are hard.
use crate::partition::{NetComponent, StaleLink, TopoNode};
use crate::text;
use crate::textmap::TextMap;
use crate::wire::{AccountRef, Digest, HopRole, LedgerPubKey, PeerKeys};
use vstd::prelude::*;

verus! {

/// How loading one peer went.
#[derive(Debug)]
pub struct PeerReport {
    /// The peer.
    pub node_id: String,
    /// Its data dir as given.
    pub data_dir: String,
    /// Whether it has commitments.
    pub chain_present: bool,
    /// How many.
    pub chain_len: usize,
    /// Notes on the loading.
    pub notes: Vec<String>,
}

/// A component in the report.
#[derive(Debug)]
pub struct ComponentReport {
    /// Its root.
    pub root: String,
    /// Its members, sorted.
    pub nodes: Vec<String>,
    /// Whether it is the operator's own network.
    pub primary: bool,
    /// The parent that an island's root was severed from.
    pub stranded_parent: Option<String>,
}

/// Something that reconciliation found.
#[derive(Debug)]
pub enum Finding {
    /// A ledger committed to two heads of one height.
    Fork {
        /// The ledger.
        ledger_id: LedgerPubKey,
        /// The height.
        height: u64,
        /// The heads.
        heads: Vec<Digest>,
    },
    /// A commitment chain is not in order.
    ChainInvalid {
        /// The node.
        node: String,
        /// Why.
        reason: String,
    },
    /// The two sides of an edge disagree.
    MirrorMismatch {
        /// The parent.
        parent: String,
        /// The child.
        child: String,
        /// The parent's view of the balance.
        parent_view: String,
        /// The child's view of the balance.
        child_view: String,
        /// Which side is ahead.
        direction: String,
    },
    /// A payment did not take its route.
    RouteInvalid {
        /// The payment.
        payment_id: Digest,
        /// Why.
        reason: String,
    },
    /// A payment was applied twice.
    Replay {
        /// The payment.
        payment_id: Digest,
        /// Why.
        reason: String,
    },
    /// An account went below zero.
    Overdraw {
        /// The node.
        node: String,
        /// The account.
        account: AccountRef,
        /// By how much.
        deficit: String,
    },
    /// A node has left with its subtree.
    Detached {
        /// The parent it left.
        parent: String,
        /// The node.
        child: String,
    },
    /// A node lists a child that is elsewhere.
    StaleChildLink {
        /// The node.
        parent: String,
        /// The child.
        child: String,
    },
}

impl Finding {
    /// Topology can explain the finding.
    pub open spec fn spec_is_advisory(self) -> bool {
        self is RouteInvalid || self is Detached || self is StaleChildLink
    }

    /// Whether topology can explain the finding.
    pub fn is_advisory(&self) -> (r: bool)
        ensures
            r == self.spec_is_advisory(),
    {
        match self {
            Finding::RouteInvalid { payment_id: _, reason: _ } => true,
            Finding::Detached { parent: _, child: _ } => true,
            Finding::StaleChildLink { parent: _, child: _ } => true,
            _ => false,
        }
    }

    /// One line that names the culprits.
    pub open spec fn spec_describe(self) -> Seq<char> {
        match self {
            Finding::Fork { ledger_id, height, heads } => "fork ledger="@ + text::hex_lower(
                ledger_id@,
            ) + " height="@ + text::decimal(height as nat) + " heads=["@ + text::joined(
                hex_all(heads@),
                ", "@,
            ) + "]"@,
            Finding::ChainInvalid { node, reason } => "chain_invalid node="@ + node@ + " reason="@
                + reason@,
            Finding::MirrorMismatch { parent, child, parent_view, child_view, direction } => {
                "mirror_mismatch edge="@ + parent@ + "->"@ + child@ + " parent_view="@
                    + parent_view@ + " child_view="@ + child_view@ + " direction="@ + direction@
            },
            Finding::RouteInvalid { payment_id, reason } => "route_invalid payment="@
                + text::hex_lower(payment_id@) + " reason="@ + reason@,
            Finding::Replay { payment_id, reason } => "replay payment="@ + text::hex_lower(
                payment_id@,
            ) + " reason="@ + reason@,
            Finding::Overdraw { node, account, deficit } => "overdraw node="@ + node@
                + " account="@ + spec_account_label(account) + " deficit="@ + deficit@,
            Finding::Detached { parent, child } => "detached parent="@ + parent@ + " child="@
                + child@,
            Finding::StaleChildLink { parent, child } => "stale_child_link parent="@ + parent@
                + " child="@ + child@,
        }
    }

    /// One line that names the culprits.
    pub fn describe_finding(&self) -> (r: String)
        ensures
            r@ == self.spec_describe(),
    {
        match self {
            Finding::Fork { ledger_id, height, heads } => {
                let mut r: String = text::between(
                    "fork ledger=",
                    text::hex_text(ledger_id.as_slice()).as_str(),
                    " height=",
                );
                r.append(text::u64_text(*height).as_str());
                r.append(" heads=[");
                let shown: Vec<String> = hex_texts(heads);
                r.append(text::join(&shown, ", ").as_str());
                r.append("]");
                r
            },
            Finding::ChainInvalid { node, reason } => {
                let mut r: String = text::between(
                    "chain_invalid node=",
                    node.as_str(),
                    " reason=",
                );
                r.append(reason.as_str());
                r
            },
            Finding::MirrorMismatch { parent, child, parent_view, child_view, direction } => {
                let mut r: String = text::between("mirror_mismatch edge=", parent.as_str(), "->");
                r.append(child.as_str());
                r.append(" parent_view=");
                r.append(parent_view.as_str());
                r.append(" child_view=");
                r.append(child_view.as_str());
                r.append(" direction=");
                r.append(direction.as_str());
                r
            },
            Finding::RouteInvalid { payment_id, reason } => {
                let mut r: String = text::between(
                    "route_invalid payment=",
                    text::hex_text(payment_id.as_slice()).as_str(),
                    " reason=",
                );
                r.append(reason.as_str());
                r
            },
            Finding::Replay { payment_id, reason } => {
                let mut r: String = text::between(
                    "replay payment=",
                    text::hex_text(payment_id.as_slice()).as_str(),
                    " reason=",
                );
                r.append(reason.as_str());
                r
            },
            Finding::Overdraw { node, account, deficit } => {
                let mut r: String = text::between("overdraw node=", node.as_str(), " account=");
                r.append(account_label(account).as_str());
                r.append(" deficit=");
                r.append(deficit.as_str());
                r
            },
            Finding::Detached { parent, child } => {
                let mut r: String = text::between("detached parent=", parent.as_str(), " child=");
                r.append(child.as_str());
                r
            },
            Finding::StaleChildLink { parent, child } => {
                let mut r: String = text::between(
                    "stale_child_link parent=",
                    parent.as_str(),
                    " child=",
                );
                r.append(child.as_str());
                r
            },
        }
    }
}

/// The hashes as texts.
pub open spec fn hex_all(heads: Seq<Digest>) -> Seq<Seq<char>> {
    heads.map_values(|head: Digest| text::hex_lower(head@))
}

fn hex_texts(heads: &Vec<Digest>) -> (r: Vec<String>)
    ensures
        text::views(r@) == hex_all(heads@),
{
    let mut r: Vec<String> = Vec::new();
    let mut i: usize = 0;
    while i < heads.len()
        invariant
            i <= heads@.len(),
            text::views(r@) == hex_all(heads@).take(i as int),
        decreases heads@.len() - i,
    {
        let ghost before = text::views(r@);
        r.push(text::hex_text(heads[i].as_slice()));
        i = i + 1;
        assert(text::views(r@) =~= before.push(hex_all(heads@)[i - 1]));
        assert(hex_all(heads@).take(i as int) =~= before.push(hex_all(heads@)[i - 1]));
    }
    assert(hex_all(heads@).take(i as int) =~= hex_all(heads@));
    r
}

/// The label of an account.
pub open spec fn spec_account_label(account: AccountRef) -> Seq<char> {
    match account {
        AccountRef::Parent => "parent"@,
        AccountRef::Child(id) => "child:"@ + id@,
    }
}

/// A stable display label for an account.
pub fn account_label(account: &AccountRef) -> (r: String)
    ensures
        r@ == spec_account_label(*account),
{
    match account {
        AccountRef::Parent => "parent".to_owned(),
        AccountRef::Child(id) => {
            let mut r: String = "child:".to_owned();
            r.append(id.as_str());
            r
        },
    }
}

/// A stable display label for a hop role.
pub fn role_label(role: HopRole) -> (r: &'static str)
    ensures
        r@ == (match role {
            HopRole::Ascend => "ascend"@,
            HopRole::Lca => "lca"@,
            HopRole::Descend => "descend"@,
            HopRole::Direct => "direct"@,
        }),
{
    match role {
        HopRole::Ascend => "ascend",
        HopRole::Lca => "lca",
        HopRole::Descend => "descend",
        HopRole::Direct => "direct",
    }
}

/// The advisories among findings, in order.
pub open spec fn advisories_of(findings: Seq<Finding>) -> Seq<Finding> {
    findings.filter(|finding: Finding| finding.spec_is_advisory())
}

/// The hard findings among findings, in order.
pub open spec fn hard_of(findings: Seq<Finding>) -> Seq<Finding> {
    findings.filter(|finding: Finding| !finding.spec_is_advisory())
}

/// Split findings into advisories and hard ones, each in order.
pub fn classify_findings(findings: Vec<Finding>) -> (r: (Vec<Finding>, Vec<Finding>))
    ensures
        r.0@ == advisories_of(findings@),
        r.1@ == hard_of(findings@),
{
    let mut advisories: Vec<Finding> = Vec::new();
    let mut hard: Vec<Finding> = Vec::new();
    let ghost all = findings@;
    proof {
        reveal(Seq::filter);
        assert(all.take(0) =~= Seq::<Finding>::empty());
    }
    for finding in it: findings
        invariant
            it.seq() == all,
            advisories@ == advisories_of(all.take(it.index())),
            hard@ == hard_of(all.take(it.index())),
    {
        proof {
            reveal(Seq::filter);
            let next = all.take(it.index() + 1);
            assert(next.drop_last() =~= all.take(it.index()));
            assert(next.last() == finding);
        }
        if finding.is_advisory() {
            advisories.push(finding);
        } else {
            hard.push(finding);
        }
    }
    assert(all.take(all.len() as int) =~= all);
    (advisories, hard)
}

/// Every finding is in exactly one of the two lists.
pub proof fn law_classification_is_a_partition(findings: Seq<Finding>)
    ensures
        advisories_of(findings).len() + hard_of(findings).len() == findings.len(),
        forall|i: int|
            0 <= i < advisories_of(findings).len() ==> (#[trigger] advisories_of(
                findings,
            )[i]).spec_is_advisory(),
        forall|i: int|
            0 <= i < hard_of(findings).len() ==> !(#[trigger] hard_of(
                findings,
            )[i]).spec_is_advisory(),
    decreases findings.len(),
{
    reveal(Seq::filter);
    if findings.len() > 0 {
        law_classification_is_a_partition(findings.drop_last());
    }
}

/// Two registry rows for one node disagree.
#[derive(Debug)]
pub struct RowConflict {
    /// The node.
    pub node: String,
    /// Its known row.
    pub known: PeerKeys,
    /// The row that came after it.
    pub found: PeerKeys,
}

/// The registry of all peers with one more row, unless its node is known.
pub open spec fn merged(rows: Map<Seq<char>, PeerKeys>, row: PeerKeys) -> Map<Seq<char>, PeerKeys> {
    if rows.contains_key(row.node_id@) {
        rows
    } else {
        rows.insert(row.node_id@, row)
    }
}

/// The row disagrees with the known one of its node.
pub open spec fn conflicts(rows: Map<Seq<char>, PeerKeys>, row: PeerKeys) -> bool {
    rows.contains_key(row.node_id@) && !rows[row.node_id@].same_row(row)
}

/// Merge one row into the registry of all peers. An equal row is merged, a row
/// that differs from the known one is a conflict.
pub fn merge_peer(rows: &mut TextMap<PeerKeys>, row: PeerKeys) -> (r: Result<(), RowConflict>)
    requires
        old(rows).wf(),
    ensures
        final(rows).wf(),
        final(rows)@ == merged(old(rows)@, row),
        r == (if conflicts(old(rows)@, row) {
            Err::<(), RowConflict>(
                RowConflict {
                    node: row.node_id,
                    known: old(rows)@[row.node_id@],
                    found: row,
                },
            )
        } else {
            Ok(())
        }),
{
    match rows.get(&row.node_id) {
        Some(existing) => {
            if existing.same(&row) {
                return Ok(());
            }
            return Err(
                RowConflict { node: row.node_id.clone(), known: existing.copied(), found: row },
            );
        },
        None => {},
    }
    rows.insert(row.node_id.clone(), row);
    Ok(())
}

/// Merging keeps every known row, and a row merges with itself.
pub proof fn law_merging_keeps_known_rows(
    rows: Map<Seq<char>, PeerKeys>,
    row: PeerKeys,
    node: Seq<char>,
)
    requires
        rows.contains_key(node),
    ensures
        merged(rows, row).contains_key(node),
        merged(rows, row)[node] == rows[node],
        !conflicts(rows, row) ==> !conflicts(merged(rows, row), row),
{
}

/// The first file that a peer dir lacks. The flags say whether the dir, the
/// record, the ledger key and the identity are there.
pub fn validate_peer_dir(
    dir: &str,
    exists: bool,
    has_record: bool,
    has_ledger_key: bool,
    has_identity: bool,
) -> (r: Result<(), String>)
    ensures
        match r {
            Ok(_) => exists && has_record && has_ledger_key && has_identity,
            Err(m) => if !exists {
                m@ == "peer data dir "@ + dir@ + " does not exist"@
            } else if !has_record {
                m@ == "peer "@ + dir@ + " has no node record (node.json); run `init`"@
            } else if !has_ledger_key {
                m@ == "peer "@ + dir@ + " has no ledger key (ledger_key); run `init`"@
            } else {
                !has_identity && m@ == "peer "@ + dir@
                    + " has no identity key (secret_key); run `init`"@
            },
        },
{
    if !exists {
        return Err(text::between("peer data dir ", dir, " does not exist"));
    }
    if !has_record {
        return Err(text::between("peer ", dir, " has no node record (node.json); run `init`"));
    }
    if !has_ledger_key {
        return Err(text::between("peer ", dir, " has no ledger key (ledger_key); run `init`"));
    }
    if !has_identity {
        return Err(text::between("peer ", dir, " has no identity key (secret_key); run `init`"));
    }
    Ok(())
}

/// Check that a peer's record, metadata and key belong together.
pub fn check_peer_identity(
    dir: &str,
    record_id: &String,
    meta_id: &String,
    key: &LedgerPubKey,
    meta_key: &LedgerPubKey,
) -> (r: Result<(), String>)
    ensures
        match r {
            Ok(_) => record_id@ == meta_id@ && *key == *meta_key,
            Err(m) => if record_id@ != meta_id@ {
                m@ == "peer "@ + dir@ + " record node id '"@ + record_id@
                    + "' does not match meta.json node id '"@ + meta_id@ + "'"@
            } else {
                *key != *meta_key && m@ == "peer "@ + dir@
                    + " ledger_key does not match meta.json ledger id"@
            },
        },
{
    if *record_id != *meta_id {
        let mut m: String = text::between("peer ", dir, " record node id '");
        m.append(record_id.as_str());
        m.append("' does not match meta.json node id '");
        m.append(meta_id.as_str());
        m.append("'");
        return Err(m);
    }
    if !text::same32(key, meta_key) {
        return Err(
            text::between("peer ", dir, " ledger_key does not match meta.json ledger id"),
        );
    }
    Ok(())
}

/// The report on one loaded peer.
pub fn peer_report(node_id: &String, data_dir: &String, chain_len: usize) -> (r: PeerReport)
    ensures
        r.node_id == *node_id,
        r.data_dir == *data_dir,
        r.chain_len == chain_len,
        r.chain_present == (chain_len > 0),
        r.notes@.len() == 1,
        r.notes@[0]@ == (if chain_len > 0 {
            "commitment chain present ("@ + text::decimal(chain_len as nat) + ")"@
        } else {
            "missing/empty commitment chain"@
        }),
{
    let note: String = if chain_len > 0 {
        text::between(
            "commitment chain present (",
            text::u64_text(chain_len as u64).as_str(),
            ")",
        )
    } else {
        "missing/empty commitment chain".to_owned()
    };
    let mut notes: Vec<String> = Vec::new();
    notes.push(note);
    PeerReport {
        node_id: node_id.clone(),
        data_dir: data_dir.clone(),
        chain_present: chain_len > 0,
        chain_len,
        notes,
    }
}

/// A collapsed flow between two children of one parent.
#[derive(Debug)]
pub struct NetTransfer {
    /// Who pays.
    pub from: String,
    /// Who is paid.
    pub to: String,
    /// The parent.
    pub parent: String,
    /// How much.
    pub amount: u64,
}

/// The reconciliation report.
#[derive(Debug)]
pub struct HarnessReport {
    /// How loading the peers went.
    pub peers: Vec<PeerReport>,
    /// The peers that have commitments.
    pub chains_present: Vec<String>,
    /// The components, primary first.
    pub components: Vec<ComponentReport>,
    /// What topology can explain.
    pub advisories: Vec<Finding>,
    /// What it cannot.
    pub findings: Vec<Finding>,
    /// The collapsed flows.
    pub nets: Vec<NetTransfer>,
    /// Notes on the whole.
    pub notes: Vec<String>,
}

/// The ids of a component's nodes.
pub open spec fn member_ids(nodes: Seq<TopoNode>) -> Seq<Seq<char>> {
    nodes.map_values(|node: TopoNode| node.node_id@)
}

/// The component as reported: its members sorted, each as often as it is there.
pub open spec fn is_component_report(component: NetComponent, index: int, r: ComponentReport) -> bool {
    &&& r.root == component.root
    &&& text::sorted_texts(r.nodes@)
    &&& text::views(r.nodes@).to_multiset() == member_ids(component.nodes@).to_multiset()
    &&& r.primary == (index == 0)
    &&& match component.stranded_parent {
        Some(parent) => r.stranded_parent == Some(parent),
        None => r.stranded_parent is None,
    }
}

fn component_report(component: &NetComponent, index: usize) -> (r: ComponentReport)
    ensures
        is_component_report(*component, index as int, r),
{
    let mut nodes: Vec<String> = Vec::new();
    let mut i: usize = 0;
    let ghost ids = member_ids(component.nodes@);
    assert(text::views(nodes@) =~= ids.take(0));
    while i < component.nodes.len()
        invariant
            i <= component.nodes@.len(),
            ids == member_ids(component.nodes@),
            text::sorted_texts(nodes@),
            text::views(nodes@).to_multiset() == ids.take(i as int).to_multiset(),
        decreases component.nodes@.len() - i,
    {
        let ghost before = nodes@;
        let id: String = component.nodes[i].node_id.clone();
        let ghost shown = id@;
        text::insert_sorted(&mut nodes, id);
        proof {
            let p = choose|p: int|
                0 <= p <= before.len() && nodes@ == #[trigger] before.insert(p, id);
            assert(text::views(nodes@) =~= text::views(before).insert(p, shown));
            vstd::seq_lib::to_multiset_insert(text::views(before), p, shown);
            assert(ids.take(i + 1) =~= ids.take(i as int).push(shown));
            ids.take(i as int).to_multiset_ensures();
        }
        i = i + 1;
    }
    assert(ids.take(i as int) =~= ids);
    ComponentReport {
        root: component.root.clone(),
        nodes,
        primary: index == 0,
        stranded_parent: match &component.stranded_parent {
            Some(parent) => Some(parent.clone()),
            None => None,
        },
    }
}

/// The peers that have commitments, in order.
pub open spec fn with_chain(peers: Seq<PeerReport>) -> Seq<PeerReport> {
    peers.filter(|peer: PeerReport| peer.chain_present)
}

fn chains_present(peers: &Vec<PeerReport>) -> (r: Vec<String>)
    ensures
        r@ == with_chain(peers@).map_values(|peer: PeerReport| peer.node_id),
{
    let mut r: Vec<String> = Vec::new();
    let mut i: usize = 0;
    proof {
        reveal(Seq::filter);
        assert(peers@.take(0) =~= Seq::<PeerReport>::empty());
        assert(r@ =~= with_chain(peers@.take(0)).map_values(|peer: PeerReport| peer.node_id));
    }
    while i < peers.len()
        invariant
            i <= peers@.len(),
            r@ == with_chain(peers@.take(i as int)).map_values(|peer: PeerReport| peer.node_id),
        decreases peers@.len() - i,
    {
        proof {
            reveal(Seq::filter);
            assert(peers@.take(i + 1).drop_last() =~= peers@.take(i as int));
            assert(peers@.take(i + 1).last() == peers@[i as int]);
        }
        if peers[i].chain_present {
            r.push(peers[i].node_id.clone());
        }
        i = i + 1;
        assert(r@ =~= with_chain(peers@.take(i as int)).map_values(
            |peer: PeerReport| peer.node_id,
        ));
    }
    assert(peers@.take(i as int) =~= peers@);
    r
}

/// The roots of the islands, in order.
pub open spec fn island_roots(components: Seq<NetComponent>) -> Seq<Seq<char>> {
    components.skip(1).map_values(|component: NetComponent| component.root@)
}

/// What is noted of a network in several parts.
pub open spec fn parts_note(components: Seq<NetComponent>) -> Seq<char> {
    "topology components: "@ + text::decimal(components.len()) + " (primary root "@
        + components[0].root@ + "; islands: "@ + text::joined(island_roots(components), ", "@)
        + ")"@
}

fn parts_text(components: &Vec<NetComponent>) -> (r: String)
    requires
        components@.len() > 1,
    ensures
        r@ == parts_note(components@),
{
    let mut roots: Vec<String> = Vec::new();
    let mut i: usize = 1;
    while i < components.len()
        invariant
            1 <= i <= components@.len(),
            text::views(roots@) == island_roots(components@).take(i - 1),
        decreases components@.len() - i,
    {
        let ghost before = text::views(roots@);
        let ghost next = island_roots(components@)[i - 1];
        roots.push(components[i].root.clone());
        i = i + 1;
        assert(text::views(roots@) =~= before.push(next));
        assert(island_roots(components@).take(i - 1) =~= before.push(next));
    }
    assert(island_roots(components@).take(i - 1) =~= island_roots(components@));
    let mut r: String = text::between(
        "topology components: ",
        text::u64_text(components.len() as u64).as_str(),
        " (primary root ",
    );
    r.append(components[0].root.as_str());
    r.append("; islands: ");
    r.append(text::join(&roots, ", ").as_str());
    r.append(")");
    r
}

/// The stale rows as findings.
pub open spec fn are_stale_findings(stale: Seq<StaleLink>, findings: Seq<Finding>) -> bool {
    &&& findings.len() == stale.len()
    &&& forall|i: int|
        0 <= i < stale.len() ==> #[trigger] findings[i] == (Finding::StaleChildLink {
            parent: stale[i].parent,
            child: stale[i].child,
        })
}

/// The notes that the report adds: on missing orders, and on a network in
/// several parts.
pub open spec fn added_notes(components: Seq<NetComponent>, no_orders: bool) -> Seq<Seq<char>> {
    let first: Seq<Seq<char>> = if no_orders {
        seq!["no orders supplied; route/replay audit skipped"@]
    } else {
        Seq::empty()
    };
    if components.len() > 1 {
        first.push(parts_note(components))
    } else {
        first
    }
}

/// Put the report together from the loaded inputs and what netting found. The
/// stale rows come first among the findings; the collapsed flows are taken as
/// they are.
pub fn report(
    peers: Vec<PeerReport>,
    components: &Vec<NetComponent>,
    stale: &Vec<StaleLink>,
    netting: Vec<Finding>,
    nets: Vec<NetTransfer>,
    no_orders: bool,
    notes: Vec<String>,
) -> (r: HarnessReport)
    ensures
        r.peers@ == peers@,
        r.chains_present@ == with_chain(peers@).map_values(|peer: PeerReport| peer.node_id),
        r.components@.len() == components@.len(),
        forall|i: int|
            0 <= i < components@.len() ==> is_component_report(
                components@[i],
                i,
                #[trigger] r.components@[i],
            ),
        exists|first: Seq<Finding>| #[trigger]
            are_stale_findings(stale@, first) && r.advisories@ == advisories_of(
                first + netting@,
            ) && r.findings@ == hard_of(first + netting@),
        r.nets@ == nets@,
        text::views(r.notes@) == text::views(notes@) + added_notes(components@, no_orders),
{
    let mut all: Vec<Finding> = Vec::new();
    let mut i: usize = 0;
    while i < stale.len()
        invariant
            i <= stale@.len(),
            are_stale_findings(stale@.take(i as int), all@),
        decreases stale@.len() - i,
    {
        let ghost before = all@;
        all.push(
            Finding::StaleChildLink {
                parent: stale[i].parent.clone(),
                child: stale[i].child.clone(),
            },
        );
        i = i + 1;
        proof {
            assert forall|j: int| 0 <= j < i implies #[trigger] all@[j] == (
            Finding::StaleChildLink {
                parent: stale@.take(i as int)[j].parent,
                child: stale@.take(i as int)[j].child,
            }) by {
                if j < before.len() {
                    assert(all@[j] == before[j]);
                    assert(stale@.take(i - 1)[j] == stale@[j]);
                }
            }
        }
    }
    assert(stale@.take(i as int) =~= stale@);
    let ghost first = all@;
    let mut netting: Vec<Finding> = netting;
    all.append(&mut netting);
    let (advisories, findings) = classify_findings(all);

    let mut shown: Vec<ComponentReport> = Vec::new();
    let mut k: usize = 0;
    while k < components.len()
        invariant
            k <= components@.len(),
            shown@.len() == k,
            forall|j: int|
                0 <= j < k ==> is_component_report(components@[j], j, #[trigger] shown@[j]),
        decreases components@.len() - k,
    {
        shown.push(component_report(&components[k], k));
        k = k + 1;
    }

    let ghost given = text::views(notes@);
    let mut notes: Vec<String> = notes;
    if no_orders {
        notes.push("no orders supplied; route/replay audit skipped".to_owned());
    }
    if components.len() > 1 {
        notes.push(parts_text(components));
    }
    assert(text::views(notes@) =~= given + added_notes(components@, no_orders));
    let present: Vec<String> = chains_present(&peers);
    HarnessReport {
        peers,
        chains_present: present,
        components: shown,
        advisories,
        findings,
        nets,
        notes,
    }
}

/// Whether a run of the report counts as failed: on a hard finding, and under
/// the strict rule on an advisory too.
pub fn report_failed(report: &HarnessReport, strict: bool) -> (r: bool)
    ensures
        r == (report.findings@.len() > 0 || (strict && report.advisories@.len() > 0)),
{
    report.findings.len() > 0 || (strict && report.advisories.len() > 0)
}

proof fn lemma_filtered_keeps(findings: Seq<Finding>, keep: spec_fn(Finding) -> bool, i: int)
    requires
        0 <= i < findings.len(),
    ensures
        keep(findings[i]) ==> findings.filter(keep).contains(findings[i]),
        !keep(findings[i]) ==> !findings.filter(keep).contains(findings[i]),
    decreases findings.len(),
{
    reveal(Seq::filter);
    let init = findings.drop_last();
    let before = init.filter(keep);
    let all = findings.filter(keep);
    if i < init.len() {
        lemma_filtered_keeps(init, keep, i);
        if keep(findings[i]) {
            let k = choose|k: int| 0 <= k < before.len() && before[k] == findings[i];
            assert(all[k] == findings[i]);
        } else if all.contains(findings[i]) {
            let k = choose|k: int| 0 <= k < all.len() && all[k] == findings[i];
            if k < before.len() {
                assert(before[k] == findings[i]);
            }
        }
    } else if keep(findings[i]) {
        assert(all[before.len() as int] == findings[i]);
    } else if all.contains(findings[i]) {
        let k = choose|k: int| 0 <= k < all.len() && all[k] == findings[i];
        lemma_filtered_all_kept(init, keep, k);
    }
}

proof fn lemma_filtered_all_kept(findings: Seq<Finding>, keep: spec_fn(Finding) -> bool, k: int)
    requires
        0 <= k < findings.filter(keep).len(),
    ensures
        keep(findings.filter(keep)[k]),
        findings.contains(findings.filter(keep)[k]),
    decreases findings.len(),
{
    reveal(Seq::filter);
    if findings.len() > 0 {
        let init = findings.drop_last();
        if k < init.filter(keep).len() {
            lemma_filtered_all_kept(init, keep, k);
            let at = choose|at: int| 0 <= at < init.len() && init[at] == init.filter(keep)[k];
            assert(findings[at] == findings.filter(keep)[k]);
        } else {
            assert(findings[findings.len() - 1] == findings.filter(keep)[k]);
        }
    }
}

/// The finding is of a kind that no topology explains: a fork, a broken chain,
/// two sides of an edge that disagree, a payment applied twice, an overdraft.
pub open spec fn is_hard_kind(finding: Finding) -> bool {
    match finding {
        Finding::Fork { ledger_id, height, heads } => true,
        Finding::ChainInvalid { node, reason } => true,
        Finding::MirrorMismatch { parent, child, parent_view, child_view, direction } => true,
        Finding::RouteInvalid { payment_id, reason } => false,
        Finding::Replay { payment_id, reason } => true,
        Finding::Overdraw { node, account, deficit } => true,
        Finding::Detached { parent, child } => false,
        Finding::StaleChildLink { parent, child } => false,
    }
}

/// Sorting findings goes by their kind: a fork, a broken chain, a mismatch, a
/// replay and an overdraft are hard; an invalid route, a detached node and a stale
/// row are advisories. Every finding is in one list and not in the other.
pub proof fn law_findings_are_sorted_by_kind(
    findings: Vec<Finding>,
    r: (Vec<Finding>, Vec<Finding>),
    i: int,
    k: int,
)
    requires
        call_ensures(classify_findings, (findings,), r),
    ensures
        0 <= i < findings@.len() ==> {
            let one = findings@[i];
            &&& one is Fork || one is ChainInvalid || one is MirrorMismatch || one is Replay
                || one is Overdraw ==> r.1@.contains(one) && !r.0@.contains(one)
            &&& one is RouteInvalid || one is Detached || one is StaleChildLink
                ==> r.0@.contains(one) && !r.1@.contains(one)
        },
        0 <= k < r.0@.len() ==> findings@.contains(r.0@[k]) && !is_hard_kind(r.0@[k]),
        0 <= k < r.1@.len() ==> findings@.contains(r.1@[k]) && is_hard_kind(r.1@[k]),
        r.0@.len() + r.1@.len() == findings@.len(),
{
    let soft = |finding: Finding| finding.spec_is_advisory();
    let hard = |finding: Finding| !finding.spec_is_advisory();
    assert(r.0@ == findings@.filter(soft));
    assert(r.1@ == findings@.filter(hard));
    if 0 <= i < findings@.len() {
        lemma_filtered_keeps(findings@, soft, i);
        lemma_filtered_keeps(findings@, hard, i);
    }
    if 0 <= k < r.0@.len() {
        lemma_filtered_all_kept(findings@, soft, k);
    }
    if 0 <= k < r.1@.len() {
        lemma_filtered_all_kept(findings@, hard, k);
    }
    law_classification_is_a_partition(findings@);
}

/// A run fails on any hard finding, strict or not. A run that found advisories
/// alone, stale rows among them, fails only under the strict rule, and one that
/// found nothing never does.
pub proof fn law_hard_findings_fail_the_run(
    peers: Vec<PeerReport>,
    components: Vec<NetComponent>,
    stale: Vec<StaleLink>,
    netting: Vec<Finding>,
    nets: Vec<NetTransfer>,
    no_orders: bool,
    notes: Vec<String>,
    strict: bool,
    report_made: HarnessReport,
    failed: bool,
    i: int,
)
    requires
        call_ensures(
            report,
            (peers, &components, &stale, netting, nets, no_orders, notes),
            report_made,
        ),
        call_ensures(report_failed, (&report_made, strict), failed),
    ensures
        0 <= i < netting@.len() && is_hard_kind(netting@[i]) ==> failed
            && report_made.findings@.contains(netting@[i]),
        0 <= i < netting@.len() && !is_hard_kind(netting@[i]) ==> report_made.advisories@.contains(
            netting@[i],
        ),
        (forall|j: int| 0 <= j < netting@.len() ==> !is_hard_kind(#[trigger] netting@[j])) ==> {
            &&& report_made.findings@.len() == 0
            &&& failed == (strict && stale@.len() + netting@.len() > 0)
        },
{
    let first = choose|first: Seq<Finding>| #[trigger]
        are_stale_findings(stale@, first) && report_made.advisories@ == advisories_of(
            first + netting@,
        ) && report_made.findings@ == hard_of(first + netting@);
    let all = first + netting@;
    let soft = |finding: Finding| finding.spec_is_advisory();
    let hard = |finding: Finding| !finding.spec_is_advisory();
    assert(report_made.advisories@ == all.filter(soft));
    assert(report_made.findings@ == all.filter(hard));
    law_classification_is_a_partition(all);
    if 0 <= i < netting@.len() {
        assert(all[first.len() + i] == netting@[i]);
        lemma_filtered_keeps(all, soft, first.len() + i);
        lemma_filtered_keeps(all, hard, first.len() + i);
    }
    if forall|j: int| 0 <= j < netting@.len() ==> !is_hard_kind(#[trigger] netting@[j]) {
        if report_made.findings@.len() > 0 {
            lemma_filtered_all_kept(all, hard, 0);
            let one = report_made.findings@[0];
            let at = choose|at: int| 0 <= at < all.len() && all[at] == one;
            if at >= first.len() {
                assert(all[at] == netting@[at - first.len()]);
            } else {
                assert(all[at] == first[at]);
            }
        }
    }
}

/// The report names the peers that have commitments and no others, calls the
/// first component the primary one and no other, keeps each component's root and
/// members, and shows every stale row as an advisory of its two ends.
pub proof fn law_report_shows_what_was_loaded(
    peers: Vec<PeerReport>,
    components: Vec<NetComponent>,
    stale: Vec<StaleLink>,
    netting: Vec<Finding>,
    nets: Vec<NetTransfer>,
    no_orders: bool,
    notes: Vec<String>,
    report_made: HarnessReport,
    p: int,
    c: int,
    l: int,
)
    requires
        call_ensures(
            report,
            (peers, &components, &stale, netting, nets, no_orders, notes),
            report_made,
        ),
    ensures
        report_made.nets@ == nets@,
        report_made.peers@ == peers@,
        0 <= p < peers@.len() && peers@[p].chain_present ==> report_made.chains_present@.contains(
            peers@[p].node_id,
        ),
        report_made.components@.len() == components@.len(),
        0 <= c < components@.len() ==> {
            &&& report_made.components@[c].root == components@[c].root
            &&& report_made.components@[c].primary == (c == 0)
            &&& report_made.components@[c].nodes@.len() == components@[c].nodes@.len()
            &&& report_made.components@[c].stranded_parent == components@[c].stranded_parent
        },
        0 <= l < stale@.len() ==> report_made.advisories@.contains(
            Finding::StaleChildLink { parent: stale@[l].parent, child: stale@[l].child },
        ),
        report_made.notes@.len() == notes@.len() + (if no_orders {
            1int
        } else {
            0
        }) + (if components@.len() > 1 {
            1int
        } else {
            0
        }),
{
    assert(text::views(report_made.notes@).len() == report_made.notes@.len());
    assert(text::views(notes@).len() == notes@.len());
    if 0 <= p < peers@.len() && peers@[p].chain_present {
        lemma_present_is_kept(peers@, p);
        let kept = with_chain(peers@);
        let k = choose|k: int| 0 <= k < kept.len() && kept[k] == peers@[p];
        assert(report_made.chains_present@[k] == peers@[p].node_id);
    }
    if 0 <= c < components@.len() {
        let shown = report_made.components@[c];
        assert(is_component_report(components@[c], c, shown));
        let ids = member_ids(components@[c].nodes@);
        ids.to_multiset_ensures();
        text::views(shown.nodes@).to_multiset_ensures();
    }
    if 0 <= l < stale@.len() {
        let first = choose|first: Seq<Finding>| #[trigger]
            are_stale_findings(stale@, first) && report_made.advisories@ == advisories_of(
                first + netting@,
            ) && report_made.findings@ == hard_of(first + netting@);
        let all = first + netting@;
        assert(all[l] == first[l]);
        lemma_filtered_keeps(all, |finding: Finding| finding.spec_is_advisory(), l);
    }
}

proof fn lemma_present_is_kept(peers: Seq<PeerReport>, p: int)
    requires
        0 <= p < peers.len(),
        peers[p].chain_present,
    ensures
        with_chain(peers).contains(peers[p]),
    decreases peers.len(),
{
    reveal(Seq::filter);
    let init = peers.drop_last();
    if p < init.len() {
        lemma_present_is_kept(init, p);
        let k = choose|k: int| 0 <= k < with_chain(init).len() && with_chain(init)[k] == peers[p];
        assert(with_chain(peers)[k] == peers[p]);
    } else {
        assert(with_chain(peers)[with_chain(init).len() as int] == peers[p]);
    }
}

/// Merging a registry row by row, the first row of a node stands. A second one
/// is a conflict exactly where a key, the role or the id differs, and the conflict
/// shows both.
pub proof fn law_rows_of_one_node_must_agree(
    rows: Map<Seq<char>, PeerKeys>,
    known: PeerKeys,
    row: PeerKeys,
)
    requires
        rows.contains_key(row.node_id@),
        rows[row.node_id@] == known,
        known.node_id@ == row.node_id@,
    ensures
        merged(rows, row) == rows,
        conflicts(rows, row) <==> known.operator != row.operator || known.ledger != row.ledger
            || known.role != row.role,
{
}

/// Topology explains an invalid route, a detached node and a stale row. It explains
/// no fork, no broken chain, no mismatch, no replay and no overdraft.
pub proof fn law_topology_explains_only_topology(finding: Finding, r: bool)
    requires
        call_ensures(Finding::is_advisory, (&finding,), r),
    ensures
        match finding {
            Finding::RouteInvalid { .. } => r,
            Finding::Detached { .. } => r,
            Finding::StaleChildLink { .. } => r,
            Finding::Fork { .. } => !r,
            Finding::ChainInvalid { .. } => !r,
            Finding::MirrorMismatch { .. } => !r,
            Finding::Replay { .. } => !r,
            Finding::Overdraw { .. } => !r,
        },
{
}

/// A row is taken in where its node has none; a row that says the same changes
/// nothing; one that differs is reported with both, and the first stays.
pub proof fn law_first_row_of_a_node_stays(
    rows: &mut TextMap<PeerKeys>,
    row: PeerKeys,
    r: Result<(), RowConflict>,
    id: Seq<char>,
)
    requires
        old(rows).wf(),
        call_ensures(merge_peer, (rows, row), r),
    ensures
        old(rows)@.contains_key(id) ==> final(rows)@.contains_key(id) && final(rows)@[id] == old(
            rows,
        )@[id],
        final(rows)@.contains_key(row.node_id@),
        !old(rows)@.contains_key(row.node_id@) ==> r is Ok && final(rows)@[row.node_id@] == row,
        id != row.node_id@ ==> (final(rows)@.contains_key(id) <==> old(rows)@.contains_key(id)),
        r matches Err(conflict) ==> conflict.node == row.node_id && conflict.found == row
            && conflict.known == old(rows)@[row.node_id@] && conflict.known != row,
        old(rows)@.contains_key(row.node_id@) && old(rows)@[row.node_id@] == row ==> r is Ok,
{
}

/// A peer's directory is loaded only where it is there with its record and both its
/// keys, and only where its description is of the same node and the same key.
pub proof fn law_peers_are_loaded_whole(
    dir: &str,
    there: bool,
    has_record: bool,
    has_ledger_key: bool,
    has_identity: bool,
    found: Result<(), String>,
    record_id: String,
    meta_id: String,
    key: LedgerPubKey,
    meta_key: LedgerPubKey,
    same: Result<(), String>,
    chain_len: usize,
    report_made: PeerReport,
)
    requires
        call_ensures(
            validate_peer_dir,
            (dir, there, has_record, has_ledger_key, has_identity),
            found,
        ),
        call_ensures(check_peer_identity, (dir, &record_id, &meta_id, &key, &meta_key), same),
        call_ensures(peer_report, (&record_id, &meta_id, chain_len), report_made),
    ensures
        found is Ok <==> there && has_record && has_ledger_key && has_identity,
        same is Ok <==> record_id@ == meta_id@ && key == meta_key,
        report_made.node_id == record_id,
        report_made.data_dir == meta_id,
        report_made.chain_len == chain_len,
        report_made.chain_present <==> chain_len > 0,
{
}

proof fn lemma_names_come_apart()
    ensures
        "fork ledger="@ == "fork"@ + " ledger="@,
        "chain_invalid node="@ == "chain_invalid"@ + " node="@,
        "mirror_mismatch edge="@ == "mirror_mismatch"@ + " edge="@,
        "route_invalid payment="@ == "route_invalid"@ + " payment="@,
        "replay payment="@ == "replay"@ + " payment="@,
        "overdraw node="@ == "overdraw"@ + " node="@,
        " account=child:"@ == " account="@ + "child:"@,
        " account=parent"@ == " account="@ + "parent"@,
        "detached parent="@ == "detached"@ + " parent="@,
        "stale_child_link parent="@ == "stale_child_link"@ + " parent="@,
{
    assert("fork ledger="@ =~= "fork"@ + " ledger="@) by {
        reveal_strlit("fork ledger=");
        reveal_strlit("fork");
        reveal_strlit(" ledger=");
    }
    assert("chain_invalid node="@ =~= "chain_invalid"@ + " node="@) by {
        reveal_strlit("chain_invalid node=");
        reveal_strlit("chain_invalid");
        reveal_strlit(" node=");
    }
    assert("mirror_mismatch edge="@ =~= "mirror_mismatch"@ + " edge="@) by {
        reveal_strlit("mirror_mismatch edge=");
        reveal_strlit("mirror_mismatch");
        reveal_strlit(" edge=");
    }
    assert("route_invalid payment="@ =~= "route_invalid"@ + " payment="@) by {
        reveal_strlit("route_invalid payment=");
        reveal_strlit("route_invalid");
        reveal_strlit(" payment=");
    }
    assert("replay payment="@ =~= "replay"@ + " payment="@) by {
        reveal_strlit("replay payment=");
        reveal_strlit("replay");
        reveal_strlit(" payment=");
    }
    assert("overdraw node="@ =~= "overdraw"@ + " node="@) by {
        reveal_strlit("overdraw node=");
        reveal_strlit("overdraw");
        reveal_strlit(" node=");
    }
    assert(" account=child:"@ =~= " account="@ + "child:"@) by {
        reveal_strlit(" account=child:");
        reveal_strlit(" account=");
        reveal_strlit("child:");
    }
    assert(" account=parent"@ =~= " account="@ + "parent"@) by {
        reveal_strlit(" account=parent");
        reveal_strlit(" account=");
        reveal_strlit("parent");
    }
    assert("detached parent="@ =~= "detached"@ + " parent="@) by {
        reveal_strlit("detached parent=");
        reveal_strlit("detached");
        reveal_strlit(" parent=");
    }
    assert("stale_child_link parent="@ =~= "stale_child_link"@ + " parent="@) by {
        reveal_strlit("stale_child_link parent=");
        reveal_strlit("stale_child_link");
        reveal_strlit(" parent=");
    }
}

proof fn lemma_pair_is_shown(
    head: Seq<char>,
    a: Seq<char>,
    x: Seq<char>,
    b: Seq<char>,
    y: Seq<char>,
    rest: Seq<char>,
)
    ensures
        text::occurs(head + a + x + b + y, a + x + b + y),
        text::occurs(head + a + x + b + y + rest, a + x + b + y),
{
    let none = Seq::<char>::empty();
    let part = a + x + b + y;
    assert(head + a + x + b + y =~= head + part + none);
    assert(head + a + x + b + y + rest =~= head + part + rest);
    text::lemma_occurs_between(head, part, none);
    text::lemma_occurs_between(head, part, rest);
}

/// A line on a finding shows the finding's own values, each behind its own name.
pub proof fn law_findings_show_their_culprits(finding: Finding, r: String)
    requires
        call_ensures(Finding::describe_finding, (&finding,), r),
    ensures
        match finding {
            Finding::Fork { ledger_id, height, heads } => text::occurs(
                r@,
                " ledger="@ + text::hex_lower(ledger_id@) + " height="@ + text::decimal(
                    height as nat,
                ),
            ),
            Finding::ChainInvalid { node, reason } => text::occurs(
                r@,
                " node="@ + node@ + " reason="@ + reason@,
            ),
            Finding::MirrorMismatch { parent, child, parent_view, child_view, direction } => {
                &&& text::occurs(r@, " edge="@ + parent@ + "->"@ + child@)
                &&& text::occurs(r@, " parent_view="@ + parent_view@)
                &&& text::occurs(r@, " child_view="@ + child_view@)
                &&& text::occurs(r@, " direction="@ + direction@)
            },
            Finding::RouteInvalid { payment_id, reason } => text::occurs(
                r@,
                " payment="@ + text::hex_lower(payment_id@) + " reason="@ + reason@,
            ),
            Finding::Replay { payment_id, reason } => text::occurs(
                r@,
                " payment="@ + text::hex_lower(payment_id@) + " reason="@ + reason@,
            ),
            Finding::Overdraw { node, account, deficit } => {
                &&& text::occurs(r@, " node="@ + node@)
                &&& account matches AccountRef::Child(id) ==> text::occurs(
                    r@,
                    " account=child:"@ + id@,
                )
                &&& account is Parent ==> text::occurs(r@, " account=parent"@)
                &&& text::occurs(r@, " deficit="@ + deficit@)
            },
            Finding::Detached { parent, child } => text::occurs(
                r@,
                " parent="@ + parent@ + " child="@ + child@,
            ),
            Finding::StaleChildLink { parent, child } => text::occurs(
                r@,
                " parent="@ + parent@ + " child="@ + child@,
            ),
        },
{
    lemma_names_come_apart();
    let none = Seq::<char>::empty();
    match finding {
        Finding::Fork { ledger_id, height, heads } => {
            let name = text::hex_lower(ledger_id@);
            let number = text::decimal(height as nat);
            let shown = "fork"@ + " ledger="@ + name + " height="@ + number;
            let part = " ledger="@ + name + " height="@ + number;
            lemma_pair_is_shown("fork"@, " ledger="@, name, " height="@, number, none);
            let ends = text::joined(hex_all(heads@), ", "@);
            text::lemma_still_shown(shown, part, " heads=["@, ends);
            text::lemma_still_shown(shown + " heads=["@ + ends, part, "]"@, none);
            assert(r@ + none =~= r@);
        },
        Finding::ChainInvalid { node, reason } => {
            lemma_pair_is_shown("chain_invalid"@, " node="@, node@, " reason="@, reason@, none);
        },
        Finding::MirrorMismatch { parent, child, parent_view, child_view, direction } => {
            let edge = "mirror_mismatch"@ + " edge="@ + parent@ + "->"@ + child@;
            let above = edge + " parent_view="@ + parent_view@;
            let below = above + " child_view="@ + child_view@;
            let e = " edge="@ + parent@ + "->"@ + child@;
            let v = " parent_view="@ + parent_view@;
            lemma_pair_is_shown("mirror_mismatch"@, " edge="@, parent@, "->"@, child@, none);
            text::lemma_still_shown(edge, e, " parent_view="@, parent_view@);
            text::lemma_still_shown(above, e, " child_view="@, child_view@);
            text::lemma_still_shown(below, e, " direction="@, direction@);
            text::lemma_next_is_shown(edge, " parent_view="@, parent_view@, none);
            text::lemma_still_shown(above, v, " child_view="@, child_view@);
            text::lemma_still_shown(below, v, " direction="@, direction@);
            text::lemma_next_is_shown(above, " child_view="@, child_view@, none);
            text::lemma_still_shown(
                below,
                " child_view="@ + child_view@,
                " direction="@,
                direction@,
            );
            text::lemma_next_is_shown(below, " direction="@, direction@, none);
        },
        Finding::RouteInvalid { payment_id, reason } => {
            let name = text::hex_lower(payment_id@);
            lemma_pair_is_shown("route_invalid"@, " payment="@, name, " reason="@, reason@, none);
        },
        Finding::Replay { payment_id, reason } => {
            let name = text::hex_lower(payment_id@);
            lemma_pair_is_shown("replay"@, " payment="@, name, " reason="@, reason@, none);
        },
        Finding::Overdraw { node, account, deficit } => {
            let who = "overdraw"@ + " node="@ + node@;
            let label = spec_account_label(account);
            let what = who + " account="@ + label;
            text::lemma_next_is_shown("overdraw"@, " node="@, node@, none);
            text::lemma_still_shown(who, " node="@ + node@, " account="@, label);
            text::lemma_still_shown(what, " node="@ + node@, " deficit="@, deficit@);
            text::lemma_next_is_shown(who, " account="@, label, none);
            text::lemma_still_shown(what, " account="@ + label, " deficit="@, deficit@);
            text::lemma_next_is_shown(what, " deficit="@, deficit@, none);
            match account {
                AccountRef::Child(id) => {
                    assert(" account="@ + label =~= " account="@ + "child:"@ + id@);
                },
                AccountRef::Parent => {},
            }
        },
        Finding::Detached { parent, child } => {
            lemma_pair_is_shown("detached"@, " parent="@, parent@, " child="@, child@, none);
        },
        Finding::StaleChildLink { parent, child } => {
            lemma_pair_is_shown("stale_child_link"@, " parent="@, parent@, " child="@, child@, none);
        },
    }
}

} // verus!
