//! What the commands show, line by line.
use crate::addr::OctAddr;
use crate::control_msg::{
    AdminPendingJoin, ChildSnapshot, ControlReply, DeliveryStatus, NodeSnapshot,
};
use crate::control_store::JoinRequest;
use crate::netting_harness;
use crate::netting_harness::{Finding, HarnessReport, NetTransfer, PeerReport};
use crate::record::{ChildEntry, NodeRecord};
use crate::text;
use crate::wire::{AccountRef, Digest, LedgerPubKey};
use vstd::prelude::*;

verus! {

/// An address, or `none`.
pub open spec fn address_text(address: Option<OctAddr>) -> Seq<char> {
    match address {
        Some(address) => address.spec_text(),
        None => "none"@,
    }
}

fn show_address(address: &Option<OctAddr>) -> (r: String)
    ensures
        r@ == address_text(*address),
{
    match address {
        Some(address) => address.text(),
        None => "none".to_owned(),
    }
}

/// A slot that is asked for, or `auto`.
pub open spec fn slot_text(slot: Option<u8>) -> Seq<char> {
    match slot {
        Some(slot) => text::decimal(slot as nat),
        None => "auto"@,
    }
}

fn show_slot(slot: Option<u8>) -> (r: String)
    ensures
        r@ == slot_text(slot),
{
    match slot {
        Some(slot) => text::u64_text(slot as u64),
        None => "auto".to_owned(),
    }
}

/// A child link of the record.
pub open spec fn record_child_line(child: ChildEntry) -> Seq<char> {
    "  slot "@ + text::decimal(child.slot as nat) + ": "@ + child.kind.spec_label() + " "@
        + child.child_id@ + " (joined "@ + text::decimal(child.date_joined as nat) + ")"@
}

/// A child's derived address.
pub open spec fn derived_line(child: ChildEntry, address: OctAddr) -> Seq<char> {
    "derived child slot "@ + text::decimal(child.slot as nat) + " address: "@ + OctAddr::Child(
        Box::new(address),
        child.slot,
    ).spec_text()
}

/// The lines that show a record: its links, and the addresses that follow from
/// its own.
pub open spec fn record_lines(record: NodeRecord) -> Seq<Seq<char>> {
    let children = record.children@;
    let head = seq![
        "node_id: "@ + record.node_id@,
        "address: "@ + address_text(record.address),
        match record.parent {
            Some(link) => "parent: { parent_id: "@ + link.parent_id@ + ", slot: "@ + text::decimal(
                link.slot as nat,
            ) + " }"@,
            None => "parent: none"@,
        },
    ];
    let listed = if children.len() == 0 {
        head.push("children: (none)"@)
    } else {
        head.push("children:"@) + children.map_values(|child: ChildEntry| record_child_line(child))
    };
    match record.address {
        None => listed,
        Some(address) => listed.push(
            "derived parent address: "@ + address_text(address.spec_parent()),
        ) + children.map_values(|child: ChildEntry| derived_line(child, address)),
    }
}

/// The lines that show a record.
pub fn show(record: &NodeRecord) -> (r: Vec<String>)
    ensures
        text::views(r@) == record_lines(*record),
{
    let mut r: Vec<String> = Vec::new();
    r.push(text::between("node_id: ", record.node_id.as_str(), ""));
    r.push(text::between("address: ", show_address(&record.address).as_str(), ""));
    let parent: String = match &record.parent {
        Some(link) => {
            let mut line: String = text::between(
                "parent: { parent_id: ",
                link.parent_id.as_str(),
                ", slot: ",
            );
            line.append(text::u64_text(link.slot as u64).as_str());
            line.append(" }");
            line
        },
        None => "parent: none".to_owned(),
    };
    r.push(parent);
    let ghost children = record.children@;
    let ghost listed = children.map_values(|child: ChildEntry| record_child_line(child));
    if record.children.len() == 0 {
        r.push("children: (none)".to_owned());
    } else {
        r.push("children:".to_owned());
    }
    let ghost head = text::views(r@);
    proof {
        reveal_strlit("");
        assert(head[0] =~= "node_id: "@ + record.node_id@);
        assert(head[1] =~= "address: "@ + address_text(record.address));
        assert(head =~= seq![head[0], head[1], head[2]].push(head[3]));
        assert(head + listed.take(0) =~= head);
    }
    let mut i: usize = 0;
    while i < record.children.len()
        invariant
            i <= record.children@.len(),
            children == record.children@,
            listed == children.map_values(|child: ChildEntry| record_child_line(child)),
            text::views(r@) == head + listed.take(i as int),
        decreases record.children@.len() - i,
    {
        let child: &ChildEntry = &record.children[i];
        let mut line: String = text::between(
            "  slot ",
            text::u64_text(child.slot as u64).as_str(),
            ": ",
        );
        line.append(child.kind.label());
        line.append(" ");
        line.append(child.child_id.as_str());
        line.append(" (joined ");
        line.append(text::u64_text(child.date_joined).as_str());
        line.append(")");
        let ghost before = text::views(r@);
        r.push(line);
        proof {
            assert(text::views(r@) =~= before.push(listed[i as int]));
            assert(head + listed.take(i + 1) =~= before.push(listed[i as int]));
        }
        i = i + 1;
    }
    assert(listed.take(i as int) =~= listed);
    match &record.address {
        None => {
            if record.children.len() == 0 {
                assert(head + listed =~= head);
            }
        },
        Some(address) => {
            let ghost derived = children.map_values(|child: ChildEntry| derived_line(child, *address));
            let up: Option<OctAddr> = address.parent();
            r.push(text::between("derived parent address: ", show_address(&up).as_str(), ""));
            let ghost base = text::views(r@);
            proof {
                reveal_strlit("");
                assert(base.last() =~= "derived parent address: "@ + address_text(
                    address.spec_parent(),
                ));
                assert(base =~= (head + listed).push(base.last()));
                if record.children@.len() == 0 {
                    assert(head + listed =~= head);
                }
                assert(base + derived.take(0) =~= base);
            }
            let mut k: usize = 0;
            while k < record.children.len()
                invariant
                    k <= record.children@.len(),
                    children == record.children@,
                    derived == children.map_values(
                        |child: ChildEntry| derived_line(child, *address),
                    ),
                    text::views(r@) == base + derived.take(k as int),
                decreases record.children@.len() - k,
            {
                let child: &ChildEntry = &record.children[k];
                let mut line: String = text::between(
                    "derived child slot ",
                    text::u64_text(child.slot as u64).as_str(),
                    " address: ",
                );
                line.append(address.child(child.slot).text().as_str());
                let ghost before = text::views(r@);
                r.push(line);
                proof {
                    assert(text::views(r@) =~= before.push(derived[k as int]));
                    assert(base + derived.take(k + 1) =~= before.push(derived[k as int]));
                }
                k = k + 1;
            }
            assert(derived.take(k as int) =~= derived);
        },
    }
    r
}

/// A child link of a snapshot.
pub open spec fn snapshot_child_line(child: ChildSnapshot) -> Seq<char> {
    "child: "@ + child.child_id@ + " kind="@ + child.kind.spec_label() + " slot="@ + text::decimal(
        child.slot as nat,
    ) + " address="@ + address_text(child.address) + " joined="@ + text::decimal(
        child.date_joined as nat,
    )
}

/// The lines that show a snapshot.
pub open spec fn snapshot_lines(snapshot: NodeSnapshot) -> Seq<Seq<char>> {
    let head = seq![
        "node_id: "@ + snapshot.node_id@,
        "address: "@ + address_text(snapshot.address),
        match snapshot.parent {
            Some(parent) => "parent: "@ + parent.node_id@ + " slot "@ + text::decimal(
                parent.slot as nat,
            ) + " address "@ + parent.address.spec_text(),
            None => "parent: none"@,
        },
    ];
    if snapshot.children@.len() == 0 {
        head.push("children: (none)"@)
    } else {
        head + snapshot.children@.map_values(|child: ChildSnapshot| snapshot_child_line(child))
    }
}

/// The lines that show a snapshot.
pub fn print_snapshot(snapshot: &NodeSnapshot) -> (r: Vec<String>)
    ensures
        text::views(r@) == snapshot_lines(*snapshot),
{
    let mut r: Vec<String> = Vec::new();
    r.push(text::between("node_id: ", snapshot.node_id.as_str(), ""));
    r.push(text::between("address: ", show_address(&snapshot.address).as_str(), ""));
    let parent: String = match &snapshot.parent {
        Some(parent) => {
            let mut line: String = text::between("parent: ", parent.node_id.as_str(), " slot ");
            line.append(text::u64_text(parent.slot as u64).as_str());
            line.append(" address ");
            line.append(parent.address.text().as_str());
            line
        },
        None => "parent: none".to_owned(),
    };
    r.push(parent);
    let ghost head = text::views(r@);
    let ghost listed = snapshot.children@.map_values(
        |child: ChildSnapshot| snapshot_child_line(child),
    );
    proof {
        reveal_strlit("");
        assert(head[0] =~= "node_id: "@ + snapshot.node_id@);
        assert(head[1] =~= "address: "@ + address_text(snapshot.address));
        assert(head =~= seq![head[0], head[1], head[2]]);
        assert(head + listed.take(0) =~= head);
    }
    if snapshot.children.len() == 0 {
        r.push("children: (none)".to_owned());
        assert(text::views(r@) =~= head.push("children: (none)"@));
        return r;
    }
    let mut i: usize = 0;
    while i < snapshot.children.len()
        invariant
            i <= snapshot.children@.len(),
            listed == snapshot.children@.map_values(
                |child: ChildSnapshot| snapshot_child_line(child),
            ),
            text::views(r@) == head + listed.take(i as int),
        decreases snapshot.children@.len() - i,
    {
        let child: &ChildSnapshot = &snapshot.children[i];
        let mut line: String = text::between("child: ", child.child_id.as_str(), " kind=");
        line.append(child.kind.label());
        line.append(" slot=");
        line.append(text::u64_text(child.slot as u64).as_str());
        line.append(" address=");
        line.append(show_address(&child.address).as_str());
        line.append(" joined=");
        line.append(text::u64_text(child.date_joined).as_str());
        let ghost before = text::views(r@);
        r.push(line);
        proof {
            assert(text::views(r@) =~= before.push(listed[i as int]));
            assert(head + listed.take(i + 1) =~= before.push(listed[i as int]));
        }
        i = i + 1;
    }
    assert(listed.take(i as int) =~= listed);
    r
}

/// A waiting join as an admin sees it.
pub open spec fn pending_line(pending: AdminPendingJoin) -> Seq<char> {
    "pending: "@ + pending.child@ + " kind="@ + pending.kind.spec_label() + " operator="@
        + text::hex_lower(pending.operator@) + " slot="@ + slot_text(pending.desired_slot)
        + " expiry="@ + text::decimal(pending.expiry as nat)
}

/// The lines that show the waiting joins.
pub open spec fn pending_lines(pending: Seq<AdminPendingJoin>) -> Seq<Seq<char>> {
    if pending.len() == 0 {
        seq!["pending: (none)"@]
    } else {
        pending.map_values(|join: AdminPendingJoin| pending_line(join))
    }
}

fn print_pending(pending: &Vec<AdminPendingJoin>) -> (r: Vec<String>)
    ensures
        text::views(r@) == pending_lines(pending@),
{
    let mut r: Vec<String> = Vec::new();
    if pending.len() == 0 {
        r.push("pending: (none)".to_owned());
        assert(text::views(r@) =~= seq!["pending: (none)"@]);
        return r;
    }
    let ghost listed = pending@.map_values(|join: AdminPendingJoin| pending_line(join));
    let mut i: usize = 0;
    assert(text::views(r@) =~= listed.take(0));
    while i < pending.len()
        invariant
            i <= pending@.len(),
            listed == pending@.map_values(|join: AdminPendingJoin| pending_line(join)),
            text::views(r@) == listed.take(i as int),
        decreases pending@.len() - i,
    {
        let join: &AdminPendingJoin = &pending[i];
        let mut line: String = text::between("pending: ", join.child.as_str(), " kind=");
        line.append(join.kind.label());
        line.append(" operator=");
        line.append(text::hex_text(join.operator.as_slice()).as_str());
        line.append(" slot=");
        line.append(show_slot(join.desired_slot).as_str());
        line.append(" expiry=");
        line.append(text::u64_text(join.expiry).as_str());
        let ghost before = text::views(r@);
        r.push(line);
        proof {
            assert(text::views(r@) =~= before.push(listed[i as int]));
            assert(listed.take(i + 1) =~= before.push(listed[i as int]));
        }
        i = i + 1;
    }
    assert(listed.take(i as int) =~= listed);
    r
}

/// A delivery as shown.
pub open spec fn delivery_text(status: DeliveryStatus) -> Seq<char> {
    match status {
        DeliveryStatus::Delivered => "Delivered"@,
        DeliveryStatus::Rejected(code) => "Rejected("@ + code.spec_name() + ")"@,
        DeliveryStatus::TimedOut => "TimedOut"@,
        DeliveryStatus::Unreachable => "Unreachable"@,
    }
}

/// A delivery as shown.
pub fn show_delivery(status: DeliveryStatus) -> (r: String)
    ensures
        r@ == delivery_text(status),
{
    match status {
        DeliveryStatus::Delivered => "Delivered".to_owned(),
        DeliveryStatus::Rejected(code) => text::between("Rejected(", code.name(), ")"),
        DeliveryStatus::TimedOut => "TimedOut".to_owned(),
        DeliveryStatus::Unreachable => "Unreachable".to_owned(),
    }
}

/// The lines that show a reply.
pub open spec fn reply_lines(reply: ControlReply) -> Seq<Seq<char>> {
    match reply {
        ControlReply::Accepted => seq!["accepted"@],
        ControlReply::Pending => seq!["pending"@],
        ControlReply::Rejected(code) => seq!["rejected: "@ + code.spec_name()],
        ControlReply::Snapshot(snapshot) => snapshot_lines(snapshot),
        ControlReply::AdminSnapshot { node, pending } => snapshot_lines(node) + pending_lines(
            pending@,
        ),
        ControlReply::AdminApproved { child, slot, address, delivery } => seq![
            "admin-approved: child="@ + child@ + " slot="@ + text::decimal(slot as nat)
                + " address="@ + address.spec_text() + " delivery="@ + delivery_text(delivery),
        ],
        ControlReply::AdminRejected { child, delivery } => seq![
            "admin-rejected: child="@ + child@ + " delivery="@ + delivery_text(delivery),
        ],
    }
}

fn one_line(line: String) -> (r: Vec<String>)
    ensures
        text::views(r@) == seq![line@],
{
    let mut r: Vec<String> = Vec::new();
    r.push(line);
    assert(text::views(r@) =~= seq![line@]);
    r
}

/// The lines that show a reply.
pub fn print_reply(reply: &ControlReply) -> (r: Vec<String>)
    ensures
        text::views(r@) == reply_lines(*reply),
{
    match reply {
        ControlReply::Accepted => one_line("accepted".to_owned()),
        ControlReply::Pending => one_line("pending".to_owned()),
        ControlReply::Rejected(code) => {
            let mut line: String = "rejected: ".to_owned();
            line.append(code.name());
            one_line(line)
        },
        ControlReply::Snapshot(snapshot) => print_snapshot(snapshot),
        ControlReply::AdminSnapshot { node, pending } => {
            let mut r: Vec<String> = print_snapshot(node);
            let mut rest: Vec<String> = print_pending(pending);
            let ghost first = text::views(r@);
            let ghost second = text::views(rest@);
            r.append(&mut rest);
            assert(text::views(r@) =~= first + second);
            r
        },
        ControlReply::AdminApproved { child, slot, address, delivery } => {
            let mut line: String = text::between(
                "admin-approved: child=",
                child.as_str(),
                " slot=",
            );
            line.append(text::u64_text(*slot as u64).as_str());
            line.append(" address=");
            line.append(address.text().as_str());
            line.append(" delivery=");
            line.append(show_delivery(*delivery).as_str());
            one_line(line)
        },
        ControlReply::AdminRejected { child, delivery } => {
            let mut line: String = text::between(
                "admin-rejected: child=",
                child.as_str(),
                " delivery=",
            );
            line.append(show_delivery(*delivery).as_str());
            one_line(line)
        },
    }
}

/// A waiting join in the operator's list.
pub open spec fn join_line(join: JoinRequest) -> Seq<char> {
    join.node@ + " kind="@ + join.kind.spec_label() + " operator="@ + text::hex_lower(
        join.operator@,
    ) + " slot="@ + slot_text(join.desired_slot) + " expiry="@ + text::decimal(join.expiry as nat)
}

/// The operator's list of waiting joins.
pub fn print_joins(pending: &Vec<JoinRequest>) -> (r: Vec<String>)
    ensures
        text::views(r@) == (if pending@.len() == 0 {
            seq!["no pending join requests"@]
        } else {
            pending@.map_values(|join: JoinRequest| join_line(join))
        }),
{
    if pending.len() == 0 {
        return one_line("no pending join requests".to_owned());
    }
    let mut r: Vec<String> = Vec::new();
    let ghost listed = pending@.map_values(|join: JoinRequest| join_line(join));
    let mut i: usize = 0;
    assert(text::views(r@) =~= listed.take(0));
    while i < pending.len()
        invariant
            i <= pending@.len(),
            listed == pending@.map_values(|join: JoinRequest| join_line(join)),
            text::views(r@) == listed.take(i as int),
        decreases pending@.len() - i,
    {
        let join: &JoinRequest = &pending[i];
        let mut line: String = join.node.clone();
        line.append(" kind=");
        line.append(join.kind.label());
        line.append(" operator=");
        line.append(text::hex_text(join.operator.as_slice()).as_str());
        line.append(" slot=");
        line.append(show_slot(join.desired_slot).as_str());
        line.append(" expiry=");
        line.append(text::u64_text(join.expiry).as_str());
        let ghost before = text::views(r@);
        r.push(line);
        proof {
            assert(text::views(r@) =~= before.push(listed[i as int]));
            assert(listed.take(i + 1) =~= before.push(listed[i as int]));
        }
        i = i + 1;
    }
    assert(listed.take(i as int) =~= listed);
    r
}

/// The state of a ledger as shown.
#[derive(Debug)]
pub struct LedgerView {
    /// The node.
    pub node_id: String,
    /// The ledger's key.
    pub ledger_id: LedgerPubKey,
    /// Number of entries.
    pub entries: u64,
    /// Its height.
    pub height: u64,
    /// Its head.
    pub head: Digest,
    /// Whether the node has no parent.
    pub is_root: bool,
    /// The claim on the parent.
    pub parent_balance: u64,
    /// What is left for the node itself.
    pub equity: i128,
    /// The accounts and their balances.
    pub accounts: Vec<(AccountRef, u64)>,
}

/// The line for one account, where it is shown: the claim on the parent is shown
/// above.
pub open spec fn account_line(row: (AccountRef, u64)) -> Seq<char> {
    "  "@ + netting_harness::spec_account_label(row.0) + ": "@ + text::decimal(row.1 as nat)
}

/// The accounts that get a line of their own.
pub open spec fn child_accounts(rows: Seq<(AccountRef, u64)>) -> Seq<(AccountRef, u64)> {
    rows.filter(|row: (AccountRef, u64)| !(row.0 is Parent))
}

/// The lines that show a ledger.
pub open spec fn ledger_lines(view: LedgerView) -> Seq<Seq<char>> {
    seq![
        "node_id: "@ + view.node_id@,
        "ledger_id: "@ + text::hex_lower(view.ledger_id@),
        "entries: "@ + text::decimal(view.entries as nat),
        "height: "@ + text::decimal(view.height as nat),
        "head: "@ + text::hex_lower(view.head@),
        "root: "@ + (if view.is_root {
            "true"@
        } else {
            "false"@
        }),
        "parent_balance: "@ + text::decimal(view.parent_balance as nat),
        "equity: "@ + text::signed_decimal(view.equity as int),
        "balances:"@,
    ] + child_accounts(view.accounts@).map_values(|row: (AccountRef, u64)| account_line(row))
}

fn labelled(label: &str, value: &str) -> (r: String)
    ensures
        r@ == label@ + value@,
{
    let mut r: String = label.to_owned();
    r.append(value);
    r
}

/// The lines that show a ledger.
pub fn show_ledger(view: &LedgerView) -> (r: Vec<String>)
    ensures
        text::views(r@) == ledger_lines(*view),
{
    let mut r: Vec<String> = Vec::new();
    r.push(labelled("node_id: ", view.node_id.as_str()));
    r.push(labelled("ledger_id: ", text::hex_text(view.ledger_id.as_slice()).as_str()));
    r.push(labelled("entries: ", text::u64_text(view.entries).as_str()));
    r.push(labelled("height: ", text::u64_text(view.height).as_str()));
    r.push(labelled("head: ", text::hex_text(view.head.as_slice()).as_str()));
    if view.is_root {
        r.push(labelled("root: ", "true"));
    } else {
        r.push(labelled("root: ", "false"));
    }
    r.push(labelled("parent_balance: ", text::u64_text(view.parent_balance).as_str()));
    r.push(labelled("equity: ", text::i128_text(view.equity).as_str()));
    r.push("balances:".to_owned());
    let ghost head = text::views(r@);
    let mut i: usize = 0;
    proof {
        reveal(Seq::filter);
        assert(view.accounts@.take(0) =~= Seq::<(AccountRef, u64)>::empty());
        assert(head + child_accounts(view.accounts@.take(0)).map_values(
            |row: (AccountRef, u64)| account_line(row),
        ) =~= head);
    }
    while i < view.accounts.len()
        invariant
            i <= view.accounts@.len(),
            text::views(r@) == head + child_accounts(view.accounts@.take(i as int)).map_values(
                |row: (AccountRef, u64)| account_line(row),
            ),
        decreases view.accounts@.len() - i,
    {
        let ghost now = view.accounts@.take(i as int);
        let ghost next = view.accounts@.take(i + 1);
        let ghost before = text::views(r@);
        proof {
            reveal(Seq::filter);
            assert(next.drop_last() =~= now);
            assert(next.last() == view.accounts@[i as int]);
        }
        match &view.accounts[i].0 {
            AccountRef::Parent => {},
            account => {
                let mut line: String = text::between(
                    "  ",
                    netting_harness::account_label(account).as_str(),
                    ": ",
                );
                line.append(text::u64_text(view.accounts[i].1).as_str());
                r.push(line);
                proof {
                    assert(text::views(r@) =~= before.push(line@));
                    assert(child_accounts(next) =~= child_accounts(now).push(
                        view.accounts@[i as int],
                    ));
                    assert(head + child_accounts(next).map_values(
                        |row: (AccountRef, u64)| account_line(row),
                    ) =~= before.push(line@));
                }
            },
        }
        i = i + 1;
    }
    assert(view.accounts@.take(i as int) =~= view.accounts@);
    assert(head =~= seq![
        head[0],
        head[1],
        head[2],
        head[3],
        head[4],
        head[5],
        head[6],
        head[7],
        head[8],
    ]);
    r
}

/// The lines that show one peer.
pub open spec fn peer_lines(peer: PeerReport) -> Seq<Seq<char>> {
    seq![
        "  "@ + peer.node_id@ + " ("@ + peer.data_dir@ + ")"@,
        "    chain: "@ + (if peer.chain_present {
            "present"@
        } else {
            "absent"@
        }) + " ("@ + text::decimal(peer.chain_len as nat) + " commitments)"@,
    ] + text::views(peer.notes@).map_values(|note: Seq<char>| "    note: "@ + note)
}

/// The lines that show all peers, one after the other.
pub open spec fn peers_lines(peers: Seq<PeerReport>) -> Seq<Seq<char>>
    decreases peers.len(),
{
    if peers.len() == 0 {
        Seq::empty()
    } else {
        peers_lines(peers.drop_last()) + peer_lines(peers.last())
    }
}

/// The lines that show findings.
pub open spec fn finding_lines(findings: Seq<Finding>) -> Seq<Seq<char>> {
    findings.map_values(|finding: Finding| "  "@ + finding.spec_describe())
}

/// The line that shows a collapsed flow.
pub open spec fn net_line(net: NetTransfer) -> Seq<char> {
    "  "@ + net.from@ + " -> "@ + net.to@ + " via "@ + net.parent@ + " : "@ + text::decimal(
        net.amount as nat,
    )
}

/// The lines that show a report.
pub open spec fn net_report_lines(report: HarnessReport) -> Seq<Seq<char>> {
    let chains = text::views(report.chains_present@);
    let present: Seq<Seq<char>> = if chains.len() == 0 {
        Seq::empty()
    } else {
        seq!["chains_present: "@ + text::joined(chains, ", "@)]
    };
    seq!["peers:"@] + peers_lines(report.peers@) + present + text::views(
        report.notes@,
    ).map_values(|note: Seq<char>| "note: "@ + note) + seq![
        "advisories: "@ + text::decimal(report.advisories@.len()),
    ] + finding_lines(report.advisories@) + seq![
        "findings: "@ + text::decimal(report.findings@.len()),
    ] + finding_lines(report.findings@) + seq!["nets: "@ + text::decimal(report.nets@.len())]
        + report.nets@.map_values(|net: NetTransfer| net_line(net))
}

/// Put a label before each line.
fn push_labelled(lines: &mut Vec<String>, label: &str, values: &Vec<String>)
    ensures
        text::views(final(lines)@) == text::views(old(lines)@) + text::views(values@).map_values(
            |value: Seq<char>| label@ + value,
        ),
{
    let ghost base = text::views(lines@);
    let ghost all = text::views(values@).map_values(|value: Seq<char>| label@ + value);
    let mut i: usize = 0;
    assert(base + all.take(0) =~= base);
    while i < values.len()
        invariant
            i <= values@.len(),
            all == text::views(values@).map_values(|value: Seq<char>| label@ + value),
            text::views(lines@) == base + all.take(i as int),
        decreases values@.len() - i,
    {
        let ghost before = text::views(lines@);
        lines.push(labelled(label, values[i].as_str()));
        proof {
            assert(text::views(lines@) =~= before.push(all[i as int]));
            assert(base + all.take(i + 1) =~= before.push(all[i as int]));
        }
        i = i + 1;
    }
    assert(all.take(i as int) =~= all);
}

fn push_findings(lines: &mut Vec<String>, findings: &Vec<Finding>)
    ensures
        text::views(final(lines)@) == text::views(old(lines)@) + finding_lines(findings@),
{
    let ghost base = text::views(lines@);
    let ghost all = finding_lines(findings@);
    let mut i: usize = 0;
    assert(base + all.take(0) =~= base);
    while i < findings.len()
        invariant
            i <= findings@.len(),
            all == finding_lines(findings@),
            text::views(lines@) == base + all.take(i as int),
        decreases findings@.len() - i,
    {
        let ghost before = text::views(lines@);
        lines.push(labelled("  ", findings[i].describe_finding().as_str()));
        proof {
            assert(text::views(lines@) =~= before.push(all[i as int]));
            assert(base + all.take(i + 1) =~= before.push(all[i as int]));
        }
        i = i + 1;
    }
    assert(all.take(i as int) =~= all);
}

fn push_peer(lines: &mut Vec<String>, peer: &PeerReport)
    ensures
        text::views(final(lines)@) == text::views(old(lines)@) + peer_lines(*peer),
{
    let ghost base = text::views(lines@);
    let mut first: String = text::between("  ", peer.node_id.as_str(), " (");
    first.append(peer.data_dir.as_str());
    first.append(")");
    let state: &str = if peer.chain_present {
        "present"
    } else {
        "absent"
    };
    let mut second: String = text::between("    chain: ", state, " (");
    second.append(text::u64_text(peer.chain_len as u64).as_str());
    second.append(" commitments)");
    let ghost head = seq![first@, second@];
    lines.push(first);
    lines.push(second);
    assert(text::views(lines@) =~= base + head);
    push_labelled(lines, "    note: ", &peer.notes);
    let ghost notes = text::views(peer.notes@).map_values(|note: Seq<char>| "    note: "@ + note);
    assert(text::views(peer.notes@).map_values(|value: Seq<char>| "    note: "@ + value) =~= notes);
    assert((base + head) + notes =~= base + (head + notes));
}

/// The lines that show a report.
pub fn print_net_report(report: &HarnessReport) -> (r: Vec<String>)
    ensures
        text::views(r@) == net_report_lines(*report),
{
    let mut r: Vec<String> = Vec::new();
    r.push("peers:".to_owned());
    let ghost s0 = seq!["peers:"@];
    assert(text::views(r@) =~= s0);
    let mut i: usize = 0;
    assert(report.peers@.take(0) =~= Seq::<PeerReport>::empty());
    assert(s0 + Seq::<Seq<char>>::empty() =~= s0);
    while i < report.peers.len()
        invariant
            i <= report.peers@.len(),
            text::views(r@) == s0 + peers_lines(report.peers@.take(i as int)),
        decreases report.peers@.len() - i,
    {
        let ghost now = report.peers@.take(i as int);
        proof {
            assert(report.peers@.take(i + 1).drop_last() =~= now);
            assert(report.peers@.take(i + 1).last() == report.peers@[i as int]);
        }
        push_peer(&mut r, &report.peers[i]);
        assert((s0 + peers_lines(now)) + peer_lines(report.peers@[i as int]) =~= s0 + (peers_lines(
            now,
        ) + peer_lines(report.peers@[i as int])));
        i = i + 1;
    }
    assert(report.peers@.take(i as int) =~= report.peers@);
    let ghost s1 = s0 + peers_lines(report.peers@);
    let ghost chains = text::views(report.chains_present@);
    let ghost present: Seq<Seq<char>> = if chains.len() == 0 {
        Seq::empty()
    } else {
        seq!["chains_present: "@ + text::joined(chains, ", "@)]
    };
    if report.chains_present.len() > 0 {
        r.push(
            labelled("chains_present: ", text::join(&report.chains_present, ", ").as_str()),
        );
    }
    let ghost s2 = s1 + present;
    assert(text::views(r@) =~= s2);
    push_labelled(&mut r, "note: ", &report.notes);
    let ghost notes = text::views(report.notes@).map_values(|note: Seq<char>| "note: "@ + note);
    assert(text::views(report.notes@).map_values(|value: Seq<char>| "note: "@ + value) =~= notes);
    let ghost s3 = s2 + notes;
    let ghost a = seq!["advisories: "@ + text::decimal(report.advisories@.len())];
    r.push(labelled("advisories: ", text::u64_text(report.advisories.len() as u64).as_str()));
    assert(text::views(r@) =~= s3 + a);
    push_findings(&mut r, &report.advisories);
    let ghost s4 = s3 + a + finding_lines(report.advisories@);
    let ghost f = seq!["findings: "@ + text::decimal(report.findings@.len())];
    r.push(labelled("findings: ", text::u64_text(report.findings.len() as u64).as_str()));
    assert(text::views(r@) =~= s4 + f);
    push_findings(&mut r, &report.findings);
    let ghost s5 = s4 + f + finding_lines(report.findings@);
    let ghost n = seq!["nets: "@ + text::decimal(report.nets@.len())];
    r.push(labelled("nets: ", text::u64_text(report.nets.len() as u64).as_str()));
    assert(text::views(r@) =~= s5 + n);
    let ghost nets = report.nets@.map_values(|net: NetTransfer| net_line(net));
    let ghost s6 = s5 + n;
    let mut k: usize = 0;
    assert(s6 + nets.take(0) =~= s6);
    while k < report.nets.len()
        invariant
            k <= report.nets@.len(),
            nets == report.nets@.map_values(|net: NetTransfer| net_line(net)),
            text::views(r@) == s6 + nets.take(k as int),
        decreases report.nets@.len() - k,
    {
        let net: &NetTransfer = &report.nets[k];
        let mut line: String = text::between("  ", net.from.as_str(), " -> ");
        line.append(net.to.as_str());
        line.append(" via ");
        line.append(net.parent.as_str());
        line.append(" : ");
        line.append(text::u64_text(net.amount).as_str());
        let ghost before = text::views(r@);
        r.push(line);
        proof {
            assert(text::views(r@) =~= before.push(nets[k as int]));
            assert(s6 + nets.take(k + 1) =~= before.push(nets[k as int]));
        }
        k = k + 1;
    }
    assert(nets.take(k as int) =~= nets);
    r
}

/// A record is shown by its own values: its id, its address, its parent, and one
/// line for each child in its order; where it has an address, each child's address
/// follows.
pub proof fn law_record_shows_every_link(record: NodeRecord, r: Vec<String>, k: int)
    requires
        call_ensures(show, (&record,), r),
    ensures
        ({
            let children = record.children@;
            let n = children.len() as int;
            let rows = if n == 0 { 1int } else { n + 1 };
            &&& r@.len() == 3 + rows + (if record.address is Some { 1 + n } else { 0 })
            &&& r@[0]@ == "node_id: "@ + record.node_id@
            &&& record.address matches Some(own) ==> r@[1]@ == "address: "@ + own.spec_text()
            &&& record.address is None ==> r@[1]@ == "address: none"@
            &&& record.parent matches Some(link) ==> text::occurs(
                r@[2]@,
                " parent_id: "@ + link.parent_id@ + ", slot: "@ + text::decimal(link.slot as nat),
            )
            &&& 0 <= k < n ==> {
                let line = r@[4 + k]@;
                &&& text::occurs(line, "  slot "@ + text::decimal(children[k].slot as nat) + ": "@)
                &&& text::occurs(
                    line,
                    children[k].child_id@ + " (joined "@ + text::decimal(
                        children[k].date_joined as nat,
                    ) + ")"@,
                )
                &&& children[k].kind is Node ==> text::occurs(line, ": "@ + "node"@ + " "@)
                &&& children[k].kind is User ==> text::occurs(line, ": "@ + "user"@ + " "@)
            }
            &&& 0 <= k < n ==> (record.address matches Some(own) ==> r@[3 + rows + 1 + k]@
                == "derived child slot "@ + text::decimal(children[k].slot as nat) + " address: "@
                + own.spec_text() + "."@ + text::decimal(children[k].slot as nat))
        }),
{
    let children = record.children@;
    let n = children.len() as int;
    let all = record_lines(record);
    let shown = text::views(r@);
    text::lemma_views(r@);
    assert(shown[0] == r@[0]@ && shown[1] == r@[1]@ && shown[2] == r@[2]@);
    assert("address: "@ + "none"@ =~= "address: none"@) by {
        reveal_strlit("address: ");
        reveal_strlit("none");
        reveal_strlit("address: none");
    }
    match record.parent {
        Some(link) => {
            assert("parent: { parent_id: "@ =~= "parent: {"@ + " parent_id: "@) by {
                reveal_strlit("parent: { parent_id: ");
                reveal_strlit("parent: {");
                reveal_strlit(" parent_id: ");
            }
            let part = " parent_id: "@ + link.parent_id@ + ", slot: "@ + text::decimal(
                link.slot as nat,
            );
            assert(r@[2]@ =~= "parent: {"@ + part + " }"@);
            text::lemma_occurs_between("parent: {"@, part, " }"@);
        },
        None => {},
    }
    if 0 <= k < n {
        let child = children[k];
        assert(shown[4 + k] == r@[4 + k]@);
        assert(all[4 + k] == record_child_line(child));
        lemma_child_line_shows(child);
        match record.address {
            Some(own) => {
                let at = 3 + (n + 1) + 1 + k;
                assert(shown[at] == r@[at]@);
                assert(all[at] == derived_line(child, own));
                let slot = text::decimal(child.slot as nat);
                let head = "derived child slot "@ + slot + " address: "@;
                assert(head + (own.spec_text() + "."@ + slot) =~= head + own.spec_text() + "."@
                    + slot);
            },
            None => {},
        }
    }
}

proof fn lemma_child_line_shows(child: ChildEntry)
    ensures
        ({
            let line = record_child_line(child);
            let slot = text::decimal(child.slot as nat);
            let kind = child.kind.spec_label();
            &&& text::occurs(line, "  slot "@ + slot + ": "@)
            &&& text::occurs(line, ": "@ + kind + " "@)
            &&& text::occurs(
                line,
                child.child_id@ + " (joined "@ + text::decimal(child.date_joined as nat) + ")"@,
            )
        }),
{
    let line = record_child_line(child);
    let none = Seq::<char>::empty();
    let slot = text::decimal(child.slot as nat);
    let kind = child.kind.spec_label();
    let a = "  slot "@ + slot + ": "@;
    let b = ": "@ + kind + " "@;
    let c = child.child_id@ + " (joined "@ + text::decimal(child.date_joined as nat) + ")"@;
    assert(line =~= none + a + (kind + " "@ + c));
    assert(line =~= ("  slot "@ + slot) + b + c);
    assert(line =~= (a + kind + " "@) + c + none);
    text::lemma_occurs_between(none, a, kind + " "@ + c);
    text::lemma_occurs_between("  slot "@ + slot, b, c);
    text::lemma_occurs_between(a + kind + " "@, c, none);
}

/// A snapshot is shown by its own values: its id and one line for each child, with
/// the child's id, slot, address and date.
pub proof fn law_snapshot_shows_every_child(snapshot: NodeSnapshot, r: Vec<String>, k: int)
    requires
        call_ensures(print_snapshot, (&snapshot,), r),
    ensures
        ({
            let children = snapshot.children@;
            &&& r@[0]@ == "node_id: "@ + snapshot.node_id@
            &&& snapshot.address matches Some(own) ==> r@[1]@ == "address: "@ + own.spec_text()
            &&& snapshot.parent matches Some(parent) ==> r@[2]@ == "parent: "@ + parent.node_id@
                + " slot "@ + text::decimal(parent.slot as nat) + " address "@
                + parent.address.spec_text()
            &&& children.len() > 0 ==> r@.len() == 3 + children.len()
            &&& 0 <= k < children.len() ==> {
                let line = r@[3 + k]@;
                &&& text::occurs(line, "child: "@ + children[k].child_id@ + " kind="@)
                &&& text::occurs(
                    line,
                    " slot="@ + text::decimal(children[k].slot as nat) + " address="@,
                )
                &&& text::occurs(line, " joined="@ + text::decimal(children[k].date_joined as nat))
                &&& children[k].address matches Some(own) ==> text::occurs(
                    line,
                    " address="@ + own.spec_text() + " joined="@,
                )
            }
        }),
{
    let children = snapshot.children@;
    let shown = text::views(r@);
    text::lemma_views(r@);
    assert(shown[0] == r@[0]@ && shown[1] == r@[1]@ && shown[2] == r@[2]@);
    if 0 <= k < children.len() {
        assert(shown[3 + k] == r@[3 + k]@);
        assert(snapshot_lines(snapshot)[3 + k] == snapshot_child_line(children[k]));
        lemma_snapshot_line_shows(children[k]);
    }
}

proof fn lemma_snapshot_line_shows(child: ChildSnapshot)
    ensures
        ({
            let line = snapshot_child_line(child);
            &&& text::occurs(line, "child: "@ + child.child_id@ + " kind="@)
            &&& text::occurs(line, " slot="@ + text::decimal(child.slot as nat) + " address="@)
            &&& text::occurs(line, " address="@ + address_text(child.address) + " joined="@)
            &&& text::occurs(line, " joined="@ + text::decimal(child.date_joined as nat))
        }),
{
    let line = snapshot_child_line(child);
    let none = Seq::<char>::empty();
    let kind = child.kind.spec_label();
    let slot = text::decimal(child.slot as nat);
    let place = address_text(child.address);
    let date = text::decimal(child.date_joined as nat);
    let a = "child: "@ + child.child_id@ + " kind="@;
    let b = " slot="@ + slot + " address="@;
    let c = " address="@ + place + " joined="@;
    let d = " joined="@ + date;
    assert(line =~= none + a + (kind + b + place + d));
    assert(line =~= (a + kind) + b + (place + d));
    assert(line =~= (a + kind + " slot="@ + slot) + c + date);
    assert(line =~= (a + kind + b + place) + d + none);
    text::lemma_occurs_between(none, a, kind + b + place + d);
    text::lemma_occurs_between(a + kind, b, place + d);
    text::lemma_occurs_between(a + kind + " slot="@ + slot, c, date);
    text::lemma_occurs_between(a + kind + b + place, d, none);
}

/// Every waiting join has its own line, in its order, that begins with its node and
/// shows its operator and how long it stands.
pub proof fn law_every_join_has_its_line(pending: Vec<JoinRequest>, r: Vec<String>, k: int)
    requires
        call_ensures(print_joins, (&pending,), r),
    ensures
        pending@.len() == 0 ==> r@.len() == 1,
        pending@.len() > 0 ==> r@.len() == pending@.len(),
        0 <= k < pending@.len() ==> {
            let join = pending@[k];
            let line = r@[k]@;
            &&& line.take(join.node@.len() as int) == join.node@
            &&& text::occurs(line, " operator="@ + text::hex_lower(join.operator@) + " slot="@)
            &&& text::occurs(line, " expiry="@ + text::decimal(join.expiry as nat))
            &&& join.desired_slot matches Some(slot) ==> text::occurs(
                line,
                " slot="@ + text::decimal(slot as nat) + " expiry="@,
            )
        },
{
    let shown = text::views(r@);
    text::lemma_views(r@);
    if 0 <= k < pending@.len() {
        let join = pending@[k];
        let line = r@[k]@;
        assert(shown[k] == line);
        assert(line == join_line(join));
        let none = Seq::<char>::empty();
        let head = join.node@ + " kind="@ + join.kind.spec_label();
        let a = " operator="@ + text::hex_lower(join.operator@) + " slot="@;
        let slot = slot_text(join.desired_slot);
        let b = " slot="@ + slot + " expiry="@;
        let c = " expiry="@ + text::decimal(join.expiry as nat);
        let name = text::hex_lower(join.operator@);
        let number = text::decimal(join.expiry as nat);
        assert(line.take(join.node@.len() as int) =~= join.node@);
        assert(line =~= head + a + (slot + c));
        assert(line =~= (head + " operator="@ + name) + b + number);
        assert(line =~= (head + a + slot) + c + none);
        text::lemma_occurs_between(head, a, slot + c);
        text::lemma_occurs_between(head + " operator="@ + name, b, number);
        text::lemma_occurs_between(head + a + slot, c, none);
    }
}

/// A ledger is shown by its own values, each behind its own name, and every account
/// of a child has a line of its own.
pub proof fn law_ledger_shows_its_own_values(view: LedgerView, r: Vec<String>, k: int)
    requires
        call_ensures(show_ledger, (&view,), r),
    ensures
        r@.len() >= 9,
        r@[0]@ == "node_id: "@ + view.node_id@,
        r@[1]@ == "ledger_id: "@ + text::hex_lower(view.ledger_id@),
        r@[2]@ == "entries: "@ + text::decimal(view.entries as nat),
        r@[3]@ == "height: "@ + text::decimal(view.height as nat),
        r@[4]@ == "head: "@ + text::hex_lower(view.head@),
        view.is_root ==> r@[5]@ == "root: "@ + "true"@,
        !view.is_root ==> r@[5]@ == "root: "@ + "false"@,
        r@[6]@ == "parent_balance: "@ + text::decimal(view.parent_balance as nat),
        r@[7]@ == "equity: "@ + text::signed_decimal(view.equity as int),
        0 <= k < view.accounts@.len() ==> (view.accounts@[k].0 matches AccountRef::Child(id)
            ==> exists|j: int| #![trigger r@[j]]
            9 <= j < r@.len() && r@[j]@ == "  "@ + ("child:"@ + id@) + ": "@ + text::decimal(
                view.accounts@[k].1 as nat,
            )),
{
    let shown = text::views(r@);
    text::lemma_views(r@);
    let rows = child_accounts(view.accounts@);
    assert(shown.len() == 9 + rows.len());
    assert(shown[0] == r@[0]@ && shown[1] == r@[1]@ && shown[2] == r@[2]@ && shown[3] == r@[3]@);
    assert(shown[4] == r@[4]@ && shown[5] == r@[5]@ && shown[6] == r@[6]@ && shown[7] == r@[7]@);
    if 0 <= k < view.accounts@.len() && view.accounts@[k].0 is Child {
        let row = view.accounts@[k];
        let keep = |row: (AccountRef, u64)| !(row.0 is Parent);
        assert(rows == view.accounts@.filter(keep));
        view.accounts@.lemma_filter_contains(keep, k);
        let j = choose|j: int| 0 <= j < rows.len() && rows[j] == row;
        assert(shown[9 + j] == account_line(row));
        assert(shown[9 + j] == r@[9 + j]@);
    }
}

/// A report shows how many advisories, findings and flows there are, and every one
/// of them: a finding as it describes itself, a flow with who pays whom, below whom
/// and how much.
pub proof fn law_report_shows_every_finding_and_flow(
    report: HarnessReport,
    r: Vec<String>,
    i: int,
    described: String,
)
    requires
        call_ensures(print_net_report, (&report,), r),
        0 <= i < report.findings@.len() ==> call_ensures(
            Finding::describe_finding,
            (&report.findings@[i],),
            described,
        ),
    ensures
        text::views(r@).contains("advisories: "@ + text::decimal(report.advisories@.len())),
        text::views(r@).contains("findings: "@ + text::decimal(report.findings@.len())),
        text::views(r@).contains("nets: "@ + text::decimal(report.nets@.len())),
        0 <= i < report.findings@.len() ==> text::views(r@).contains("  "@ + described@),
        0 <= i < report.nets@.len() ==> {
            let net = report.nets@[i];
            text::views(r@).contains(
                "  "@ + net.from@ + " -> "@ + net.to@ + " via "@ + net.parent@ + " : "@
                    + text::decimal(net.amount as nat),
            )
        },
{
    let all = text::views(r@);
    text::lemma_views(r@);
    let chains = text::views(report.chains_present@);
    let present: Seq<Seq<char>> = if chains.len() == 0 {
        Seq::empty()
    } else {
        seq!["chains_present: "@ + text::joined(chains, ", "@)]
    };
    let head = seq!["peers:"@] + peers_lines(report.peers@) + present + text::views(
        report.notes@,
    ).map_values(|note: Seq<char>| "note: "@ + note);
    let soft = finding_lines(report.advisories@);
    let hard = finding_lines(report.findings@);
    let flows = report.nets@.map_values(|net: NetTransfer| net_line(net));
    let a = head.len() as int;
    let f = a + 1 + soft.len();
    let n = f + 1 + hard.len();
    assert(all[a] == "advisories: "@ + text::decimal(report.advisories@.len()));
    assert(all[f] == "findings: "@ + text::decimal(report.findings@.len()));
    assert(all[n] == "nets: "@ + text::decimal(report.nets@.len()));
    if 0 <= i < hard.len() {
        assert(all[f + 1 + i] == hard[i]);
    }
    if 0 <= i < flows.len() {
        assert(all[n + 1 + i] == flows[i]);
    }
}

/// An answer to a decision shows the applicant, the slot and the address it got, and
/// how the delivery went; a refusal shows its code.
pub proof fn law_replies_show_the_decision(
    reply: ControlReply,
    r: Vec<String>,
    delivery: DeliveryStatus,
    shown: String,
)
    requires
        call_ensures(print_reply, (&reply,), r),
        call_ensures(show_delivery, (delivery,), shown),
    ensures
        reply matches ControlReply::Rejected(code) ==> r@.len() == 1 && r@[0]@ == "rejected: "@
            + code.spec_name(),
        reply matches ControlReply::AdminApproved { child, slot, address, delivery: how } ==> how
            == delivery ==> r@.len() == 1 && r@[0]@ == "admin-approved: child="@ + child@ + " slot="@
            + text::decimal(slot as nat) + " address="@ + address.spec_text() + " delivery="@
            + shown@,
        reply matches ControlReply::AdminRejected { child, delivery: how } ==> how == delivery
            ==> r@.len() == 1 && r@[0]@ == "admin-rejected: child="@ + child@ + " delivery="@
            + shown@,
        delivery is Delivered ==> shown@ == "Delivered"@,
        delivery is TimedOut ==> shown@ == "TimedOut"@,
        delivery is Unreachable ==> shown@ == "Unreachable"@,
        delivery matches DeliveryStatus::Rejected(code) ==> text::occurs(shown@, code.spec_name()),
{
    let all = text::views(r@);
    text::lemma_views(r@);
    if r@.len() > 0 {
        assert(all[0] == r@[0]@);
    }
    match reply {
        ControlReply::Rejected(code) => {
            assert(all.len() == 1);
        },
        ControlReply::AdminApproved { child, slot, address, delivery: how } => {
            assert(all.len() == 1);
        },
        ControlReply::AdminRejected { child, delivery: how } => {
            assert(all.len() == 1);
        },
        _ => {},
    }
    match delivery {
        DeliveryStatus::Rejected(code) => {
            text::lemma_occurs_between("Rejected("@, code.spec_name(), ")"@);
        },
        _ => {},
    }
}

} // verus!
