use cawala_node::addr::OctAddr;
use cawala_node::netting_harness::{
    account_label, check_peer_identity, classify_findings, merge_peer, peer_report, report,
    report_failed, role_label, validate_peer_dir, Finding, NetTransfer,
};
use cawala_node::partition::{
    build_topology, build_topology_partition, NetComponent, StaleLink, TopologyError,
};
use cawala_node::record::{ChildEntry, ChildKind, NodeRecord, ParentLink};
use cawala_node::render::print_net_report;
use cawala_node::textmap::TextMap;
use cawala_node::wire::{AccountRef, HopRole, PeerKeys, PeerRole};

fn id(text: &str) -> String {
    text.to_string()
}

fn node(
    name: &str,
    address: &str,
    parent: Option<(&str, u8)>,
    children: &[(&str, ChildKind, u8)],
) -> NodeRecord {
    let mut record = NodeRecord::new(id(name));
    record.address = OctAddr::parse(address);
    record.parent = parent.map(|(parent_id, slot)| ParentLink {
        parent_id: id(parent_id),
        slot,
        generation: 0,
    });
    for (child, kind, slot) in children {
        record.children.push(ChildEntry {
            child_id: id(child),
            kind: *kind,
            slot: *slot,
            date_joined: 0,
        });
    }
    record
}

/// The address of a node, by the slots on the way up to the root.
fn address_of(component: &NetComponent, name: &str) -> String {
    let found = component.nodes.iter().find(|n| n.node_id == name).unwrap();
    match (&found.parent, found.slot) {
        (Some(parent), Some(slot)) => format!("{}.{}", address_of(component, parent), slot),
        _ => id("0"),
    }
}

#[test]
fn build_topology_from_records_links_children() {
    let root = node("root", "0", None, &[("leaf", ChildKind::Node, 1)]);
    let leaf = node("leaf", "0.1", Some(("root", 1)), &[("user-a", ChildKind::User, 3)]);
    let topology = build_topology(&[root, leaf]).unwrap();
    assert_eq!(topology.root, "root");
    assert_eq!(topology.nodes.len(), 3);
    assert_eq!(address_of(&topology, "user-a"), "0.1.3");
    assert!(topology.stranded_parent.is_none());
}

#[test]
fn build_topology_partition_groups_roots_and_rejects_dangling_parent() {
    let orphan = || node("orphan", "0", None, &[]);
    let other = || node("other", "0", None, &[]);
    let single = build_topology_partition(&[orphan()], None).unwrap();
    assert_eq!(single.components.len(), 1);
    assert_eq!(single.primary().root, "orphan");

    let partition = build_topology_partition(&[orphan(), other()], None).unwrap();
    assert_eq!(partition.components.len(), 2);
    assert_eq!(partition.components[0].root, "orphan");
    assert_eq!(partition.components[1].root, "other");
    assert!(partition.findings.is_empty());

    let selected = build_topology_partition(&[orphan(), other()], Some(&id("other"))).unwrap();
    assert_eq!(selected.components[0].root, "other");
    assert_eq!(selected.components[1].root, "orphan");
    assert!(build_topology_partition(&[orphan()], Some(&id("nope"))).is_err());

    let dangling = node("child", "0.1", Some(("missing", 1)), &[]);
    assert!(build_topology(&[dangling]).is_err());
}

#[test]
fn designated_primary_root_promotes_a_smaller_component() {
    let records = [
        node("root", "0", None, &[("a", ChildKind::Node, 0), ("b", ChildKind::Node, 1)]),
        node("a", "0.0", Some(("root", 0)), &[]),
        node("b", "0.1", Some(("root", 1)), &[]),
        node("island", "0", None, &[]),
    ];
    let default = build_topology_partition(&records, None).unwrap();
    assert_eq!(default.components[0].root, "root");
    assert_eq!(default.components[0].nodes.len(), 3);
    assert_eq!(default.components[1].root, "island");

    let designated = build_topology_partition(&records, Some(&id("island"))).unwrap();
    assert_eq!(designated.components[0].root, "island");
    assert_eq!(designated.components[0].nodes.len(), 1);
    assert_eq!(designated.components[1].root, "root");

    let err = build_topology_partition(&records, Some(&id("nope"))).unwrap_err();
    assert!(err.text().contains("designated primary root 'nope'"));
}

#[test]
fn a_parent_without_a_record_is_refused() {
    let records = [
        node("root", "0", None, &[]),
        node("lost", "0.1", Some(("gone", 1)), &[]),
    ];
    let err = build_topology_partition(&records, None).unwrap_err();
    assert_eq!(err.text(), "topology node 'lost' references missing parent 'gone'");
}

#[test]
fn islands_name_the_parent_that_still_lists_them() {
    let records = [
        node("root", "0", None, &[("kid", ChildKind::Node, 0), ("left", ChildKind::Node, 1)]),
        node("kid", "0.0", Some(("root", 0)), &[]),
        node("left", "0", None, &[]),
    ];
    let partition = build_topology_partition(&records, None).unwrap();
    assert_eq!(partition.components.len(), 2);
    assert!(partition.components[0].stranded_parent.is_none());
    assert_eq!(partition.components[1].root, "left");
    assert_eq!(partition.components[1].stranded_parent.as_deref(), Some("root"));
}

#[test]
fn contradicting_records_are_refused() {
    let error = |records: &[NodeRecord]| build_topology_partition(records, None).unwrap_err();
    let both = [
        node("p", "0", None, &[("x", ChildKind::User, 0)]),
        node("x", "0.0", Some(("p", 0)), &[]),
    ];
    assert!(matches!(error(&both), TopologyError::KindConflict(name) if name == "x"));

    let twice = [
        node("p", "0", None, &[("x", ChildKind::User, 0)]),
        node("q", "0", None, &[("x", ChildKind::User, 4)]),
    ];
    assert_eq!(
        error(&twice).text(),
        "topology child 'x' has conflicting parent links ('p'@0 vs 'q'@4)"
    );

    let wide = [node("p", "0", None, &[("x", ChildKind::User, 9)])];
    assert_eq!(error(&wide).text(), "topology child 'x' slot 9 out of range");
    let deep = [node("p", "0", Some(("q", 8)), &[])];
    assert_eq!(error(&deep).text(), "topology node 'p' parent slot 8 out of range");
}

#[test]
fn a_link_that_the_child_has_left_is_stale() {
    let records = [
        node("old", "0", None, &[("x", ChildKind::Node, 0)]),
        node("new", "0", None, &[("x", ChildKind::Node, 1)]),
        node("x", "0.1", Some(("new", 1)), &[]),
    ];
    let partition = build_topology_partition(&records, None).unwrap();
    assert_eq!(partition.findings.len(), 1);
    assert_eq!(partition.findings[0].parent, "old");
    assert_eq!(partition.findings[0].child, "x");
    assert_eq!(partition.components[0].root, "new");

    let valid = vec![true; partition.components.len()];
    assert!(partition.checked(&valid).is_ok());
    let partition = build_topology_partition(&records, None).unwrap();
    let err = partition.checked(&vec![true, false]).unwrap_err();
    assert!(err.text().starts_with("peer records do not form a valid topology component"));
}

fn row(name: &str, seed: u8) -> PeerKeys {
    PeerKeys {
        node_id: id(name),
        operator: [seed; 32],
        ledger: Some([seed + 1; 32]),
        role: PeerRole::Node,
    }
}

#[test]
fn merge_peer_rejects_conflict_and_dedups_identical() {
    let mut map = TextMap::new();
    assert!(merge_peer(&mut map, row("n1", 1)).is_ok());
    assert!(merge_peer(&mut map, row("n1", 1)).is_ok());
    assert!(map.get(&id("n1")).unwrap().same(&row("n1", 1)));
    let conflict = merge_peer(&mut map, row("n1", 9)).unwrap_err();
    assert_eq!(conflict.node, "n1");
    assert!(conflict.known.same(&row("n1", 1)));
    assert!(conflict.found.same(&row("n1", 9)));
    assert!(map.get(&id("n1")).unwrap().same(&row("n1", 1)), "the first row stays");
}

fn component(root: &str) -> NetComponent {
    let mut built = build_topology_partition(&[node(root, "0", None, &[])], None).unwrap();
    built.components.remove(0)
}

#[test]
fn report_classifies_route_invalid_as_advisory() {
    let route = Finding::RouteInvalid { payment_id: [1u8; 32], reason: id("test") };
    let hard = Finding::ChainInvalid { node: id("n1"), reason: id("test") };
    let (advisories, findings) = classify_findings(vec![route, hard]);
    assert_eq!(advisories.len(), 1);
    assert!(matches!(advisories[0], Finding::RouteInvalid { .. }));
    assert_eq!(findings.len(), 1);
    assert!(matches!(findings[0], Finding::ChainInvalid { .. }));

    let report = report(vec![], &vec![component("root")], &vec![], vec![], vec![], true, vec![]);
    assert!(report.findings.is_empty());
    assert!(report.advisories.is_empty());
    assert!(report.nets.is_empty());
    assert!(report.notes.iter().any(|note| note.contains("route/replay audit skipped")));
    assert!(!report_failed(&report, true));
}

#[test]
fn reports_gather_what_was_found() {
    let stale = vec![StaleLink { parent: id("old"), child: id("x") }];
    let nets = vec![NetTransfer { from: id("a"), to: id("b"), parent: id("p"), amount: 7 }];
    let hard = Finding::Overdraw {
        node: id("n"),
        account: AccountRef::Child(id("c")),
        deficit: id("3"),
    };
    let peers = vec![
        peer_report(&id("n1"), &id("d1"), 2),
        peer_report(&id("n2"), &id("d2"), 0),
    ];
    let components = vec![component("root"), component("island")];
    let found = report(peers, &components, &stale, vec![hard], nets, false, vec![id("hello")]);
    assert_eq!(found.chains_present, vec![id("n1")]);
    assert_eq!(found.components.len(), 2);
    assert!(found.components[0].primary && !found.components[1].primary);
    assert_eq!(found.components[1].nodes, vec![id("island")]);
    assert!(found
        .notes
        .contains(&id("topology components: 2 (primary root root; islands: island)")));
    assert!(found.notes.contains(&id("hello")));
    assert_eq!(found.peers[0].notes, vec![id("commitment chain present (2)")]);
    assert_eq!(found.peers[1].notes, vec![id("missing/empty commitment chain")]);
    let all: Vec<String> = found
        .findings
        .iter()
        .chain(found.advisories.iter())
        .map(|finding| finding.describe_finding())
        .collect();
    assert!(all.contains(&id("overdraw node=n account=child:c deficit=3")));
    assert!(all.contains(&id("stale_child_link parent=old child=x")));
    assert!(report_failed(&found, false));
    let lines = print_net_report(&found);
    assert!(lines.iter().any(|line| line.contains("overdraw node=n")));
    assert_eq!(account_label(&AccountRef::Parent), "parent");
    assert_eq!(role_label(HopRole::Direct).to_lowercase(), "direct");
}

#[test]
fn peer_directories_are_checked_in_order() {
    assert_eq!(validate_peer_dir("d", true, true, true, true), Ok(()));
    assert_eq!(
        validate_peer_dir("d", false, false, false, false).unwrap_err(),
        "peer data dir d does not exist"
    );
    assert_eq!(
        validate_peer_dir("d", true, false, false, false).unwrap_err(),
        "peer d has no node record (node.json); run `init`"
    );
    assert_eq!(
        validate_peer_dir("d", true, true, false, false).unwrap_err(),
        "peer d has no ledger key (ledger_key); run `init`"
    );
    assert_eq!(
        validate_peer_dir("d", true, true, true, false).unwrap_err(),
        "peer d has no identity key (secret_key); run `init`"
    );
    assert_eq!(check_peer_identity("d", &id("n"), &id("n"), &[1; 32], &[1; 32]), Ok(()));
    assert_eq!(
        check_peer_identity("d", &id("n"), &id("m"), &[1; 32], &[2; 32]).unwrap_err(),
        "peer d record node id 'n' does not match meta.json node id 'm'"
    );
    assert_eq!(
        check_peer_identity("d", &id("n"), &id("n"), &[1; 32], &[2; 32]).unwrap_err(),
        "peer d ledger_key does not match meta.json ledger id"
    );
}
