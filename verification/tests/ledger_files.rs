use cawala_node::addr::OctAddr;
use cawala_node::claim_bundle::{
    attachment_state, chain_window, check_bundle_size, export_summary, needs_commit,
    review_guidance, Attachment, ExportOutcome, VerifiedClaim, MAX_BUNDLE_CHAIN,
    MAX_BUNDLE_FILE_BYTES,
};
use cawala_node::frames::{encode_frame, read_frames, FrameEnd, Frames};
use cawala_node::keys::{
    load_existing_ledger_key, read_ledger_key, read_secret_key, LEDGER_KEY_FILE, LEDGER_KEY_LEN,
    SECRET_KEY_FILE, SECRET_KEY_LEN,
};
use cawala_node::ledger_commitments::{
    commitments_path, CommitmentError, CommitmentLog, SignedCommitment,
};
use cawala_node::ledger_service::LedgerError;
use cawala_node::ledger_store::{
    check_owner, entries_path, exclusive_message, instance_message, ledger_dir, load_meta,
    load_or_create_meta, lock_path, meta_path, AppendStep, FileLog, LedgerMeta, LogError,
    MetaError, LEDGER_FORMAT_VERSION,
};
use cawala_node::orders;
use cawala_node::orders::{
    bad_line_message, collect_array, collect_lines, dedup_orders, journal_lines, load_all,
    orders_path, parse_orders_text, OrdersText,
};
use cawala_node::record::{ChildKind, NodeRecord, ParentLink};
use cawala_node::text::hex_text;
use cawala_node::wire::{Entry, EntryBody, PaymentOrder, SignedEntry};
use iroh::SecretKey;

const NODE: &str = "node-a";
const MAX_FRAME: u32 = 1 << 20;
const ZERO: [u8; 32] = [0u8; 32];

fn id(text: &str) -> String {
    text.to_string()
}

// ---- key files ----

#[test]
fn identity_save_then_load_roundtrip() {
    let key = SecretKey::generate();
    let bytes = key.to_bytes().to_vec();
    assert_eq!(bytes.len(), SECRET_KEY_LEN);
    assert_eq!(SECRET_KEY_FILE, "secret_key");
    let again = SecretKey::from_bytes(&read_secret_key(&bytes).unwrap());
    assert_eq!(key.to_bytes(), again.to_bytes());
    assert_eq!(key.public(), again.public());
}

#[test]
fn corrupt_key_file_rejected() {
    assert_eq!(
        read_secret_key(&vec![1u8, 2, 3]).unwrap_err(),
        "secret key file must contain exactly 32 bytes, found 3"
    );
}

#[test]
fn ledger_keys_save_then_load_roundtrip() {
    let bytes: Vec<u8> = (0..32u8).collect();
    assert_eq!(bytes.len(), LEDGER_KEY_LEN);
    assert_eq!(read_ledger_key(&bytes).unwrap().to_vec(), bytes);
}

#[test]
fn the_two_key_files_have_distinct_names() {
    assert_ne!(SECRET_KEY_FILE, LEDGER_KEY_FILE);
}

#[test]
fn wrong_length_rejected() {
    let err = read_ledger_key(&vec![1u8, 2, 3]).unwrap_err();
    assert!(err.contains("exactly 32 bytes"), "unexpected error: {}", err);
    assert!(read_ledger_key(&vec![0u8; 33]).is_err());
}

#[test]
fn load_existing_ledger_key_errors_without_creating_one() {
    let err = load_existing_ledger_key("data/ledger_key", &None).unwrap_err();
    assert!(err.contains("no ledger key"), "unexpected error: {}", err);
    assert_eq!(
        load_existing_ledger_key("k", &Some(vec![9u8; 31])).unwrap_err(),
        "k must contain exactly 32 ledger-key bytes, found 31"
    );
    assert_eq!(load_existing_ledger_key("k", &Some(vec![9u8; 32])).unwrap(), [9u8; 32]);
}

// ---- the journal of orders ----

fn order(nonce: u64) -> PaymentOrder {
    PaymentOrder {
        from: id("alice"),
        to: id("bob"),
        amount: 10 + nonce,
        nonce,
        expiry: 1_000,
        hash: [nonce as u8; 32],
    }
}

fn shown(orders: &[PaymentOrder]) -> String {
    format!("{:?}", orders)
}

/// The line of an order in a journal.
fn line(order: &PaymentOrder) -> String {
    format!("order {}", order.nonce)
}

/// Read one line back.
fn decode(text: &str) -> Option<PaymentOrder> {
    text.strip_prefix("order ").and_then(|n| n.parse().ok()).map(order)
}

fn load(journal: &str) -> Vec<PaymentOrder> {
    let decoded = journal_lines(journal).iter().map(|line| decode(&line.text)).collect();
    load_all(&decoded)
}

/// Append to the text of a journal.
fn append(journal: &mut String, order: &PaymentOrder) {
    let mut known = load(journal);
    if orders::append(&mut known, order) {
        journal.push_str(&line(order));
        journal.push('\n');
    }
}

#[test]
fn missing_file_is_empty() {
    assert!(load("").is_empty());
}

#[test]
fn append_dedups_and_round_trips() {
    let mut journal = String::new();
    append(&mut journal, &order(1));
    append(&mut journal, &order(1));
    append(&mut journal, &order(2));
    assert_eq!(shown(&load(&journal)), shown(&[order(1), order(2)]));
    assert_eq!(journal.lines().count(), 2);
}

#[test]
fn malformed_lines_are_skipped() {
    let mut journal = String::new();
    append(&mut journal, &order(1));
    journal.push_str("{not json}\n");
    journal.push_str(&line(&order(2)));
    journal.push('\n');
    assert_eq!(shown(&load(&journal)), shown(&[order(1), order(2)]));
}

#[test]
fn dedup_ignores_malformed_lines() {
    let mut journal = String::new();
    append(&mut journal, &order(1));
    journal.push_str("garbage\n");
    append(&mut journal, &order(1));
    assert_eq!(shown(&load(&journal)), shown(&[order(1)]));
}

#[test]
fn parse_orders_accepts_array_and_jsonl() {
    let OrdersText::PerLine(lines) = parse_orders_text("order 1\n\n  order 2 \n") else {
        panic!("expected lines");
    };
    assert_eq!(lines.len(), 2);
    assert_eq!((lines[0].number, lines[0].text.as_str()), (1, "order 1"));
    assert_eq!((lines[1].number, lines[1].text.as_str()), (3, "order 2"));

    let OrdersText::Array(array) = parse_orders_text(" \n[1, 2]\n") else {
        panic!("expected an array");
    };
    assert_eq!(array, "[1, 2]");
    assert!(matches!(parse_orders_text(" \n\t "), OrdersText::Empty));
    assert_eq!(bad_line_message(3), "invalid order JSON on line 3");

    let per_line = collect_lines(&lines, &vec![Some(order(1)), Some(order(2))]).unwrap();
    let as_array = collect_array(Some(vec![order(1), order(2)])).unwrap();
    assert_eq!(shown(&per_line), shown(&[order(1), order(2)]));
    assert_eq!(shown(&as_array), shown(&per_line));
}

#[test]
fn one_malformed_line_rejects_the_whole_source() {
    let OrdersText::PerLine(lines) = parse_orders_text("order 1\n\nnonsense\nmore\n") else {
        panic!("expected lines");
    };
    let bad = collect_lines(&lines, &vec![Some(order(1)), None, None]).unwrap_err();
    assert_eq!(bad, "invalid order JSON on line 3");
    let last = collect_lines(&lines, &vec![Some(order(1)), Some(order(2)), None]).unwrap_err();
    assert_eq!(last, "invalid order JSON on line 4");
    assert_eq!(collect_array(None).unwrap_err(), "invalid orders JSON array");
    assert!(collect_lines(&vec![], &vec![]).unwrap().is_empty());
}

#[test]
fn dedup_orders_keeps_first_occurrence() {
    let mut twin = order(1);
    twin.amount = 99;
    let kept = dedup_orders(&vec![order(1), twin, order(2), order(1)]);
    assert_eq!(shown(&kept), shown(&[order(1), order(2)]));
}

// ---- paths and messages ----

#[test]
fn paths_lie_in_the_ledger_directory() {
    assert_eq!(ledger_dir("data"), "data/ledger");
    assert_eq!(ledger_dir("data/"), "data/ledger");
    assert_eq!(entries_path("data"), "data/ledger/entries.log");
    assert_eq!(meta_path("data"), "data/ledger/meta.json");
    assert_eq!(lock_path("data"), "data/ledger/.lock");
    assert_eq!(orders_path("data"), "data/ledger/orders.jsonl");
    assert_eq!(commitments_path("data"), "data/ledger/commitments.log");
}

#[test]
fn a_held_lock_is_explained() {
    assert_eq!(
        exclusive_message("data"),
        "ledger data dir data is locked by another cawala writer; retry once the current \
         transaction completes"
    );
    assert_eq!(
        instance_message("data"),
        "another cawala node is already running on data dir data"
    );
}

// ---- metadata ----

fn key(seed: u8) -> [u8; 32] {
    [seed; 32]
}

fn meta(format_version: u32) -> LedgerMeta {
    LedgerMeta { format_version, node_id: id(NODE), ledger_id: key(7) }
}

#[test]
fn init_creates_meta_and_empty_log() {
    let (fresh, created) = load_or_create_meta(None, &id(NODE), &key(7)).unwrap();
    assert!(created);
    assert_eq!(fresh.format_version, LEDGER_FORMAT_VERSION);
    assert_eq!(fresh.node_id, NODE);
    assert_eq!(fresh.ledger_id, key(7));

    let log = FileLog::open_with(&read_frames(&vec![], MAX_FRAME), MAX_FRAME, vec![], false)
        .unwrap();
    assert_eq!(log.len(), 0);
    assert!(log.is_empty());
    assert_eq!(log.head_hash(), ZERO);

    let before = format!("{:?}", fresh);
    let (again, created) = load_or_create_meta(Some(fresh), &id(NODE), &key(7)).unwrap();
    assert!(!created);
    assert_eq!(format!("{:?}", again), before);
}

#[test]
fn load_meta_accepts_the_current_format_version() {
    let loaded = load_meta(meta(LEDGER_FORMAT_VERSION)).unwrap();
    assert_eq!(format!("{:?}", loaded), format!("{:?}", meta(LEDGER_FORMAT_VERSION)));
}

#[test]
fn load_meta_rejects_older_format_with_a_version_generic_message() {
    let err = load_meta(meta(2)).unwrap_err();
    assert_eq!(err, MetaError::Older(2));
    let msg = err.text(&id("meta.json"));
    assert!(msg.contains(&format!(
        "unsupported ledger format version 2 (expected {})",
        LEDGER_FORMAT_VERSION
    )));
    assert!(msg.contains("the on-disk ledger format changed"));
    assert!(!msg.contains("Equity removed"));
    assert!(msg.contains("recreate the data dir"));
}

#[test]
fn load_meta_rejects_a_newer_format_version() {
    let err = load_meta(meta(LEDGER_FORMAT_VERSION + 1)).unwrap_err();
    let msg = err.text(&id("meta.json"));
    assert!(msg.contains("newer than this binary supports"), "unexpected error: {}", msg);
    assert!(msg.contains(&format!("expected {}", LEDGER_FORMAT_VERSION)));
}

#[test]
fn wrong_ledger_key_is_rejected() {
    let own = meta(LEDGER_FORMAT_VERSION);
    assert_eq!(check_owner(&own, &id(NODE), &key(7)), Ok(()));
    let err = check_owner(&own, &id(NODE), &key(9)).unwrap_err();
    assert_eq!(err, MetaError::KeyMismatch);
    assert!(err.text(&id("meta.json")).contains("ledger id"));
    assert_eq!(
        check_owner(&own, &id("node-b"), &key(7)),
        Err(MetaError::NodeMismatch { found: id("node-a"), expected: id("node-b") })
    );
}

// ---- the log of entries ----

fn hash_of(seq: u64, prev: &[u8; 32], issued_at: u64) -> [u8; 32] {
    let mut hash = *prev;
    hash.rotate_right(1);
    hash[0] = hash[0].wrapping_add(seq as u8).wrapping_add(issued_at as u8).wrapping_add(17);
    hash
}

fn entry(seq: u64, prev: [u8; 32], issued_at: u64) -> SignedEntry {
    SignedEntry {
        entry: Entry {
            ledger_id: key(7),
            seq,
            height: seq,
            prev_hash: prev,
            issued_at,
            body: EntryBody::OpenAccount { child: format!("c{}", seq), kind: ChildKind::Node },
            postings: vec![],
            auth: None,
        },
        hash: Some(hash_of(seq, &prev, issued_at)),
        valid_under: vec![key(7)],
        conserved: true,
        canonical: true,
    }
}

/// The entry as the body of a frame.
fn body(signed: &SignedEntry) -> Vec<u8> {
    let mut out = signed.entry.seq.to_le_bytes().to_vec();
    out.extend_from_slice(&signed.entry.prev_hash);
    out.extend_from_slice(&signed.entry.issued_at.to_le_bytes());
    out
}

fn unbody(body: &[u8]) -> Option<SignedEntry> {
    if body.len() != 48 {
        return None;
    }
    let seq = u64::from_le_bytes(body[..8].try_into().unwrap());
    let prev: [u8; 32] = body[8..40].try_into().unwrap();
    let issued_at = u64::from_le_bytes(body[40..].try_into().unwrap());
    Some(entry(seq, prev, issued_at))
}

fn chain(n: u64) -> Vec<SignedEntry> {
    let mut prev = ZERO;
    let mut entries = Vec::new();
    for seq in 0..n {
        let next = entry(seq, prev, 100 + seq);
        prev = next.hash.unwrap();
        entries.push(next);
    }
    entries
}

fn encode(entries: &[SignedEntry]) -> Vec<u8> {
    entries.iter().flat_map(|one| encode_frame(&body(one))).collect()
}

/// Open what the bytes hold, cutting a torn tail off.
fn open_log(data: &mut Vec<u8>, replay: bool) -> Result<FileLog, LogError> {
    let frames: Frames = read_frames(data, MAX_FRAME);
    let decoded: Vec<SignedEntry> = frames.bodies.iter().map_while(|b| unbody(b)).collect();
    let log = FileLog::open_with(&frames, MAX_FRAME, decoded, replay)?;
    if matches!(frames.end, FrameEnd::TornPrefix | FrameEnd::TornBody) {
        data.truncate(frames.complete_len);
    }
    Ok(log)
}

#[test]
fn append_reopen_roundtrip_preserves_entries_head_and_balances() {
    let mut data = Vec::new();
    let mut log = open_log(&mut data, false).unwrap();
    for next in chain(2) {
        let frame = encode_frame(&body(&next));
        assert!(matches!(log.append(&next, Ok(frame.len()), MAX_FRAME), AppendStep::Write));
        data.extend_from_slice(&frame);
        log.appended(next).unwrap();
    }
    assert_eq!(log.len(), 2);
    let head = log.head_hash();
    assert_eq!(Some(head), chain(2)[1].hash);

    let reopened = open_log(&mut data, false).unwrap();
    assert_eq!(reopened.len(), 2);
    assert_eq!(reopened.head_hash(), head);
    for (i, want) in chain(2).iter().enumerate() {
        assert_eq!(format!("{:?}", reopened.get(i).unwrap()), format!("{:?}", want));
    }
    assert!(reopened.get(2).is_none());
}

#[test]
fn replay_accepts_exactly_the_stored_entries() {
    let mut data = encode(&chain(3));
    let mut log = open_log(&mut data, true).unwrap();
    assert_eq!(log.entry_count(), 3);
    assert_eq!(log.len(), 0);
    assert_eq!(log.head_hash(), ZERO);
    let entries = chain(3);
    let refused = log.append(&entries[1], Ok(48), MAX_FRAME);
    assert!(matches!(
        refused,
        AppendStep::Refuse(LedgerError::SeqOutOfOrder { expected: 0, found: 1 })
    ));
    for one in &entries {
        assert!(matches!(log.append(one, Ok(48), MAX_FRAME), AppendStep::Replayed));
    }
    assert_eq!(log.len(), 3);
    assert_eq!(Some(log.head_hash()), entries[2].hash);

    let mut again = open_log(&mut data, true).unwrap();
    let other = entry(0, ZERO, 999);
    let AppendStep::Refuse(LedgerError::Encode(message)) = again.append(&other, Ok(48), MAX_FRAME)
    else {
        panic!("expected a refusal");
    };
    assert_eq!(message, "replayed entry 0 does not match the persisted log");
}

#[test]
fn truncated_tail_frame_is_discarded_on_open() {
    let full = encode(&chain(2));
    let mut data = full[..full.len() - 2].to_vec();
    let log = open_log(&mut data, false).unwrap();
    assert_eq!(log.entry_count(), 1);
    assert_eq!(log.len(), 1);
    let frame0_len = u32::from_le_bytes(full[0..4].try_into().unwrap()) as usize;
    assert_eq!(data.len(), 4 + frame0_len);
    assert_eq!(open_log(&mut data, true).unwrap().entry_count(), 1);
}

#[test]
fn torn_tail_body_is_discarded_and_append_is_dense() {
    let complete = encode(&chain(3));
    let mut data = complete.clone();
    data.extend_from_slice(&16u32.to_le_bytes());
    data.extend_from_slice(&[0xAB, 0xCD, 0xEF]);

    let mut log = open_log(&mut data, false).unwrap();
    assert_eq!(log.entry_count(), 3);
    assert_eq!(data, complete);

    let next = chain(4).pop().unwrap();
    let frame = encode_frame(&body(&next));
    assert!(matches!(log.append(&next, Ok(frame.len()), MAX_FRAME), AppendStep::Write));
    log.appended(next).unwrap();
    data.extend_from_slice(&frame);
    assert_eq!(log.len(), 4);
    assert_eq!(log.entry_count(), 4);
    assert_eq!(open_log(&mut data, false).unwrap().entry_count(), 4);
    assert_eq!(data, encode(&chain(4)));
}

#[test]
fn torn_tail_prefix_is_discarded() {
    let complete = encode(&chain(2));
    let mut data = complete.clone();
    data.extend_from_slice(&[0x01, 0x02]);
    let log = open_log(&mut data, false).unwrap();
    assert_eq!(log.entry_count(), 2);
    assert_eq!(log.len(), 2);
    assert_eq!(data.len(), complete.len());
}

#[test]
fn corrupt_middle_frame_is_a_hard_error() {
    let mut data = encode(&chain(3));
    let frame0_len = 4 + u32::from_le_bytes(data[0..4].try_into().unwrap()) as usize;
    data[frame0_len..frame0_len + 4].copy_from_slice(&1u32.to_le_bytes());
    let err = open_log(&mut data, false).unwrap_err().text(&id("entries.log"));
    assert!(err.contains("invalid signed entry frame"), "unexpected error: {}", err);
    assert!(!err.contains("truncated"));
}

#[test]
fn a_log_out_of_order_is_refused() {
    let mut gap = encode(&[entry(0, ZERO, 100), entry(2, hash_of(0, &ZERO, 100), 102)]);
    let err = open_log(&mut gap, false).unwrap_err();
    assert_eq!(
        err.text(&id("log")),
        "log: entry sequence out of order: expected 1, found 2"
    );
    let mut unlinked = encode(&[entry(0, ZERO, 100), entry(1, key(3), 101)]);
    let err = open_log(&mut unlinked, false).unwrap_err();
    assert_eq!(
        err.text(&id("log")),
        format!(
            "log: entry 1 prev_hash mismatch: expected {}, found {}",
            hex_text(&hash_of(0, &ZERO, 100)),
            "03".repeat(32)
        )
    );
    let mut long = vec![0xff, 0xff, 0xff, 0x7f];
    let err = open_log(&mut long, false).unwrap_err();
    assert_eq!(err.text(&id("log")), "log: frame length 2147483647 exceeds max 1048576");
}

#[test]
fn appends_are_bounded_and_in_order() {
    let mut data = encode(&chain(1));
    let mut log = open_log(&mut data, false).unwrap();
    let next = chain(2).pop().unwrap();
    let AppendStep::Refuse(LedgerError::Encode(message)) = log.append(&next, Ok(9), 8) else {
        panic!("expected a refusal");
    };
    assert_eq!(message, "frame length 9 exceeds max 8");
    let AppendStep::Refuse(LedgerError::Encode(message)) = log.append(&next, Err(id("no")), 8)
    else {
        panic!("expected a refusal");
    };
    assert_eq!(message, "no");
    let far = entry(5, ZERO, 1);
    assert!(matches!(
        log.append(&far, Ok(1), 8),
        AppendStep::Refuse(LedgerError::SeqOutOfOrder { expected: 1, found: 5 })
    ));
    assert_eq!(log.len(), 1);
}

// ---- frames ----

#[test]
fn frames_give_back_what_was_written() {
    let bodies: Vec<Vec<u8>> = vec![vec![], vec![1], vec![2; 300]];
    let data: Vec<u8> = bodies.iter().flat_map(|b| encode_frame(b)).collect();
    assert_eq!(&encode_frame(&bodies[2])[..4], &[44, 1, 0, 0]);
    let frames = read_frames(&data, 300);
    assert_eq!(frames.bodies, bodies);
    assert_eq!(frames.starts, vec![4, 8, 13]);
    assert!(matches!(frames.end, FrameEnd::Clean));
    assert_eq!(frames.complete_len, data.len());

    let short = read_frames(&data, 299);
    assert!(matches!(short.end, FrameEnd::TooLong(300)));
    assert_eq!(short.bodies.len(), 2);
}

// ---- commitments ----

fn commitment_hash(height: u64, prev: &[u8; 32]) -> [u8; 32] {
    let mut hash = *prev;
    hash.rotate_left(3);
    hash[31] ^= height as u8 + 1;
    hash
}

/// A signed, consistent commitment at `height`.
fn commitment(signer: u8, height: u64, prev: [u8; 32]) -> SignedCommitment {
    SignedCommitment {
        ledger_pubkey: key(signer),
        height,
        entry_count: height,
        prev_commitment_hash: prev,
        entry_root: [height as u8; 32],
        hash: commitment_hash(height, &prev),
        valid_under: vec![key(signer)],
    }
}

fn commitment_body(one: &SignedCommitment) -> Vec<u8> {
    let mut out = vec![one.ledger_pubkey[0]];
    out.extend_from_slice(&one.height.to_le_bytes());
    out.extend_from_slice(&one.prev_commitment_hash);
    out
}

fn commitment_of(body: &[u8]) -> Option<SignedCommitment> {
    if body.len() != 41 || body[0] > 9 {
        return None;
    }
    Some(commitment(
        body[0],
        u64::from_le_bytes(body[1..9].try_into().unwrap()),
        body[9..].try_into().unwrap(),
    ))
}

fn write_raw(commitments: &[SignedCommitment]) -> Vec<u8> {
    commitments.iter().flat_map(|one| encode_frame(&commitment_body(one))).collect()
}

fn open_commitments(data: &Vec<u8>, signer: u8) -> Result<CommitmentLog, CommitmentError> {
    let frames = read_frames(data, MAX_FRAME);
    let decoded = frames.bodies.iter().map_while(|b| commitment_of(b)).collect();
    CommitmentLog::open(&frames, MAX_FRAME, decoded, &key(signer))
}

fn empty_commitments() -> CommitmentLog {
    open_commitments(&vec![], 1).unwrap()
}

fn commit(log: &mut CommitmentLog, next: SignedCommitment) -> Result<(), CommitmentError> {
    log.append(&next, Ok(commitment_body(&next).len()), MAX_FRAME)?;
    log.appended(next);
    Ok(())
}

#[test]
fn missing_file_is_an_empty_chain() {
    let log = empty_commitments();
    assert!(log.is_empty());
    assert_eq!(log.len(), 0);
    assert_eq!(log.height(), 0);
    assert_eq!(log.last_hash(), ZERO);
    assert!(log.chain().is_empty());
}

#[test]
fn genesis_and_linkage_round_trip() {
    let mut log = empty_commitments();
    commit(&mut log, commitment(1, 0, ZERO)).unwrap();
    let h0 = commitment_hash(0, &ZERO);
    assert_eq!(log.height(), 0);
    assert_eq!(log.last_hash(), h0);

    commit(&mut log, commitment(1, 1, h0)).unwrap();
    let h1 = commitment_hash(1, &h0);
    assert_eq!(log.height(), 1);
    assert_eq!(log.last_hash(), h1);

    commit(&mut log, commitment(1, 2, h1)).unwrap();
    assert_eq!(log.len(), 3);
    assert!(!log.is_empty());

    let data = write_raw(log.chain());
    let reloaded = open_commitments(&data, 1).unwrap();
    assert_eq!(reloaded.len(), 3);
    assert_eq!(reloaded.height(), 2);
    assert_eq!(reloaded.last_hash(), commitment_hash(2, &h1));
    assert_eq!(format!("{:?}", reloaded.chain()), format!("{:?}", log.chain()));
}

#[test]
fn append_rejects_broken_link_and_rollback() {
    let mut log = empty_commitments();
    commit(&mut log, commitment(1, 0, ZERO)).unwrap();
    let h0 = commitment_hash(0, &ZERO);
    let broken = commit(&mut log, commitment(1, 1, [0xCD; 32])).unwrap_err();
    assert_eq!(
        broken.text(&id("c")),
        format!("c: commitment prev {} does not link to {}", "cd".repeat(32), hex_text(&h0))
    );
    let rollback = commit(&mut log, commitment(1, 0, h0)).unwrap_err();
    assert_eq!(
        rollback.text(&id("c")),
        "c: commitment height 0 is not greater than the previous 0"
    );
    commit(&mut log, commitment(1, 1, h0)).unwrap();
    assert_eq!(log.len(), 2);
}

#[test]
fn append_rejects_a_wrong_key_signature() {
    let mut log = empty_commitments();
    let err = commit(&mut log, commitment(2, 0, ZERO)).unwrap_err();
    assert_eq!(err.text(&id("c")), "c: refusing to append an unverifiable commitment");
    assert!(log.is_empty());
}

#[test]
fn append_rejects_other_faults() {
    let log = empty_commitments();
    let mut odd = commitment(1, 3, ZERO);
    odd.entry_count = 4;
    let err = log.append(&odd, Ok(1), 8).unwrap_err();
    assert_eq!(err.text(&id("c")), "c: commitment height 3 does not equal entry_count 4");
    let err = log.append(&commitment(1, 0, ZERO), Ok(9), 8).unwrap_err();
    assert_eq!(err.text(&id("c")), "c: commitment frame length 9 exceeds max 8");
    let err = log.append(&commitment(1, 0, ZERO), Err(id("odd")), 8).unwrap_err();
    assert_eq!(err.text(&id("c")), "failed to encode commitment: odd");
}

#[test]
fn open_rejects_broken_prev() {
    let data = write_raw(&[commitment(1, 0, ZERO), commitment(1, 1, [0xCD; 32])]);
    let err = open_commitments(&data, 1).unwrap_err();
    assert_eq!(err.text(&id("c")), "c: invalid commitment chain");
}

#[test]
fn open_rejects_height_rollback_and_duplicate() {
    let h0 = commitment_hash(0, &ZERO);
    let data = write_raw(&[commitment(1, 0, ZERO), commitment(1, 0, h0)]);
    assert!(open_commitments(&data, 1).is_err());

    let h2 = commitment_hash(2, &h0);
    let data =
        write_raw(&[commitment(1, 0, ZERO), commitment(1, 2, h0), commitment(1, 1, h2)]);
    assert!(open_commitments(&data, 1).is_err());
}

#[test]
fn open_rejects_a_height_that_is_not_the_entry_count() {
    let frames = read_frames(&write_raw(&[commitment(1, 3, ZERO)]), MAX_FRAME);
    let mut odd = commitment(1, 3, ZERO);
    odd.entry_count = 4;
    let err = CommitmentLog::open(&frames, MAX_FRAME, vec![odd], &key(1)).unwrap_err();
    assert_eq!(err.text(&id("c")), "c: invalid commitment chain");
    assert!(CommitmentLog::open(&frames, MAX_FRAME, vec![commitment(1, 3, ZERO)], &key(1)).is_ok());
}

#[test]
fn a_cut_file_is_refused_wherever_a_frame_is_cut() {
    let h0 = commitment_hash(0, &ZERO);
    let data = write_raw(&[commitment(1, 0, ZERO), commitment(1, 1, h0)]);
    let first = write_raw(&[commitment(1, 0, ZERO)]).len();
    for cut in 0..data.len() {
        let opened = open_commitments(&data[..cut].to_vec(), 1);
        assert_eq!(opened.is_ok(), cut == 0 || cut == first, "cut at {}", cut);
    }
}

#[test]
fn open_rejects_wrong_key_signature() {
    let data = write_raw(&[commitment(2, 0, ZERO)]);
    assert!(open_commitments(&data, 1).is_err());
    assert!(open_commitments(&data, 2).is_ok());
}

#[test]
fn open_rejects_truncated_and_corrupt_frames() {
    let h0 = commitment_hash(0, &ZERO);
    let data = write_raw(&[commitment(1, 0, ZERO), commitment(1, 1, h0)]);
    let cut = data[..data.len() - 2].to_vec();
    assert_eq!(
        open_commitments(&cut, 1).unwrap_err().text(&id("c")),
        "c: truncated commitment frame body at offset 49"
    );
    let cut = data[..47].to_vec();
    assert_eq!(
        open_commitments(&cut, 1).unwrap_err().text(&id("c")),
        "c: truncated commitment length prefix at offset 45"
    );

    let frame0_end = 4 + u32::from_le_bytes(data[0..4].try_into().unwrap()) as usize;
    let mut bad = data;
    bad[frame0_end + 4] ^= 0xFF;
    assert_eq!(
        open_commitments(&bad, 1).unwrap_err().text(&id("c")),
        "c: invalid signed commitment frame at offset 49"
    );
}

// ---- claims ----

#[test]
fn attachment_state_classifies_parent_root_and_detached() {
    let mut parented = NodeRecord::new(id("self"));
    parented.parent = Some(ParentLink { parent_id: id("p"), slot: 0, generation: 0 });
    assert_eq!(attachment_state(&parented), Attachment::Parented);

    let mut root = NodeRecord::new(id("self"));
    root.address = Some(OctAddr::parse("0").unwrap());
    assert_eq!(attachment_state(&root), Attachment::Root);

    let detached = NodeRecord::new(id("self"));
    assert_eq!(attachment_state(&detached), Attachment::NoParent);
    assert_eq!(Attachment::NoParent.label(), "no parent");
}

#[test]
fn guidance_reflects_the_magnitude() {
    let positive = VerifiedClaim { parent_balance: 42, commitment_height: 3 };
    assert!(review_guidance(&positive).contains("funding 42 to match"));
    let zero = VerifiedClaim { parent_balance: 0, ..positive };
    assert!(review_guidance(&zero).contains("no prefund is needed"));
}

#[test]
fn guidance_states_what_the_state_proof_does_not_prove() {
    let positive = VerifiedClaim { parent_balance: 42, commitment_height: 3 };
    let text = review_guidance(&positive);
    for phrase in [
        "not proven:",
        "self-attested",
        "presenter authors their own ledger",
        "may not be the presenter's latest state",
        "unverified context",
        "not evidence that any old parent ever owed the amount",
        "nothing here compels payment or creates an obligation",
        "discretionary operator decision",
    ] {
        assert!(text.contains(phrase), "guidance is missing {:?}:\n{}", phrase, text);
    }
    let zero = VerifiedClaim { parent_balance: 0, ..positive };
    assert!(review_guidance(&zero).contains("not proven:"));
}

#[test]
fn node_id_is_the_operator_hex() {
    let public = SecretKey::from_bytes(&[7u8; 32]).public();
    let node_id = hex_text(public.as_bytes());
    assert_eq!(node_id.len(), 64);
    assert_eq!(node_id, public.to_string());
}

#[test]
fn a_bundle_needs_the_chain_at_the_ledger_head() {
    let mut log = empty_commitments();
    assert_eq!(needs_commit(&log, 0), Ok(true));
    commit(&mut log, commitment(1, 2, ZERO)).unwrap();
    assert_eq!(needs_commit(&log, 2), Ok(false));
    assert_eq!(needs_commit(&log, 3), Ok(true));
    assert_eq!(
        needs_commit(&log, 1).unwrap_err(),
        "commitment head height 2 is ahead of the ledger's 1 entries; the commitment log and \
         ledger disagree"
    );
}

#[test]
fn the_chain_of_a_bundle_is_bounded() {
    assert!(chain_window(&vec![]).is_none());
    let mut chain = Vec::new();
    for height in 0..200u64 {
        chain.push(commitment(1, height, ZERO));
    }
    let window = chain_window(&chain).unwrap();
    assert_eq!((window.from, window.total, window.included), (71, 199, MAX_BUNDLE_CHAIN));
    chain.truncate(3);
    let window = chain_window(&chain).unwrap();
    assert_eq!((window.from, window.total, window.included), (0, 2, 2));
}

#[test]
fn an_export_is_summed_up() {
    let outcome = ExportOutcome {
        verified: VerifiedClaim { parent_balance: -5, commitment_height: 9 },
        committed: true,
        chain_total: 9,
        chain_included: 8,
    };
    let text = export_summary(&outcome);
    let lines: Vec<&str> = text.lines().collect();
    assert_eq!(lines[0], "state-proof-checked attested Parent balance: -5");
    assert_eq!(lines[1], "commitment height: 9");
    assert_eq!(lines[2], "chain: 8 of 9 ancestor commitment(s) included");
    assert!(lines[3].starts_with("note: chain truncated"));
    assert!(lines[4].starts_with("note: appended a fresh commitment"));
    assert_eq!(lines.len(), 6);
}

#[test]
fn bundles_are_bounded_in_size() {
    assert_eq!(check_bundle_size("b.json", MAX_BUNDLE_FILE_BYTES, None), Ok(()));
    assert_eq!(
        check_bundle_size("b.json", MAX_BUNDLE_FILE_BYTES + 1, Some(9_000_000)).unwrap_err(),
        "bundle file b.json is 9000000 bytes, exceeding the 1048576-byte cap"
    );
}
