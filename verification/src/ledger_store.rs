//! The ledger log: dense, hash-chained entries in length-prefixed frames.
//!
//! On open the frames are read and checked one by one. Only a final frame that
//! was cut short is forgiven, as the trace of an append that did not complete;
//! everything else that is wrong is an error, at the end of the log too.
use crate::frames;
use crate::frames::{FrameEnd, Frames};
use crate::ledger_service::LedgerError;
use crate::text;
use crate::wire;
use crate::wire::{Digest, LedgerPubKey, SignedEntry};
use vstd::prelude::*;

verus! {

/// Directory inside the data dir that holds the ledger.
pub const LEDGER_DIR: &'static str = "ledger";

/// Name of the frame log.
pub const ENTRIES_FILE: &'static str = "entries.log";

/// Name of the metadata file.
pub const META_FILE: &'static str = "meta.json";

/// Name of the ledger's write lock file.
pub const LOCK_FILE: &'static str = ".lock";

/// Name of the process-instance lock file.
pub const NODE_LOCK_FILE: &'static str = "node.lock";

/// Format version of the stored ledger.
pub const LEDGER_FORMAT_VERSION: u32 = 3;

/// The ledger directory below `data_dir`.
pub open spec fn spec_ledger_dir(data_dir: Seq<char>) -> Seq<char> {
    text::joined_path(data_dir, LEDGER_DIR@)
}

/// The ledger directory below `data_dir`.
pub fn ledger_dir(data_dir: &str) -> (r: String)
    ensures
        r@ == spec_ledger_dir(data_dir@),
{
    text::join_path(data_dir, LEDGER_DIR)
}

/// Path of the frame log below `data_dir`.
pub fn entries_path(data_dir: &str) -> (r: String)
    ensures
        r@ == text::joined_path(spec_ledger_dir(data_dir@), ENTRIES_FILE@),
{
    text::join_path(ledger_dir(data_dir).as_str(), ENTRIES_FILE)
}

/// Path of the metadata file below `data_dir`.
pub fn meta_path(data_dir: &str) -> (r: String)
    ensures
        r@ == text::joined_path(spec_ledger_dir(data_dir@), META_FILE@),
{
    text::join_path(ledger_dir(data_dir).as_str(), META_FILE)
}

/// Path of the ledger's write lock below `data_dir`.
pub fn lock_path(data_dir: &str) -> (r: String)
    ensures
        r@ == text::joined_path(spec_ledger_dir(data_dir@), LOCK_FILE@),
{
    text::join_path(ledger_dir(data_dir).as_str(), LOCK_FILE)
}

/// What is said when the ledger is locked by another process.
pub fn exclusive_message(data_dir: &str) -> (r: String)
    ensures
        r@ == "ledger data dir "@ + data_dir@
            + " is locked by another cawala writer; retry once the current transaction completes"@,
{
    text::between(
        "ledger data dir ",
        data_dir,
        " is locked by another cawala writer; retry once the current transaction completes",
    )
}

/// What is said when another node runs on the data dir.
pub fn instance_message(data_dir: &str) -> (r: String)
    ensures
        r@ == "another cawala node is already running on data dir "@ + data_dir@,
{
    let mut r: String = "another cawala node is already running on data dir ".to_owned();
    r.append(data_dir);
    r
}

/// What binds a log to its node and its key.
#[derive(Debug)]
pub struct LedgerMeta {
    /// The format version.
    pub format_version: u32,
    /// The owning node.
    pub node_id: String,
    /// The owning node's ledger key.
    pub ledger_id: LedgerPubKey,
}

/// Why stored metadata is refused.
#[derive(Debug, PartialEq, Eq)]
pub enum MetaError {
    /// The log was written in an older format.
    Older(u32),
    /// The log was written in a newer format.
    Newer(u32),
    /// The log belongs to another node.
    NodeMismatch {
        /// The node of the log.
        found: String,
        /// This node.
        expected: String,
    },
    /// The log was written under another key.
    KeyMismatch,
}

impl MetaError {
    /// The message shown for the error in the file at `path`.
    pub open spec fn spec_text(self, path: Seq<char>) -> Seq<char> {
        match self {
            MetaError::Older(version) => path + ": unsupported ledger format version "@
                + text::decimal(version as nat)
                + " (expected 3); the on-disk ledger format changed, so recreate the data dir"@,
            MetaError::Newer(version) => path + ": ledger format version "@ + text::decimal(
                version as nat,
            )
                + " is newer than this binary supports (expected 3); upgrade the node or recreate the data dir"@,
            MetaError::NodeMismatch { found, expected } => "ledger meta node id '"@ + found@
                + "' does not match '"@ + expected@ + "'"@,
            MetaError::KeyMismatch => {
                "ledger key does not match the ledger id recorded in meta.json"@
            },
        }
    }

    /// The message shown for the error in the file at `path`.
    pub fn text(&self, path: &String) -> (r: String)
        ensures
            r@ == self.spec_text(path@),
    {
        match self {
            MetaError::Older(version) => {
                let mut r: String = path.clone();
                r.append(": unsupported ledger format version ");
                r.append(text::u64_text(*version as u64).as_str());
                r.append(
                    " (expected 3); the on-disk ledger format changed, so recreate the data dir",
                );
                r
            },
            MetaError::Newer(version) => {
                let mut r: String = path.clone();
                r.append(": ledger format version ");
                r.append(text::u64_text(*version as u64).as_str());
                r.append(
                    " is newer than this binary supports (expected 3); upgrade the node or recreate the data dir",
                );
                r
            },
            MetaError::NodeMismatch { found, expected } => {
                let mut r: String = text::between(
                    "ledger meta node id '",
                    found.as_str(),
                    "' does not match '",
                );
                r.append(expected.as_str());
                r.append("'");
                r
            },
            MetaError::KeyMismatch => {
                "ledger key does not match the ledger id recorded in meta.json".to_owned()
            },
        }
    }
}

/// Why a format version is refused.
pub open spec fn version_fault(version: u32) -> Option<MetaError> {
    if version < LEDGER_FORMAT_VERSION {
        Some(MetaError::Older(version))
    } else if version > LEDGER_FORMAT_VERSION {
        Some(MetaError::Newer(version))
    } else {
        None
    }
}

/// Take over stored metadata, unless it is of another format version.
pub fn load_meta(stored: LedgerMeta) -> (r: Result<LedgerMeta, MetaError>)
    ensures
        r == (match version_fault(stored.format_version) {
            Some(e) => Err::<LedgerMeta, MetaError>(e),
            None => Ok(stored),
        }),
{
    if stored.format_version < LEDGER_FORMAT_VERSION {
        return Err(MetaError::Older(stored.format_version));
    }
    if stored.format_version > LEDGER_FORMAT_VERSION {
        return Err(MetaError::Newer(stored.format_version));
    }
    Ok(stored)
}

/// The fresh metadata of a node.
pub open spec fn is_fresh_meta(meta: LedgerMeta, node_id: Seq<char>, key: LedgerPubKey) -> bool {
    &&& meta.format_version == LEDGER_FORMAT_VERSION
    &&& meta.node_id@ == node_id
    &&& meta.ledger_id == key
}

/// Take over stored metadata, or make fresh ones where there are none. The flag
/// says whether they are to be written.
pub fn load_or_create_meta(
    stored: Option<LedgerMeta>,
    node_id: &String,
    key: &LedgerPubKey,
) -> (r: Result<(LedgerMeta, bool), MetaError>)
    ensures
        match stored {
            Some(meta) => r == (match version_fault(meta.format_version) {
                Some(e) => Err::<(LedgerMeta, bool), MetaError>(e),
                None => Ok((meta, false)),
            }),
            None => r matches Ok(fresh) && is_fresh_meta(fresh.0, node_id@, *key) && fresh.1,
        },
{
    match stored {
        Some(meta) => match load_meta(meta) {
            Ok(meta) => Ok((meta, false)),
            Err(e) => Err(e),
        },
        None => Ok(
            (
                LedgerMeta {
                    format_version: LEDGER_FORMAT_VERSION,
                    node_id: node_id.clone(),
                    ledger_id: *key,
                },
                true,
            ),
        ),
    }
}

/// Check that the log is this node's and was written under this key.
pub fn check_owner(meta: &LedgerMeta, node_id: &String, key: &LedgerPubKey) -> (r: Result<
    (),
    MetaError,
>)
    ensures
        r == (if meta.node_id@ != node_id@ {
            Err::<(), MetaError>(
                MetaError::NodeMismatch { found: meta.node_id, expected: *node_id },
            )
        } else if meta.ledger_id != *key {
            Err(MetaError::KeyMismatch)
        } else {
            Ok(())
        }),
{
    if meta.node_id != *node_id {
        return Err(
            MetaError::NodeMismatch { found: meta.node_id.clone(), expected: node_id.clone() },
        );
    }
    if !text::same32(&meta.ledger_id, key) {
        return Err(MetaError::KeyMismatch);
    }
    Ok(())
}

/// What is wrong with a stored log.
#[derive(Debug)]
#[allow(inconsistent_fields)]
pub enum LogError {
    /// A frame announces more than the bound.
    TooLong {
        /// What it announces.
        len: u32,
        /// The bound.
        max: u32,
    },
    /// A frame does not hold an entry.
    InvalidEntry {
        /// Where its body starts.
        offset: usize,
    },
    /// An entry is not the next one.
    OutOfOrder {
        /// The next sequence number.
        expected: u64,
        /// The one found.
        found: u64,
    },
    /// An entry does not follow on its predecessor.
    PrevMismatch {
        /// Its sequence number.
        seq: u64,
        /// The hash of its predecessor.
        expected: Digest,
        /// The hash it names.
        found: Digest,
    },
    /// An entry cannot be hashed.
    Unhashable {
        /// Its sequence number.
        seq: u64,
    },
}

impl LogError {
    /// The message shown for the error in the file at `path`.
    pub open spec fn spec_text(self, path: Seq<char>) -> Seq<char> {
        match self {
            LogError::TooLong { len, max } => frames::too_long(path, len, max),
            LogError::InvalidEntry { offset } => path + ": invalid signed entry frame at offset "@
                + text::decimal(offset as nat),
            LogError::OutOfOrder { expected, found } => path
                + ": entry sequence out of order: expected "@ + text::decimal(expected as nat)
                + ", found "@ + text::decimal(found as nat),
            LogError::PrevMismatch { seq, expected, found } => path + ": entry "@ + text::decimal(
                seq as nat,
            ) + " prev_hash mismatch: expected "@ + text::hex_lower(expected@) + ", found "@
                + text::hex_lower(found@),
            LogError::Unhashable { seq } => path + ": entry "@ + text::decimal(seq as nat)
                + " could not be hashed"@,
        }
    }

    /// The message shown for the error in the file at `path`.
    pub fn text(&self, path: &String) -> (r: String)
        ensures
            r@ == self.spec_text(path@),
    {
        let mut r: String = path.clone();
        match self {
            LogError::TooLong { len, max } => {
                return frames::too_long_text(path, *len, *max);
            },
            LogError::InvalidEntry { offset } => {
                r.append(": invalid signed entry frame at offset ");
                r.append(text::u64_text(*offset as u64).as_str());
            },
            LogError::OutOfOrder { expected, found } => {
                r.append(": entry sequence out of order: expected ");
                r.append(text::u64_text(*expected).as_str());
                r.append(", found ");
                r.append(text::u64_text(*found).as_str());
            },
            LogError::PrevMismatch { seq, expected, found } => {
                r.append(": entry ");
                r.append(text::u64_text(*seq).as_str());
                r.append(" prev_hash mismatch: expected ");
                r.append(text::hex_text(expected.as_slice()).as_str());
                r.append(", found ");
                r.append(text::hex_text(found.as_slice()).as_str());
            },
            LogError::Unhashable { seq } => {
                r.append(": entry ");
                r.append(text::u64_text(*seq).as_str());
                r.append(" could not be hashed");
            },
        }
        r
    }
}

/// Hash `hash` is the head of the log behind its first `i` entries.
pub open spec fn is_head(entries: Seq<SignedEntry>, i: int, hash: Digest) -> bool {
    if i == 0 {
        wire::is_zero(hash)
    } else {
        entries[i - 1].hash == Some(hash)
    }
}

/// Entry `i` is the next one behind its predecessors.
pub open spec fn follows(entries: Seq<SignedEntry>, i: int) -> bool {
    &&& entries[i].entry.seq == i
    &&& is_head(entries, i, entries[i].entry.prev_hash)
    &&& entries[i].hash is Some
}

/// `e` is what is wrong with entry `i`.
pub open spec fn is_entry_fault(entries: Seq<SignedEntry>, i: int, e: LogError) -> bool {
    let entry = entries[i].entry;
    if entry.seq != i {
        e == (LogError::OutOfOrder { expected: i as u64, found: entry.seq })
    } else if !is_head(entries, i, entry.prev_hash) {
        &&& e matches LogError::PrevMismatch { seq, expected, found }
        &&& seq == i
        &&& is_head(entries, i, expected)
        &&& found == entry.prev_hash
    } else {
        entries[i].hash is None && e == (LogError::Unhashable { seq: i as u64 })
    }
}

/// The first `n` entries follow on each other.
pub open spec fn chained(entries: Seq<SignedEntry>, n: int) -> bool {
    forall|i: int| 0 <= i < n ==> #[trigger] follows(entries, i)
}

/// The heads of a chained log, from none to all of its entries.
pub open spec fn are_heads(entries: Seq<SignedEntry>, heads: Seq<Digest>) -> bool {
    &&& heads.len() == entries.len() + 1
    &&& forall|i: int| 0 <= i < heads.len() ==> is_head(entries, i, #[trigger] heads[i])
}

/// `e` is the first thing that is wrong with a log: an entry that does not
/// follow, a frame behind the decoded ones that holds no entry, or a frame that
/// announces too much.
pub open spec fn is_log_fault(
    frames: Frames,
    max: u32,
    entries: Seq<SignedEntry>,
    e: LogError,
) -> bool {
    if chained(entries, entries.len() as int) {
        if entries.len() < frames.bodies@.len() {
            e == (LogError::InvalidEntry { offset: frames.starts@[entries.len() as int] })
        } else {
            frames.end matches FrameEnd::TooLong(len) && e == (LogError::TooLong { len, max })
        }
    } else {
        exists|i: int|
            0 <= i < entries.len() && chained(entries, i) && #[trigger] is_entry_fault(
                entries,
                i,
                e,
            )
    }
}

/// The entry log. `cursor` entries are visible; in a replay fewer than are
/// stored.
#[derive(Debug)]
pub struct FileLog {
    entries: Vec<SignedEntry>,
    heads: Vec<Digest>,
    cursor: usize,
}

impl FileLog {
    /// The stored entries.
    pub closed spec fn stored(&self) -> Seq<SignedEntry> {
        self.entries@
    }

    /// How many entries are visible.
    pub closed spec fn visible(&self) -> nat {
        self.cursor as nat
    }

    /// The heads are those of the stored entries.
    pub closed spec fn heads_ok(&self) -> bool {
        are_heads(self.entries@, self.heads@)
    }

    /// The stored entries follow on each other, and no more are visible than
    /// are stored.
    pub open spec fn wf(&self) -> bool {
        &&& chained(self.stored(), self.stored().len() as int)
        &&& self.visible() <= self.stored().len()
        &&& self.heads_ok()
    }

    /// Take over the frames of a stored log. `decoded` holds the entries of the
    /// frames up to the first that does not hold one. In a replay nothing is
    /// visible at first. What comes behind the complete frames is to be cut
    /// off.
    pub fn open_with(
        frames: &Frames,
        max: u32,
        decoded: Vec<SignedEntry>,
        replay: bool,
    ) -> (r: Result<FileLog, LogError>)
        requires
            frames.starts@.len() == frames.bodies@.len(),
            decoded@.len() <= frames.bodies@.len(),
        ensures
            match r {
                Ok(log) => {
                    &&& log.wf()
                    &&& log.stored() == decoded@
                    &&& decoded@.len() == frames.bodies@.len()
                    &&& !(frames.end is TooLong)
                    &&& log.visible() == (if replay {
                        0
                    } else {
                        decoded@.len()
                    })
                },
                Err(e) => is_log_fault(*frames, max, decoded@, e),
            },
    {
        let mut heads: Vec<Digest> = Vec::new();
        heads.push(wire::zero_hash());
        let mut i: usize = 0;
        while i < decoded.len()
            invariant
                i <= decoded@.len(),
                heads@.len() == i + 1,
                chained(decoded@, i as int),
                forall|j: int| 0 <= j < heads@.len() ==> is_head(decoded@, j, #[trigger] heads@[j]),
            decreases decoded@.len() - i,
        {
            let entry: &SignedEntry = &decoded[i];
            let prev: Digest = heads[i];
            if entry.entry.seq != i as u64 {
                let e: LogError = LogError::OutOfOrder {
                    expected: i as u64,
                    found: entry.entry.seq,
                };
                assert(!follows(decoded@, i as int));
                assert(is_entry_fault(decoded@, i as int, e));
                return Err(e);
            }
            proof {
                lemma_head_unique(decoded@, i as int, prev, entry.entry.prev_hash);
            }
            if !text::same32(&entry.entry.prev_hash, &prev) {
                let e: LogError = LogError::PrevMismatch {
                    seq: i as u64,
                    expected: prev,
                    found: entry.entry.prev_hash,
                };
                assert(!follows(decoded@, i as int));
                assert(is_entry_fault(decoded@, i as int, e));
                return Err(e);
            }
            match entry.hash {
                Some(hash) => {
                    heads.push(hash);
                },
                None => {
                    let e: LogError = LogError::Unhashable { seq: i as u64 };
                    assert(!follows(decoded@, i as int));
                    assert(is_entry_fault(decoded@, i as int, e));
                    return Err(e);
                },
            }
            i = i + 1;
        }
        if decoded.len() < frames.bodies.len() {
            return Err(LogError::InvalidEntry { offset: frames.starts[decoded.len()] });
        }
        match frames.end {
            FrameEnd::TooLong(len) => return Err(LogError::TooLong { len, max }),
            _ => {},
        }
        let cursor: usize = if replay {
            0
        } else {
            decoded.len()
        };
        Ok(FileLog { entries: decoded, heads, cursor })
    }

    /// Number of stored entries, visible or not.
    pub fn entry_count(&self) -> (r: usize)
        ensures
            r == self.stored().len(),
    {
        self.entries.len()
    }

    /// Number of visible entries.
    pub fn len(&self) -> (r: usize)
        ensures
            r == self.visible(),
    {
        self.cursor
    }

    /// Whether no entries are visible.
    pub fn is_empty(&self) -> (r: bool)
        ensures
            r == (self.visible() == 0),
    {
        self.cursor == 0
    }

    /// The stored entry at `index`.
    pub fn get(&self, index: usize) -> (r: Option<&SignedEntry>)
        ensures
            match r {
                Some(entry) => index < self.stored().len() && *entry == self.stored()[index as int],
                None => index >= self.stored().len(),
            },
    {
        if index < self.entries.len() {
            Some(&self.entries[index])
        } else {
            None
        }
    }

    /// The head behind the visible entries.
    pub fn head_hash(&self) -> (r: Digest)
        requires
            self.wf(),
        ensures
            is_head(self.stored(), self.visible() as int, r),
    {
        self.heads[self.cursor]
    }

    /// What appending an entry takes. `frame_len` is the length of its encoding,
    /// or why there is none.
    pub open spec fn appends(
        stored: Seq<SignedEntry>,
        visible: nat,
        signed: SignedEntry,
        frame_len: Result<usize, String>,
        max: u32,
        r: AppendStep,
    ) -> bool {
        if visible < stored.len() {
            if signed.entry.seq != visible {
                r == AppendStep::Refuse(
                    LedgerError::SeqOutOfOrder {
                        expected: visible as u64,
                        found: signed.entry.seq,
                    },
                )
            } else if signed.hash is Some && signed.hash == stored[visible as int].hash {
                r == AppendStep::Replayed
            } else {
                r matches AppendStep::Refuse(LedgerError::Encode(m)) && m@ == (if signed.hash
                    is Some {
                    "replayed entry "@ + text::decimal(visible)
                        + " does not match the persisted log"@
                } else {
                    "entry cannot be hashed"@
                })
            }
        } else if signed.entry.seq != stored.len() {
            r == AppendStep::Refuse(
                LedgerError::SeqOutOfOrder {
                    expected: stored.len() as u64,
                    found: signed.entry.seq,
                },
            )
        } else {
            match frame_len {
                Err(detail) => r == AppendStep::Refuse(LedgerError::Encode(detail)),
                Ok(len) => if len > max {
                    r matches AppendStep::Refuse(LedgerError::Encode(m)) && m@ == "frame length "@
                        + text::decimal(len as nat) + " exceeds max "@ + text::decimal(max as nat)
                } else {
                    r == AppendStep::Write
                },
            }
        }
    }

    /// Decide what appending an entry takes. In a replay of stored entries
    /// nothing is written: the entry must be the stored one, and becomes
    /// visible.
    pub fn append(&mut self, signed: &SignedEntry, frame_len: Result<usize, String>, max: u32) -> (r:
        AppendStep)
        requires
            old(self).wf(),
        ensures
            final(self).wf(),
            final(self).stored() == old(self).stored(),
            Self::appends(
                old(self).stored(),
                old(self).visible(),
                *signed,
                frame_len,
                max,
                r,
            ),
            final(self).visible() == (if r is Replayed {
                old(self).visible() + 1
            } else {
                old(self).visible()
            }),
    {
        if self.cursor < self.entries.len() {
            if signed.entry.seq != self.cursor as u64 {
                return AppendStep::Refuse(
                    LedgerError::SeqOutOfOrder {
                        expected: self.cursor as u64,
                        found: signed.entry.seq,
                    },
                );
            }
            let expected: Digest = self.heads[self.cursor + 1];
            assert(is_head(self.entries@, self.cursor + 1, expected));
            match signed.hash {
                None => {
                    return AppendStep::Refuse(
                        LedgerError::Encode("entry cannot be hashed".to_owned()),
                    );
                },
                Some(actual) => {
                    if !text::same32(&actual, &expected) {
                        return AppendStep::Refuse(
                            LedgerError::Encode(
                                text::between(
                                    "replayed entry ",
                                    text::u64_text(self.cursor as u64).as_str(),
                                    " does not match the persisted log",
                                ),
                            ),
                        );
                    }
                },
            }
            self.cursor = self.cursor + 1;
            return AppendStep::Replayed;
        }
        if signed.entry.seq != self.entries.len() as u64 {
            return AppendStep::Refuse(
                LedgerError::SeqOutOfOrder {
                    expected: self.entries.len() as u64,
                    found: signed.entry.seq,
                },
            );
        }
        match frame_len {
            Err(detail) => AppendStep::Refuse(LedgerError::Encode(detail)),
            Ok(len) => {
                if len as u64 > max as u64 {
                    let mut m: String = text::between(
                        "frame length ",
                        text::u64_text(len as u64).as_str(),
                        " exceeds max ",
                    );
                    m.append(text::u64_text(max as u64).as_str());
                    AppendStep::Refuse(LedgerError::Encode(m))
                } else {
                    AppendStep::Write
                }
            },
        }
    }

    /// Note an entry whose frame was written. The caller has checked that it
    /// names the head; one that cannot be hashed is refused.
    pub fn appended(&mut self, signed: SignedEntry) -> (r: Result<(), LedgerError>)
        requires
            old(self).wf(),
            old(self).visible() == old(self).stored().len(),
            signed.entry.seq == old(self).stored().len(),
            is_head(
                old(self).stored(),
                old(self).stored().len() as int,
                signed.entry.prev_hash,
            ),
            old(self).stored().len() < usize::MAX,
        ensures
            final(self).wf(),
            if signed.hash is Some {
                &&& r == Ok::<(), LedgerError>(())
                &&& final(self).stored() == old(self).stored().push(signed)
                &&& final(self).visible() == final(self).stored().len()
            } else {
                &&& r matches Err(LedgerError::Encode(m)) && m@ == "entry cannot be hashed"@
                &&& final(self).stored() == old(self).stored()
                &&& final(self).visible() == old(self).visible()
            },
    {
        let ghost before = self.entries@;
        match signed.hash {
            None => Err(LedgerError::Encode("entry cannot be hashed".to_owned())),
            Some(head) => {
                self.entries.push(signed);
                self.heads.push(head);
                self.cursor = self.entries.len();
                proof {
                    let after = self.entries@;
                    assert forall|i: int| 0 <= i < after.len() implies #[trigger] follows(
                        after,
                        i,
                    ) by {
                        if i < before.len() {
                            assert(follows(before, i));
                            assert(after[i] == before[i]);
                        }
                        if 0 < i {
                            assert(after[i - 1] == before[i - 1]);
                        }
                    }
                    assert forall|i: int| 0 <= i < self.heads@.len() implies is_head(
                        after,
                        i,
                        #[trigger] self.heads@[i],
                    ) by {
                        if 0 < i && i - 1 < before.len() {
                            assert(after[i - 1] == before[i - 1]);
                        }
                        if i <= before.len() {
                            assert(is_head(before, i, self.heads@[i]));
                        }
                    }
                }
                Ok(())
            },
        }
    }
}

proof fn lemma_head_unique(entries: Seq<SignedEntry>, i: int, a: Digest, b: Digest)
    requires
        is_head(entries, i, a),
    ensures
        is_head(entries, i, b) <==> a == b,
{
    if i == 0 && wire::is_zero(b) {
        wire::lemma_zero_is_unique(a, b);
    }
}

/// What appending an entry takes.
#[derive(Debug)]
pub enum AppendStep {
    /// Nothing more: it is stored already.
    Replayed,
    /// Write its frame, and make sure that it is on disk.
    Write,
    /// It is refused.
    Refuse(LedgerError),
}

/// Replaying a stored log entry by entry accepts every one of them and writes
/// nothing.
pub proof fn law_replay_accepts_the_stored_log(
    stored: Seq<SignedEntry>,
    visible: nat,
    frame_len: Result<usize, String>,
    max: u32,
    r: AppendStep,
)
    requires
        chained(stored, stored.len() as int),
        visible < stored.len(),
        FileLog::appends(stored, visible, stored[visible as int], frame_len, max, r),
    ensures
        r == AppendStep::Replayed,
{
    assert(follows(stored, visible as int));
}

/// In a chained log each entry names the hash of the one before it, and its
/// place in the log is its sequence number.
pub proof fn law_log_is_a_hash_chain(stored: Seq<SignedEntry>, i: int, j: int)
    requires
        chained(stored, stored.len() as int),
        0 <= i < stored.len(),
        0 <= j < stored.len(),
    ensures
        stored[i].entry.seq == i,
        i == 0 ==> wire::is_zero(stored[i].entry.prev_hash),
        j == i + 1 ==> stored[i].hash == Some(stored[j].entry.prev_hash),
        stored[i].entry.seq == stored[j].entry.seq ==> i == j,
{
    assert(follows(stored, i));
    assert(follows(stored, j));
}

/// A log opens as the chain that was read: every frame is an entry, entry `i` has
/// the number `i`, and each names the hash of the one before it, the first one
/// none. For replay nothing is visible yet, otherwise all of it is.
pub proof fn law_opened_log_is_the_chain_that_was_read(
    read: Frames,
    max: u32,
    decoded: Vec<SignedEntry>,
    replay: bool,
    log: FileLog,
    i: int,
)
    requires
        call_ensures(
            FileLog::open_with,
            (&read, max, decoded, replay),
            Ok::<FileLog, LogError>(log),
        ),
        0 <= i < decoded@.len(),
    ensures
        log.stored() == decoded@,
        decoded@.len() == read.bodies@.len(),
        !(read.end is TooLong),
        log.visible() == if replay { 0 } else { decoded@.len() },
        decoded@[i].entry.seq == i,
        decoded@[i].hash is Some,
        i == 0 ==> forall|k: int| 0 <= k < 32 ==> #[trigger] decoded@[i].entry.prev_hash[k] == 0,
        i > 0 ==> decoded@[i - 1].hash == Some(decoded@[i].entry.prev_hash),
{
    assert(follows(decoded@, i));
}

/// A log that does not open is refused for what is wrong with it: an entry out of
/// order, one that does not name the hash before it, one without a hash, a frame
/// that is no entry, or a frame that is too long. A frame that was cut short is
/// not among the reasons.
pub proof fn law_logs_are_refused_for_cause(
    read: Frames,
    max: u32,
    decoded: Vec<SignedEntry>,
    replay: bool,
    e: LogError,
    i: int,
)
    requires
        call_ensures(
            FileLog::open_with,
            (&read, max, decoded, replay),
            Err::<FileLog, LogError>(e),
        ),
        read.starts@.len() == read.bodies@.len(),
        decoded@.len() <= read.bodies@.len(),
        decoded@.len() <= u64::MAX,
    ensures
        match e {
            LogError::OutOfOrder { expected, found } => expected < decoded@.len()
                && decoded@[expected as int].entry.seq == found && found != expected,
            LogError::PrevMismatch { seq, expected, found } => {
                &&& seq < decoded@.len()
                &&& decoded@[seq as int].entry.prev_hash == found
                &&& found != expected
                &&& seq > 0 ==> decoded@[seq - 1].hash == Some(expected)
            },
            LogError::Unhashable { seq } => seq < decoded@.len() && decoded@[seq as int].hash
                is None,
            LogError::InvalidEntry { offset } => decoded@.len() < read.bodies@.len() && offset
                == read.starts@[decoded@.len() as int],
            LogError::TooLong { len, max: limit } => decoded@.len() == read.bodies@.len()
                && limit == max && read.end == FrameEnd::TooLong(len),
        },
        e is InvalidEntry || e is TooLong ==> (0 <= i < decoded@.len() ==> decoded@[i].entry.seq
            == i && decoded@[i].hash is Some),
{
    let entries = decoded@;
    if chained(entries, entries.len() as int) {
        if 0 <= i < entries.len() {
            assert(follows(entries, i));
        }
    } else {
        let k = choose|k: int|
            0 <= k < entries.len() && chained(entries, k) && #[trigger] is_entry_fault(
                entries,
                k,
                e,
            );
        match e {
            LogError::PrevMismatch { seq, expected, found } => {
                lemma_head_unique(entries, k, expected, found);
            },
            _ => {},
        }
    }
}

/// While stored entries are replayed, an append must repeat the next of them: its
/// number and its hash. Behind the stored entries an append is the next number, in
/// a frame that fits, and is to be written. Only a replayed entry becomes visible,
/// and the stored ones never change.
pub proof fn law_appends_go_to_the_head(
    log: &mut FileLog,
    signed: SignedEntry,
    frame_len: Result<usize, String>,
    max: u32,
    r: AppendStep,
)
    requires
        old(log).wf(),
        call_ensures(FileLog::append, (log, &signed, frame_len, max), r),
    ensures
        ({
            let stored = old(log).stored();
            let seen = old(log).visible();
            &&& final(log).stored() == stored
            &&& seen < stored.len() ==> {
                &&& !(r is Write)
                &&& r is Replayed <==> signed.entry.seq == seen && signed.hash
                    == stored[seen as int].hash && signed.hash is Some
            }
            &&& seen == stored.len() ==> {
                &&& !(r is Replayed)
                &&& r is Write <==> signed.entry.seq == stored.len() && (frame_len matches Ok(len)
                    && len <= max)
            }
            &&& final(log).visible() == seen + if r is Replayed { 1int } else { 0 }
            &&& r matches AppendStep::Refuse(e) ==> match e {
                LedgerError::SeqOutOfOrder { expected, found } => expected == seen as u64 && found
                    == signed.entry.seq && found != seen,
                LedgerError::Encode(_) => signed.entry.seq == seen,
                _ => false,
            }
        }),
{
}

/// An entry that was written is the last of the log, visible, and the head from
/// then on; one that cannot be hashed leaves the log as it was.
pub proof fn law_written_entry_is_the_head(
    log: &mut FileLog,
    signed: SignedEntry,
    r: Result<(), LedgerError>,
    after: FileLog,
    head: Digest,
)
    requires
        old(log).wf(),
        call_ensures(FileLog::appended, (log, signed), r),
        after.stored() == final(log).stored(),
        after.visible() == final(log).visible(),
        call_ensures(FileLog::head_hash, (&after,), head),
        old(log).visible() == old(log).stored().len(),
    ensures
        r is Ok <==> signed.hash is Some,
        r is Ok ==> {
            &&& final(log).stored().len() == old(log).stored().len() + 1
            &&& final(log).stored().last() == signed
            &&& final(log).stored().drop_last() == old(log).stored()
            &&& final(log).visible() == final(log).stored().len()
            &&& signed.hash == Some(head)
        },
        r is Err ==> final(log).stored() == old(log).stored() && final(log).visible() == old(
            log,
        ).visible(),
{
    if r is Ok {
        assert(final(log).stored().drop_last() =~= old(log).stored());
    }
}

/// A stored description is taken over in this format alone, and one is made up for
/// this node and this key only where none is stored. It is held against the node
/// and the key, the node first.
pub proof fn law_ledgers_belong_to_their_node(
    stored: LedgerMeta,
    node_id: String,
    key: LedgerPubKey,
    loaded: Result<LedgerMeta, MetaError>,
    again: Result<(LedgerMeta, bool), MetaError>,
    fresh: Result<(LedgerMeta, bool), MetaError>,
    owned: Result<(), MetaError>,
)
    requires
        call_ensures(load_meta, (stored,), loaded),
        call_ensures(load_or_create_meta, (Some(stored), &node_id, &key), again),
        call_ensures(load_or_create_meta, (None, &node_id, &key), fresh),
        call_ensures(check_owner, (&stored, &node_id, &key), owned),
    ensures
        loaded is Ok <==> stored.format_version == 3,
        loaded is Ok ==> loaded->Ok_0 == stored,
        loaded matches Err(e) ==> match e {
            MetaError::Older(version) => version == stored.format_version && version < 3,
            MetaError::Newer(version) => version == stored.format_version && version > 3,
            _ => false,
        },
        again is Ok <==> loaded is Ok,
        again matches Ok(kept) ==> kept.0 == stored && !kept.1,
        again matches Err(e) ==> loaded == Err::<LedgerMeta, MetaError>(e),
        fresh matches Ok(made) && made.1 && made.0.format_version == 3 && made.0.node_id@
            == node_id@ && made.0.ledger_id == key,
        owned is Ok <==> stored.node_id@ == node_id@ && stored.ledger_id == key,
        owned matches Err(e) ==> match e {
            MetaError::NodeMismatch { found, expected } => found == stored.node_id && expected
                == node_id && found@ != expected@,
            MetaError::KeyMismatch => stored.node_id@ == node_id@ && stored.ledger_id != key,
            _ => false,
        },
{
}

/// The ledger's files stand in the directory `ledger` below the data directory,
/// each under its own name.
pub proof fn law_ledger_files_have_their_names(
    data_dir: &str,
    dir: String,
    entries: String,
    meta: String,
    lock: String,
)
    requires
        call_ensures(ledger_dir, (data_dir,), dir),
        call_ensures(entries_path, (data_dir,), entries),
        call_ensures(meta_path, (data_dir,), meta),
        call_ensures(lock_path, (data_dir,), lock),
    ensures
        dir@ == text::joined_path(data_dir@, "ledger"@),
        entries@ == text::joined_path(dir@, "entries.log"@),
        meta@ == text::joined_path(dir@, "meta.json"@),
        lock@ == text::joined_path(dir@, ".lock"@),
{
}

/// A message on a ledger's description or log shows what was found and what was
/// expected, each under its own name.
pub proof fn law_ledger_messages_tell_found_from_expected(
    meta: MetaError,
    log: LogError,
    path: String,
    m: String,
    l: String,
)
    requires
        call_ensures(MetaError::text, (&meta, &path), m),
        call_ensures(LogError::text, (&log, &path), l),
    ensures
        meta matches MetaError::NodeMismatch { found, expected } ==> m@ == "ledger meta node id '"@
            + found@ + "' does not match '"@ + expected@ + "'"@,
        meta matches MetaError::Older(version) ==> text::occurs(
            m@,
            ": unsupported ledger format version "@ + text::decimal(version as nat),
        ),
        meta matches MetaError::Newer(version) ==> text::occurs(
            m@,
            ": ledger format version "@ + text::decimal(version as nat),
        ),
        log matches LogError::OutOfOrder { expected, found } ==> {
            &&& text::occurs(
                l@,
                ": entry sequence out of order: expected "@ + text::decimal(expected as nat),
            )
            &&& text::occurs(l@, ", found "@ + text::decimal(found as nat))
        },
        log matches LogError::PrevMismatch { seq, expected, found } ==> {
            &&& text::occurs(l@, ": entry "@ + text::decimal(seq as nat))
            &&& text::occurs(l@, " prev_hash mismatch: expected "@ + text::hex_lower(expected@))
            &&& text::occurs(l@, ", found "@ + text::hex_lower(found@))
        },
        log matches LogError::TooLong { len, max } ==> {
            &&& text::occurs(l@, ": frame length "@ + text::decimal(len as nat))
            &&& text::occurs(l@, " exceeds max "@ + text::decimal(max as nat))
        },
{
    match meta {
        MetaError::Older(version) => {
            text::lemma_next_is_shown(
                path@,
                ": unsupported ledger format version "@,
                text::decimal(version as nat),
                " (expected 3); the on-disk ledger format changed, so recreate the data dir"@,
            );
        },
        MetaError::Newer(version) => {
            text::lemma_next_is_shown(
                path@,
                ": ledger format version "@,
                text::decimal(version as nat),
                " is newer than this binary supports (expected 3); upgrade the node or recreate the data dir"@,
            );
        },
        _ => {},
    }
    match log {
        LogError::OutOfOrder { expected, found } => {
            let none = Seq::<char>::empty();
            let first = path@ + ": entry sequence out of order: expected "@ + text::decimal(expected as nat);
            text::lemma_next_is_shown(path@, ": entry sequence out of order: expected "@, text::decimal(expected as nat), none);
            text::lemma_still_shown(first, ": entry sequence out of order: expected "@ + text::decimal(expected as nat), ", found "@, text::decimal(found as nat));
            text::lemma_next_is_shown(first, ", found "@, text::decimal(found as nat), none);
        },
        LogError::PrevMismatch { seq, expected, found } => {
            let none = Seq::<char>::empty();
            let first = path@ + ": entry "@ + text::decimal(seq as nat);
            text::lemma_next_is_shown(path@, ": entry "@, text::decimal(seq as nat), none);
            text::lemma_still_shown(first, ": entry "@ + text::decimal(seq as nat), " prev_hash mismatch: expected "@, text::hex_lower(expected@));
            text::lemma_next_is_shown(first, " prev_hash mismatch: expected "@, text::hex_lower(expected@), none);
            let second = first + " prev_hash mismatch: expected "@ + text::hex_lower(expected@);
            text::lemma_still_shown(
                second,
                ": entry "@ + text::decimal(seq as nat),
                ", found "@,
                text::hex_lower(found@),
            );
            text::lemma_still_shown(
                second,
                " prev_hash mismatch: expected "@ + text::hex_lower(expected@),
                ", found "@,
                text::hex_lower(found@),
            );
            text::lemma_next_is_shown(second, ", found "@, text::hex_lower(found@), none);
        },
        LogError::TooLong { len, max } => {
            let none = Seq::<char>::empty();
            let first = path@ + ": frame length "@ + text::decimal(len as nat);
            text::lemma_next_is_shown(path@, ": frame length "@, text::decimal(len as nat), none);
            text::lemma_still_shown(first, ": frame length "@ + text::decimal(len as nat), " exceeds max "@, text::decimal(max as nat));
            text::lemma_next_is_shown(first, " exceeds max "@, text::decimal(max as nat), none);
        },
        _ => {},
    }
}

} // verus!
