//! The commitment chain: each commitment names the hash of the one before it.
//!
//! The chain is checked as a whole on open, and an append is held to the same
//! rules, so that what is published can always be loaded again. A frame that
//! was cut short is an error here: a commitment is an explicit, synced act.
use crate::frames;
use crate::frames::{FrameEnd, Frames};
use crate::ledger_store;
use crate::text;
use crate::wire;
use crate::wire::{Digest, LedgerPubKey};
use vstd::prelude::*;

verus! {

/// Name of the commitment log.
pub const COMMITMENTS_FILE: &'static str = "commitments.log";

/// The most commitments that a chain may hold.
pub const MAX_COMMITMENTS: usize = 4096;

/// Path of the commitment log below `data_dir`.
pub fn commitments_path(data_dir: &str) -> (r: String)
    ensures
        r@ == text::joined_path(ledger_store::spec_ledger_dir(data_dir@), COMMITMENTS_FILE@),
{
    text::join_path(ledger_store::ledger_dir(data_dir).as_str(), COMMITMENTS_FILE)
}

/// A signed commitment to a ledger's first entries.
#[derive(Debug)]
pub struct SignedCommitment {
    /// The ledger.
    pub ledger_pubkey: LedgerPubKey,
    /// Its height.
    pub height: u64,
    /// How many entries are committed to.
    pub entry_count: u64,
    /// Hash of the commitment before it.
    pub prev_commitment_hash: Digest,
    /// Root over the entries.
    pub entry_root: Digest,
    /// Its own hash.
    pub hash: Digest,
    /// The keys under which the signature holds.
    pub valid_under: Vec<LedgerPubKey>,
}

impl SignedCommitment {
    /// The signature holds under `key`.
    pub open spec fn spec_verifies(self, key: LedgerPubKey) -> bool {
        self.valid_under@.contains(key)
    }

    /// Whether the signature holds under `key`.
    pub fn verifies(&self, key: &LedgerPubKey) -> (r: bool)
        ensures
            r == self.spec_verifies(*key),
    {
        wire::holds_key(&self.valid_under, key)
    }
}

/// `hash` is what the commitment behind the first `i` must name.
pub open spec fn is_last_hash(chain: Seq<SignedCommitment>, i: int, hash: Digest) -> bool {
    if i == 0 {
        wire::is_zero(hash)
    } else {
        hash == chain[i - 1].hash
    }
}

/// Commitment `i` is signed by the ledger's key, is as high as the entries it
/// counts, names its predecessor and is higher than it.
pub open spec fn links(chain: Seq<SignedCommitment>, key: LedgerPubKey, i: int) -> bool {
    &&& chain[i].spec_verifies(key)
    &&& chain[i].height == chain[i].entry_count
    &&& is_last_hash(chain, i, chain[i].prev_commitment_hash)
    &&& 0 < i ==> chain[i].height > chain[i - 1].height
}

/// Every commitment of the chain is in order.
pub open spec fn valid_chain(chain: Seq<SignedCommitment>, key: LedgerPubKey) -> bool {
    forall|i: int| 0 <= i < chain.len() ==> #[trigger] links(chain, key, i)
}

/// What is wrong with a stored chain or a new commitment.
#[derive(Debug)]
#[allow(inconsistent_fields)]
pub enum CommitmentError {
    /// Less than a length was left at this offset.
    TruncatedPrefix {
        /// Where.
        offset: usize,
    },
    /// Less than the announced body was left at this offset.
    TruncatedBody {
        /// Where.
        offset: usize,
    },
    /// A frame announces more than the bound.
    TooLong {
        /// What it announces.
        len: u32,
        /// The bound.
        max: u32,
    },
    /// A frame does not hold a commitment.
    InvalidFrame {
        /// Where its body starts.
        offset: usize,
    },
    /// The chain holds too many commitments.
    TooMany {
        /// How many.
        len: usize,
    },
    /// The chain is not in order.
    InvalidChain,
    /// There is no room for another commitment.
    Full,
    /// The commitment is not signed by the ledger's key.
    Unverifiable,
    /// The height is not the number of entries.
    HeightMismatch {
        /// The height.
        height: u64,
        /// The number of entries.
        entry_count: u64,
    },
    /// The commitment names another predecessor.
    BadLink {
        /// What it names.
        found: Digest,
        /// What it has to name.
        expected: Digest,
    },
    /// The commitment is not higher than its predecessor.
    NotHigher {
        /// Its height.
        height: u64,
        /// The predecessor's height.
        last: u64,
    },
    /// The commitment could not be encoded.
    Encode(String),
    /// The encoded commitment is over the bound.
    FrameTooLong {
        /// Its length.
        len: usize,
        /// The bound.
        max: u32,
    },
}

impl CommitmentError {
    /// The message shown for the error in the file at `path`.
    pub open spec fn spec_text(self, path: Seq<char>) -> Seq<char> {
        match self {
            CommitmentError::TruncatedPrefix { offset } => path
                + ": truncated commitment length prefix at offset "@ + text::decimal(offset as nat),
            CommitmentError::TruncatedBody { offset } => path
                + ": truncated commitment frame body at offset "@ + text::decimal(offset as nat),
            CommitmentError::TooLong { len, max } => frames::too_long(path, len, max),
            CommitmentError::InvalidFrame { offset } => path
                + ": invalid signed commitment frame at offset "@ + text::decimal(offset as nat),
            CommitmentError::TooMany { len } => path + ": "@ + text::decimal(len as nat)
                + " commitments exceeds max 4096"@,
            CommitmentError::InvalidChain => path + ": invalid commitment chain"@,
            CommitmentError::Full => path + ": commitment log is full (4096)"@,
            CommitmentError::Unverifiable => path
                + ": refusing to append an unverifiable commitment"@,
            CommitmentError::HeightMismatch { height, entry_count } => path
                + ": commitment height "@ + text::decimal(height as nat)
                + " does not equal entry_count "@ + text::decimal(entry_count as nat),
            CommitmentError::BadLink { found, expected } => path + ": commitment prev "@
                + text::hex_lower(found@) + " does not link to "@ + text::hex_lower(expected@),
            CommitmentError::NotHigher { height, last } => path + ": commitment height "@
                + text::decimal(height as nat) + " is not greater than the previous "@
                + text::decimal(last as nat),
            CommitmentError::Encode(detail) => "failed to encode commitment: "@ + detail@,
            CommitmentError::FrameTooLong { len, max } => path + ": commitment frame length "@
                + text::decimal(len as nat) + " exceeds max "@ + text::decimal(max as nat),
        }
    }

    /// The message shown for the error in the file at `path`.
    pub fn text(&self, path: &String) -> (r: String)
        ensures
            r@ == self.spec_text(path@),
    {
        let mut r: String = path.clone();
        match self {
            CommitmentError::TruncatedPrefix { offset } => {
                r.append(": truncated commitment length prefix at offset ");
                r.append(text::u64_text(*offset as u64).as_str());
            },
            CommitmentError::TruncatedBody { offset } => {
                r.append(": truncated commitment frame body at offset ");
                r.append(text::u64_text(*offset as u64).as_str());
            },
            CommitmentError::TooLong { len, max } => {
                return frames::too_long_text(path, *len, *max);
            },
            CommitmentError::InvalidFrame { offset } => {
                r.append(": invalid signed commitment frame at offset ");
                r.append(text::u64_text(*offset as u64).as_str());
            },
            CommitmentError::TooMany { len } => {
                r.append(": ");
                r.append(text::u64_text(*len as u64).as_str());
                r.append(" commitments exceeds max 4096");
            },
            CommitmentError::InvalidChain => {
                r.append(": invalid commitment chain");
            },
            CommitmentError::Full => {
                r.append(": commitment log is full (4096)");
            },
            CommitmentError::Unverifiable => {
                r.append(": refusing to append an unverifiable commitment");
            },
            CommitmentError::HeightMismatch { height, entry_count } => {
                r.append(": commitment height ");
                r.append(text::u64_text(*height).as_str());
                r.append(" does not equal entry_count ");
                r.append(text::u64_text(*entry_count).as_str());
            },
            CommitmentError::BadLink { found, expected } => {
                r.append(": commitment prev ");
                r.append(text::hex_text(found.as_slice()).as_str());
                r.append(" does not link to ");
                r.append(text::hex_text(expected.as_slice()).as_str());
            },
            CommitmentError::NotHigher { height, last } => {
                r.append(": commitment height ");
                r.append(text::u64_text(*height).as_str());
                r.append(" is not greater than the previous ");
                r.append(text::u64_text(*last).as_str());
            },
            CommitmentError::Encode(detail) => {
                let mut m: String = "failed to encode commitment: ".to_owned();
                m.append(detail.as_str());
                return m;
            },
            CommitmentError::FrameTooLong { len, max } => {
                r.append(": commitment frame length ");
                r.append(text::u64_text(*len as u64).as_str());
                r.append(" exceeds max ");
                r.append(text::u64_text(*max as u64).as_str());
            },
        }
        r
    }
}

/// Whether every commitment of the chain is in order.
fn verify_chain(chain: &Vec<SignedCommitment>, key: &LedgerPubKey) -> (r: bool)
    ensures
        r == valid_chain(chain@, *key),
{
    let mut i: usize = 0;
    while i < chain.len()
        invariant
            i <= chain@.len(),
            forall|j: int| 0 <= j < i ==> #[trigger] links(chain@, *key, j),
        decreases chain@.len() - i,
    {
        let linked: bool = if i == 0 {
            wire::all_zero(&chain[i].prev_commitment_hash)
        } else {
            text::same32(&chain[i].prev_commitment_hash, &chain[i - 1].hash) && chain[i].height
                > chain[i - 1].height
        };
        if !linked || chain[i].height != chain[i].entry_count || !chain[i].verifies(key) {
            assert(!links(chain@, *key, i as int));
            return false;
        }
        i = i + 1;
    }
    true
}

/// Why a stored chain is refused: a frame behind the decoded ones that holds no
/// commitment, a broken end, too many commitments, or a chain that is not in
/// order.
pub open spec fn load_fault(
    read: Frames,
    max: u32,
    decoded: Seq<SignedCommitment>,
    key: LedgerPubKey,
) -> Option<CommitmentError> {
    if decoded.len() < read.bodies@.len() {
        Some(CommitmentError::InvalidFrame { offset: read.starts@[decoded.len() as int] })
    } else {
        match read.end {
            FrameEnd::TornPrefix => Some(
                CommitmentError::TruncatedPrefix { offset: read.complete_len },
            ),
            FrameEnd::TornBody => Some(
                CommitmentError::TruncatedBody { offset: (read.complete_len + 4) as usize },
            ),
            FrameEnd::TooLong(len) => Some(CommitmentError::TooLong { len, max }),
            FrameEnd::Clean => if decoded.len() > MAX_COMMITMENTS {
                Some(CommitmentError::TooMany { len: decoded.len() as usize })
            } else if !valid_chain(decoded, key) {
                Some(CommitmentError::InvalidChain)
            } else {
                None
            },
        }
    }
}

/// A checked commitment chain.
#[derive(Debug)]
pub struct CommitmentLog {
    ledger_pubkey: LedgerPubKey,
    chain: Vec<SignedCommitment>,
}

impl CommitmentLog {
    /// The ledger's key.
    pub closed spec fn key(&self) -> LedgerPubKey {
        self.ledger_pubkey
    }

    /// The commitments, oldest first.
    pub closed spec fn commitments(&self) -> Seq<SignedCommitment> {
        self.chain@
    }

    /// The chain is in order and not too long.
    pub open spec fn wf(&self) -> bool {
        &&& valid_chain(self.commitments(), self.key())
        &&& self.commitments().len() <= MAX_COMMITMENTS
    }

    /// Take over the frames of a stored chain. `decoded` holds the commitments
    /// of the frames up to the first that does not hold one.
    pub fn open(read: &Frames, max: u32, decoded: Vec<SignedCommitment>, key: &LedgerPubKey) -> (r:
        Result<CommitmentLog, CommitmentError>)
        requires
            read.starts@.len() == read.bodies@.len(),
            decoded@.len() <= read.bodies@.len(),
            read.end is TornBody ==> read.complete_len + 4 <= usize::MAX,
        ensures
            match load_fault(*read, max, decoded@, *key) {
                Some(e) => r == Err::<CommitmentLog, CommitmentError>(e),
                None => r matches Ok(log) && log.wf() && log.commitments() == decoded@ && log.key()
                    == *key,
            },
    {
        if decoded.len() < read.bodies.len() {
            return Err(CommitmentError::InvalidFrame { offset: read.starts[decoded.len()] });
        }
        match read.end {
            FrameEnd::TornPrefix => {
                return Err(CommitmentError::TruncatedPrefix { offset: read.complete_len });
            },
            FrameEnd::TornBody => {
                return Err(CommitmentError::TruncatedBody { offset: read.complete_len + 4 });
            },
            FrameEnd::TooLong(len) => {
                return Err(CommitmentError::TooLong { len, max });
            },
            FrameEnd::Clean => {},
        }
        if decoded.len() > MAX_COMMITMENTS {
            return Err(CommitmentError::TooMany { len: decoded.len() });
        }
        if !verify_chain(&decoded, key) {
            return Err(CommitmentError::InvalidChain);
        }
        Ok(CommitmentLog { ledger_pubkey: *key, chain: decoded })
    }

    /// The commitments, oldest first.
    pub fn chain(&self) -> (r: &Vec<SignedCommitment>)
        ensures
            r@ == self.commitments(),
    {
        &self.chain
    }

    /// Whether there are no commitments yet.
    pub fn is_empty(&self) -> (r: bool)
        ensures
            r == (self.commitments().len() == 0),
    {
        self.chain.len() == 0
    }

    /// Number of commitments.
    pub fn len(&self) -> (r: usize)
        ensures
            r == self.commitments().len(),
    {
        self.chain.len()
    }

    /// Height of the last commitment, zero when there is none.
    pub fn height(&self) -> (r: u64)
        ensures
            r == (if self.commitments().len() == 0 {
                0
            } else {
                self.commitments().last().height
            }),
    {
        if self.chain.len() == 0 {
            0
        } else {
            self.chain[self.chain.len() - 1].height
        }
    }

    /// The hash that the next commitment must name.
    pub fn last_hash(&self) -> (r: Digest)
        ensures
            is_last_hash(self.commitments(), self.commitments().len() as int, r),
    {
        if self.chain.len() == 0 {
            wire::zero_hash()
        } else {
            self.chain[self.chain.len() - 1].hash
        }
    }

    /// `e` is why a commitment is refused.
    pub open spec fn append_refused(
        chain: Seq<SignedCommitment>,
        key: LedgerPubKey,
        next: SignedCommitment,
        frame_len: Result<usize, String>,
        max: u32,
        e: CommitmentError,
    ) -> bool {
        if chain.len() >= MAX_COMMITMENTS {
            e == CommitmentError::Full
        } else if !next.spec_verifies(key) {
            e == CommitmentError::Unverifiable
        } else if next.height != next.entry_count {
            e == (CommitmentError::HeightMismatch {
                height: next.height,
                entry_count: next.entry_count,
            })
        } else if !is_last_hash(chain, chain.len() as int, next.prev_commitment_hash) {
            &&& e matches CommitmentError::BadLink { found, expected }
            &&& found == next.prev_commitment_hash
            &&& is_last_hash(chain, chain.len() as int, expected)
        } else if chain.len() > 0 && next.height <= chain.last().height {
            e == (CommitmentError::NotHigher { height: next.height, last: chain.last().height })
        } else {
            match frame_len {
                Err(detail) => e == CommitmentError::Encode(detail),
                Ok(len) => len > max && e == (CommitmentError::FrameTooLong { len, max }),
            }
        }
    }

    /// The commitment may be appended.
    pub open spec fn may_append(
        chain: Seq<SignedCommitment>,
        key: LedgerPubKey,
        next: SignedCommitment,
    ) -> bool {
        &&& chain.len() < MAX_COMMITMENTS
        &&& next.spec_verifies(key)
        &&& next.height == next.entry_count
        &&& is_last_hash(chain, chain.len() as int, next.prev_commitment_hash)
        &&& chain.len() > 0 ==> next.height > chain.last().height
    }

    /// Check a new commitment. `frame_len` is the length of its encoding, or why
    /// there is none. Where it is taken, its frame is to be written and synced.
    pub fn append(&self, next: &SignedCommitment, frame_len: Result<usize, String>, max: u32) -> (r:
        Result<(), CommitmentError>)
        requires
            self.wf(),
        ensures
            match r {
                Ok(_) => Self::may_append(self.commitments(), self.key(), *next) && (
                frame_len matches Ok(len) && len <= max),
                Err(e) => Self::append_refused(
                    self.commitments(),
                    self.key(),
                    *next,
                    frame_len,
                    max,
                    e,
                ),
            },
    {
        if self.chain.len() >= MAX_COMMITMENTS {
            return Err(CommitmentError::Full);
        }
        if !next.verifies(&self.ledger_pubkey) {
            return Err(CommitmentError::Unverifiable);
        }
        if next.height != next.entry_count {
            return Err(
                CommitmentError::HeightMismatch {
                    height: next.height,
                    entry_count: next.entry_count,
                },
            );
        }
        let expected: Digest = self.last_hash();
        let linked: bool = text::same32(&next.prev_commitment_hash, &expected);
        proof {
            if self.chain@.len() == 0 && wire::is_zero(next.prev_commitment_hash) {
                wire::lemma_zero_is_unique(next.prev_commitment_hash, expected);
            }
        }
        if !linked {
            return Err(
                CommitmentError::BadLink { found: next.prev_commitment_hash, expected },
            );
        }
        if self.chain.len() > 0 {
            let last: u64 = self.chain[self.chain.len() - 1].height;
            if next.height <= last {
                return Err(CommitmentError::NotHigher { height: next.height, last });
            }
        }
        match frame_len {
            Err(detail) => Err(CommitmentError::Encode(detail)),
            Ok(len) => {
                if len as u64 > max as u64 {
                    Err(CommitmentError::FrameTooLong { len, max })
                } else {
                    Ok(())
                }
            },
        }
    }

    /// Note a commitment whose frame was written.
    pub fn appended(&mut self, next: SignedCommitment)
        requires
            old(self).wf(),
            Self::may_append(old(self).commitments(), old(self).key(), next),
        ensures
            final(self).wf(),
            final(self).key() == old(self).key(),
            final(self).commitments() == old(self).commitments().push(next),
    {
        proof {
            law_append_keeps_the_chain(self.chain@, self.ledger_pubkey, next);
        }
        self.chain.push(next);
    }
}

/// What an append takes, a later load accepts: the longer chain is in order
/// too.
pub proof fn law_append_keeps_the_chain(
    chain: Seq<SignedCommitment>,
    key: LedgerPubKey,
    next: SignedCommitment,
)
    requires
        valid_chain(chain, key),
        CommitmentLog::may_append(chain, key, next),
    ensures
        valid_chain(chain.push(next), key),
        chain.push(next).len() <= MAX_COMMITMENTS,
{
    let longer = chain.push(next);
    assert forall|i: int| 0 <= i < longer.len() implies #[trigger] links(longer, key, i) by {
        if i < chain.len() {
            assert(links(chain, key, i));
        }
        if 0 < i {
            assert(longer[i - 1] == chain[i - 1]);
        }
    }
}

/// The commitments were appended one after the other, each as the ones before
/// it allow.
pub open spec fn appended_in_turn(chain: Seq<SignedCommitment>, key: LedgerPubKey) -> bool {
    forall|i: int|
        0 <= i < chain.len() ==> CommitmentLog::may_append(
            chain.take(i),
            key,
            #[trigger] chain[i],
        )
}

proof fn lemma_appended_is_valid(chain: Seq<SignedCommitment>, key: LedgerPubKey, n: int)
    requires
        appended_in_turn(chain, key),
        0 <= n <= chain.len(),
    ensures
        valid_chain(chain.take(n), key),
        n <= MAX_COMMITMENTS,
    decreases n,
{
    if n > 0 {
        lemma_appended_is_valid(chain, key, n - 1);
        let last = chain[n - 1];
        assert(CommitmentLog::may_append(chain.take(n - 1), key, last));
        law_append_keeps_the_chain(chain.take(n - 1), key, last);
        assert(chain.take(n) =~= chain.take(n - 1).push(last));
    }
}

/// What was appended is there again after a restart: the log that holds the
/// frames of the appended commitments opens, and with exactly these.
pub proof fn law_reopening_gives_back_the_chain(
    chain: Seq<SignedCommitment>,
    key: LedgerPubKey,
    bodies: Seq<Seq<u8>>,
    read: Frames,
    max: u32,
)
    requires
        appended_in_turn(chain, key),
        bodies.len() == chain.len(),
        forall|i: int| 0 <= i < bodies.len() ==> (#[trigger] bodies[i]).len() <= max,
        read.of(frames::encoded(bodies), max),
    ensures
        read.bodies@.len() == chain.len(),
        frames::contents(read.bodies@) == bodies,
        load_fault(read, max, chain, key) is None,
{
    frames::law_reading_gives_back_what_was_written(bodies, Seq::empty(), max);
    assert(frames::contents(read.bodies@).len() == read.bodies@.len());
    lemma_appended_is_valid(chain, key, chain.len() as int);
    assert(chain.take(chain.len() as int) =~= chain);
}

/// A frame that was cut short is an error, whatever came before it: unlike the
/// log of entries, the chain has no torn tail to pass over.
pub proof fn law_cut_frame_is_refused(
    decoded: Seq<SignedCommitment>,
    key: LedgerPubKey,
    bodies: Seq<Seq<u8>>,
    body: Seq<u8>,
    cut: Seq<u8>,
    read: Frames,
    max: u32,
)
    requires
        forall|i: int| 0 <= i < bodies.len() ==> (#[trigger] bodies[i]).len() <= max,
        body.len() <= max,
        0 < cut.len() < frames::frame(body).len(),
        cut == frames::frame(body).take(cut.len() as int),
        read.of(frames::encoded(bodies) + cut, max),
        decoded.len() <= bodies.len(),
    ensures
        load_fault(read, max, decoded, key) is Some,
        decoded.len() == bodies.len() ==> (load_fault(read, max, decoded, key)->0 is TruncatedPrefix
            || load_fault(read, max, decoded, key)->0 is TruncatedBody),
{
    frames::law_torn_tail_is_discarded(bodies, cut, body, max);
    assert(frames::contents(read.bodies@).len() == read.bodies@.len());
}

/// A log without a byte is an empty chain.
pub proof fn law_no_file_is_an_empty_chain(key: LedgerPubKey, read: Frames, max: u32)
    requires
        read.of(Seq::empty(), max),
    ensures
        read.bodies@.len() == 0,
        load_fault(read, max, Seq::empty(), key) is None,
{
    assert(frames::contents(read.bodies@).len() == read.bodies@.len());
}

/// Heights only grow along the chain, so no two commitments are of the same
/// height.
pub proof fn law_heights_grow(chain: Seq<SignedCommitment>, key: LedgerPubKey, i: int, j: int)
    requires
        valid_chain(chain, key),
        0 <= i < j < chain.len(),
    ensures
        chain[i].height < chain[j].height,
    decreases j - i,
{
    assert(links(chain, key, j));
    if i < j - 1 {
        law_heights_grow(chain, key, i, j - 1);
    }
}

/// A commitment may be put behind the others exactly where there is room, it
/// verifies under the ledger's key, it counts the entries it stands for, it names
/// the hash of the last one, it is higher than that one, and its frame fits.
pub proof fn law_commitments_extend_the_last(
    log: CommitmentLog,
    next: SignedCommitment,
    frame_len: Result<usize, String>,
    max: u32,
    r: Result<(), CommitmentError>,
)
    requires
        log.wf(),
        call_ensures(CommitmentLog::append, (&log, &next, frame_len, max), r),
    ensures
        ({
            let chain = log.commitments();
            let linked = if chain.len() == 0 {
                forall|k: int| 0 <= k < 32 ==> #[trigger] next.prev_commitment_hash[k] == 0
            } else {
                next.prev_commitment_hash == chain.last().hash && next.height > chain.last().height
            };
            &&& r is Ok <==> chain.len() < 4096 && next.valid_under@.contains(log.key())
                && next.height == next.entry_count && linked && (frame_len matches Ok(len) && len
                <= max)
            &&& r matches Err(e) ==> match e {
                CommitmentError::Full => chain.len() >= 4096,
                CommitmentError::Unverifiable => !next.valid_under@.contains(log.key()),
                CommitmentError::HeightMismatch { height, entry_count } => height == next.height
                    && entry_count == next.entry_count && height != entry_count,
                CommitmentError::BadLink { found, expected } => found == next.prev_commitment_hash
                    && (chain.len() > 0 ==> expected == chain.last().hash && found != expected),
                CommitmentError::NotHigher { height, last } => height == next.height && chain.len()
                    > 0 && last == chain.last().height && height <= last,
                CommitmentError::Encode(detail) => frame_len == Err::<usize, String>(detail),
                CommitmentError::FrameTooLong { len, max: limit } => frame_len == Ok::<
                    usize,
                    String,
                >(len) && limit == max && len > limit,
                _ => false,
            }
        }),
{
}

/// A commitment log opens as the chain that was read: every frame is a commitment
/// that verifies, counts its entries, names the hash of the one before it and is
/// higher. A frame that was cut short is refused, and where it was cut is told.
pub proof fn law_opened_commitments_are_a_chain(
    read: Frames,
    max: u32,
    decoded: Vec<SignedCommitment>,
    key: LedgerPubKey,
    r: Result<CommitmentLog, CommitmentError>,
    i: int,
)
    requires
        call_ensures(CommitmentLog::open, (&read, max, decoded, &key), r),
        decoded@.len() <= read.bodies@.len(),
    ensures
        ({
            let chain = decoded@;
            &&& r matches Ok(log) ==> {
                &&& log.commitments() == chain
                &&& log.key() == key
                &&& read.end is Clean
                &&& chain.len() == read.bodies@.len()
                &&& chain.len() <= 4096
                &&& 0 <= i < chain.len() ==> {
                    &&& chain[i].valid_under@.contains(key)
                    &&& chain[i].height == chain[i].entry_count
                    &&& i > 0 ==> chain[i].prev_commitment_hash == chain[i - 1].hash
                        && chain[i].height > chain[i - 1].height
                    &&& i == 0 ==> forall|k: int|
                        0 <= k < 32 ==> #[trigger] chain[i].prev_commitment_hash[k] == 0
                }
            }
            &&& r matches Err(e) ==> match e {
                CommitmentError::InvalidFrame { offset } => chain.len() < read.bodies@.len()
                    && offset == read.starts@[chain.len() as int],
                CommitmentError::TruncatedPrefix { offset } => read.end is TornPrefix && offset
                    == read.complete_len,
                CommitmentError::TruncatedBody { offset } => read.end is TornBody && (
                read.complete_len + 4 <= usize::MAX ==> offset == read.complete_len + 4),
                CommitmentError::TooLong { len, max: limit } => read.end == FrameEnd::TooLong(len)
                    && limit == max,
                CommitmentError::TooMany { len } => chain.len() > 4096 && len
                    == chain.len() as usize,
                CommitmentError::InvalidChain => exists|k: int| #![trigger links(chain, key, k)]
                    0 <= k < chain.len() && (!chain[k].valid_under@.contains(key)
                        || chain[k].height != chain[k].entry_count || (k > 0 && (
                    chain[k].prev_commitment_hash != chain[k - 1].hash || chain[k].height
                        <= chain[k - 1].height)) || (k == 0 && !wire::is_zero(
                        chain[k].prev_commitment_hash,
                    ))),
                _ => false,
            }
        }),
{
    if r is Ok && 0 <= i < decoded@.len() {
        assert(links(decoded@, key, i));
    }
}

/// The last commitment gives the chain its height and the hash that the next one
/// names; an empty chain has the height zero and a hash of zeros. A commitment
/// that was put behind it is the last.
pub proof fn law_last_commitment_is_the_head(
    log: CommitmentLog,
    height: u64,
    hash: Digest,
    grown: &mut CommitmentLog,
    next: SignedCommitment,
)
    requires
        call_ensures(CommitmentLog::height, (&log,), height),
        call_ensures(CommitmentLog::last_hash, (&log,), hash),
        old(grown).wf(),
        call_ensures(CommitmentLog::appended, (grown, next), ()),
    ensures
        log.commitments().len() == 0 ==> height == 0 && forall|k: int|
            0 <= k < 32 ==> #[trigger] hash[k] == 0,
        log.commitments().len() > 0 ==> height == log.commitments().last().height && hash
            == log.commitments().last().hash,
        final(grown).commitments().len() == old(grown).commitments().len() + 1,
        final(grown).commitments().last() == next,
        final(grown).commitments().drop_last() == old(grown).commitments(),
        final(grown).key() == old(grown).key(),
{
    assert(final(grown).commitments().drop_last() =~= old(grown).commitments());
}

/// A message on a commitment shows each value it compares under its own name.
pub proof fn law_commitment_messages_show_both_sides(
    e: CommitmentError,
    path: String,
    m: String,
)
    requires
        call_ensures(CommitmentError::text, (&e, &path), m),
    ensures
        e matches CommitmentError::HeightMismatch { height, entry_count } ==> {
            &&& text::occurs(m@, ": commitment height "@ + text::decimal(height as nat))
            &&& text::occurs(
                m@,
                " does not equal entry_count "@ + text::decimal(entry_count as nat),
            )
        },
        e matches CommitmentError::BadLink { found, expected } ==> {
            &&& text::occurs(m@, ": commitment prev "@ + text::hex_lower(found@))
            &&& text::occurs(m@, " does not link to "@ + text::hex_lower(expected@))
        },
        e matches CommitmentError::NotHigher { height, last } ==> {
            &&& text::occurs(m@, ": commitment height "@ + text::decimal(height as nat))
            &&& text::occurs(
                m@,
                " is not greater than the previous "@ + text::decimal(last as nat),
            )
        },
        e matches CommitmentError::FrameTooLong { len, max } ==> {
            &&& text::occurs(m@, ": commitment frame length "@ + text::decimal(len as nat))
            &&& text::occurs(m@, " exceeds max "@ + text::decimal(max as nat))
        },
        e matches CommitmentError::TooLong { len, max } ==> {
            &&& text::occurs(m@, ": frame length "@ + text::decimal(len as nat))
            &&& text::occurs(m@, " exceeds max "@ + text::decimal(max as nat))
        },
{
    match e {
        CommitmentError::HeightMismatch { height, entry_count } => {
            let none = Seq::<char>::empty();
            let first = path@ + ": commitment height "@ + text::decimal(height as nat);
            text::lemma_next_is_shown(path@, ": commitment height "@, text::decimal(height as nat), none);
            text::lemma_still_shown(first, ": commitment height "@ + text::decimal(height as nat), " does not equal entry_count "@, text::decimal(entry_count as nat));
            text::lemma_next_is_shown(first, " does not equal entry_count "@, text::decimal(entry_count as nat), none);
        },
        CommitmentError::BadLink { found, expected } => {
            let none = Seq::<char>::empty();
            let first = path@ + ": commitment prev "@ + text::hex_lower(found@);
            text::lemma_next_is_shown(path@, ": commitment prev "@, text::hex_lower(found@), none);
            text::lemma_still_shown(first, ": commitment prev "@ + text::hex_lower(found@), " does not link to "@, text::hex_lower(expected@));
            text::lemma_next_is_shown(first, " does not link to "@, text::hex_lower(expected@), none);
        },
        CommitmentError::NotHigher { height, last } => {
            let none = Seq::<char>::empty();
            let first = path@ + ": commitment height "@ + text::decimal(height as nat);
            text::lemma_next_is_shown(path@, ": commitment height "@, text::decimal(height as nat), none);
            text::lemma_still_shown(first, ": commitment height "@ + text::decimal(height as nat), " is not greater than the previous "@, text::decimal(last as nat));
            text::lemma_next_is_shown(first, " is not greater than the previous "@, text::decimal(last as nat), none);
        },
        CommitmentError::FrameTooLong { len, max } => {
            let none = Seq::<char>::empty();
            let first = path@ + ": commitment frame length "@ + text::decimal(len as nat);
            text::lemma_next_is_shown(path@, ": commitment frame length "@, text::decimal(len as nat), none);
            text::lemma_still_shown(first, ": commitment frame length "@ + text::decimal(len as nat), " exceeds max "@, text::decimal(max as nat));
            text::lemma_next_is_shown(first, " exceeds max "@, text::decimal(max as nat), none);
        },
        CommitmentError::TooLong { len, max } => {
            let none = Seq::<char>::empty();
            let first = path@ + ": frame length "@ + text::decimal(len as nat);
            text::lemma_next_is_shown(path@, ": frame length "@, text::decimal(len as nat), none);
            text::lemma_still_shown(first, ": frame length "@ + text::decimal(len as nat), " exceeds max "@, text::decimal(max as nat));
            text::lemma_next_is_shown(first, " exceeds max "@, text::decimal(max as nat), none);
        },
        _ => {},
    }
}

/// The commitments stand beside the ledger, under their own name.
pub proof fn law_commitments_stand_with_the_ledger(data_dir: &str, dir: String, path: String)
    requires
        call_ensures(ledger_store::ledger_dir, (data_dir,), dir),
        call_ensures(commitments_path, (data_dir,), path),
    ensures
        path@ == text::joined_path(dir@, "commitments.log"@),
{
}

} // verus!
