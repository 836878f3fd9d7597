//! The leaf half of value messaging: opening and funding accounts, applying
//! same-leaf orders exactly once, and the history of a receipt.
//!
//! The service holds the replayed log and the replay guard derived from it.
//! Signing, the transfer rules of the ledger and the log file are outside: the
//! service says which entry to append, and takes what came of it.
use crate::record;
use crate::record::{child_position, ChildEntry, ChildKind, NodeRecord};
use crate::text;
use crate::wire;
use crate::wire::{
    AccountRef, AuthRef, Entry, EntryBody, Digest, HopRole, LedgerPubKey, OperatorPubKey,
    PaymentOrder, PeerKeys, PeerRole, Posting, SignedEntry,
};
use vstd::prelude::*;

verus! {

/// How an order ended.
#[derive(Debug, Clone, Copy, PartialEq, Eq, Structural)]
pub enum OrderStatusV1 {
    /// Its entry was appended now.
    Applied,
    /// Its entry was appended before.
    Duplicate,
    /// It was refused.
    Rejected,
}

/// Why an order was refused.
#[derive(Debug, Clone, Copy, PartialEq, Eq, Structural)]
pub enum OrderRejectV1 {
    /// The order is malformed.
    BadRequest,
    /// An endpoint is not a user child of this leaf.
    NotAChild,
    /// The payer does not have the amount.
    InsufficientBalance,
    /// An account is not open.
    AccountNotOpened,
    /// The order is too old.
    Expired,
    /// The authorisation does not hold.
    Unauthorized,
    /// Something failed here.
    Internal,
}

/// What the ledger can find wrong with an entry.
#[derive(Debug, PartialEq, Eq)]
pub enum LedgerError {
    /// The payer does not have the amount.
    InsufficientBalance,
    /// An account is not open.
    AccountNotOpened,
    /// The order is too old.
    OrderExpired,
    /// The entry does not match its order.
    OrderMismatch,
    /// The entry does not have the shape of its kind.
    InvalidEntryShape,
    /// The signer may not do this.
    Unauthorized,
    /// An authorisation is missing.
    MissingAuthorization,
    /// A signature does not verify.
    InvalidSignature,
    /// The entry is not the next one.
    SeqOutOfOrder {
        /// The next sequence number.
        expected: u64,
        /// The one found.
        found: u64,
    },
    /// The entry could not be encoded or stored.
    Encode(String),
    /// A registry row breaks the rules of its role.
    InvalidPeerKeys,
    /// A registry already has a row for the node.
    DuplicatePeer,
    /// A registry already has a row with the key.
    DuplicateKey,
    /// Anything else.
    Other,
}

/// The result of applying one order.
#[derive(Debug, Clone, Copy)]
pub struct ApplyOutcome {
    /// Whether the order applied, was a duplicate, or was rejected.
    pub status: OrderStatusV1,
    /// The sequence number of the applied (or already applied) entry.
    pub entry_seq: Option<u64>,
    /// The hash of the applied (or already applied) entry.
    pub entry_hash: Option<Digest>,
    /// The reason for a rejection.
    pub reason: Option<OrderRejectV1>,
}

impl ApplyOutcome {
    /// A rejection.
    pub open spec fn spec_rejected(reason: OrderRejectV1) -> ApplyOutcome {
        ApplyOutcome {
            status: OrderStatusV1::Rejected,
            entry_seq: None,
            entry_hash: None,
            reason: Some(reason),
        }
    }

    /// A rejection.
    pub fn rejected(reason: OrderRejectV1) -> (r: ApplyOutcome)
        ensures
            r == ApplyOutcome::spec_rejected(reason),
    {
        ApplyOutcome {
            status: OrderStatusV1::Rejected,
            entry_seq: None,
            entry_hash: None,
            reason: Some(reason),
        }
    }
}

/// The kind of the first child named `id`.
pub open spec fn spec_child_kind(children: Seq<ChildEntry>, id: Seq<char>) -> Option<ChildKind>
    decreases children.len(),
{
    if children.len() == 0 {
        None
    } else if children[0].child_id@ == id {
        Some(children[0].kind)
    } else {
        spec_child_kind(children.drop_first(), id)
    }
}

proof fn lemma_child_kind(children: Seq<ChildEntry>, id: Seq<char>, k: int)
    requires
        0 <= k <= children.len(),
        forall|i: int| 0 <= i < k ==> (#[trigger] children[i]).child_id@ != id,
    ensures
        k == children.len() ==> spec_child_kind(children, id) is None,
        k < children.len() && children[k].child_id@ == id ==> spec_child_kind(children, id)
            == Some(children[k].kind),
    decreases children.len(),
{
    if k > 0 {
        assert(children[0].child_id@ != id);
        let rest = children.drop_first();
        assert forall|i: int| 0 <= i < k - 1 implies (#[trigger] rest[i]).child_id@ != id by {
            assert(rest[i] == children[i + 1]);
        }
        lemma_child_kind(rest, id, k - 1);
        if k < children.len() {
            assert(rest[k - 1] == children[k]);
        }
    }
}

/// The kind of `id` in `record`, if the record lists it.
pub fn child_kind(record: &NodeRecord, id: &String) -> (r: Option<ChildKind>)
    ensures
        r == spec_child_kind(record.children@, id@),
{
    match child_position(&record.children, id) {
        Some(i) => {
            proof {
                lemma_child_kind(record.children@, id@, i as int);
            }
            Some(record.children[i].kind)
        },
        None => {
            proof {
                assert forall|i: int| 0 <= i < record.children@.len() implies (
                #[trigger] record.children@[i]).child_id@ != id@ by {
                    assert(!record::has_child(record.children@, id@));
                }
                lemma_child_kind(record.children@, id@, record.children@.len() as int);
            }
            None
        },
    }
}

/// Whether `id` is listed as a user child.
fn is_user_child(record: &NodeRecord, id: &String) -> (r: bool)
    ensures
        r == (spec_child_kind(record.children@, id@) == Some(ChildKind::User)),
{
    match child_kind(record, id) {
        Some(kind) => kind == ChildKind::User,
        None => false,
    }
}

/// The refusal that answers a ledger error.
pub open spec fn spec_reject_reason(err: LedgerError) -> OrderRejectV1 {
    match err {
        LedgerError::InsufficientBalance => OrderRejectV1::InsufficientBalance,
        LedgerError::AccountNotOpened => OrderRejectV1::AccountNotOpened,
        LedgerError::OrderExpired => OrderRejectV1::Expired,
        LedgerError::OrderMismatch => OrderRejectV1::BadRequest,
        LedgerError::InvalidEntryShape => OrderRejectV1::BadRequest,
        LedgerError::Unauthorized => OrderRejectV1::Unauthorized,
        LedgerError::MissingAuthorization => OrderRejectV1::Unauthorized,
        LedgerError::InvalidSignature => OrderRejectV1::Unauthorized,
        _ => OrderRejectV1::Internal,
    }
}

/// Map a ledger error from transfer verification or append to a refusal.
pub fn reject_reason(err: &LedgerError) -> (r: OrderRejectV1)
    ensures
        r == spec_reject_reason(*err),
{
    match err {
        LedgerError::InsufficientBalance => OrderRejectV1::InsufficientBalance,
        LedgerError::AccountNotOpened => OrderRejectV1::AccountNotOpened,
        LedgerError::OrderExpired => OrderRejectV1::Expired,
        LedgerError::OrderMismatch => OrderRejectV1::BadRequest,
        LedgerError::InvalidEntryShape => OrderRejectV1::BadRequest,
        LedgerError::Unauthorized => OrderRejectV1::Unauthorized,
        LedgerError::MissingAuthorization => OrderRejectV1::Unauthorized,
        LedgerError::InvalidSignature => OrderRejectV1::Unauthorized,
        _ => OrderRejectV1::Internal,
    }
}

/// Leg `i` debits (`debit`) or credits a child account.
pub open spec fn moves_child(postings: Seq<Posting>, i: int, debit: bool) -> bool {
    &&& 0 <= i < postings.len()
    &&& postings[i].account is Child
    &&& if debit {
        postings[i].delta < 0
    } else {
        postings[i].delta > 0
    }
}

/// Leg `i` is the only one that debits (`debit`) or credits a child account.
pub open spec fn only_move(postings: Seq<Posting>, i: int, debit: bool) -> bool {
    moves_child(postings, i, debit) && forall|j: int| #[trigger]
        moves_child(postings, j, debit) ==> j == i
}

/// The debited and the credited child of a set of legs.
pub open spec fn are_endpoints(postings: Seq<Posting>, from: String, to: String) -> bool {
    exists|d: int, c: int|
        #![trigger only_move(postings, d, true), only_move(postings, c, false)]
        only_move(postings, d, true) && only_move(postings, c, false) && postings[d].account
            == AccountRef::Child(from) && postings[c].account == AccountRef::Child(to)
}

/// The debited and the credited child of a set of legs, if there is exactly one
/// of each.
pub fn direct_endpoints(postings: &Vec<Posting>) -> (r: Option<(String, String)>)
    ensures
        match r {
            Some((from, to)) => are_endpoints(postings@, from, to),
            None => !(exists|d: int, c: int|
                #![trigger only_move(postings@, d, true), only_move(postings@, c, false)]
                only_move(postings@, d, true) && only_move(postings@, c, false)),
        },
{
    let mut debit: Option<usize> = None;
    let mut credit: Option<usize> = None;
    let mut i: usize = 0;
    while i < postings.len()
        invariant
            i <= postings@.len(),
            match debit {
                Some(d) => d < i && moves_child(postings@, d as int, true) && forall|j: int|
                    0 <= j < i && #[trigger] moves_child(postings@, j, true) ==> j == d,
                None => forall|j: int|
                    0 <= j < i ==> !#[trigger] moves_child(postings@, j, true),
            },
            match credit {
                Some(c) => c < i && moves_child(postings@, c as int, false) && forall|j: int|
                    0 <= j < i && #[trigger] moves_child(postings@, j, false) ==> j == c,
                None => forall|j: int|
                    0 <= j < i ==> !#[trigger] moves_child(postings@, j, false),
            },
        decreases postings@.len() - i,
    {
        let is_child: bool = match &postings[i].account {
            AccountRef::Child(_) => true,
            AccountRef::Parent => false,
        };
        if is_child {
            let delta: i64 = postings[i].delta;
            if delta < 0 {
                assert(moves_child(postings@, i as int, true));
                match debit {
                    Some(d) => {
                        assert(moves_child(postings@, d as int, true));
                        return None;
                    },
                    None => {
                        debit = Some(i);
                    },
                }
            } else if delta > 0 {
                assert(moves_child(postings@, i as int, false));
                match credit {
                    Some(c) => {
                        assert(moves_child(postings@, c as int, false));
                        return None;
                    },
                    None => {
                        credit = Some(i);
                    },
                }
            }
        }
        i = i + 1;
    }
    match (debit, credit) {
        (Some(d), Some(c)) => {
            assert(only_move(postings@, d as int, true));
            assert(only_move(postings@, c as int, false));
            match (&postings[d].account, &postings[c].account) {
                (AccountRef::Child(from), AccountRef::Child(to)) => Some(
                    (from.clone(), to.clone()),
                ),
                _ => None,
            }
        },
        _ => None,
    }
}

/// One applied payment.
#[derive(Debug, Clone, Copy)]
pub struct Consumed {
    /// The payment.
    pub payment_id: Digest,
    /// Sequence number of its entry.
    pub seq: u64,
    /// Digest of its entry.
    pub hash: Digest,
}

/// Which payments were applied, and by which entry.
#[derive(Debug)]
pub struct ConsumedIndex {
    rows: Vec<Consumed>,
}

spec fn row_index(rows: Seq<Consumed>, id: Digest) -> int {
    choose|i: int| 0 <= i < rows.len() && (#[trigger] rows[i]).payment_id == id
}

spec fn has_row(rows: Seq<Consumed>, id: Digest) -> bool {
    exists|i: int| 0 <= i < rows.len() && (#[trigger] rows[i]).payment_id == id
}

impl View for ConsumedIndex {
    type V = Map<Digest, (u64, Digest)>;

    closed spec fn view(&self) -> Map<Digest, (u64, Digest)> {
        Map::new(
            |id: Digest| has_row(self.rows@, id),
            |id: Digest|
                {
                    let row = self.rows@[row_index(self.rows@, id)];
                    (row.seq, row.hash)
                },
        )
    }
}

impl ConsumedIndex {
    /// Each payment has one row.
    pub closed spec fn wf(&self) -> bool {
        forall|i: int, j: int|
            0 <= i < j < self.rows@.len() ==> (#[trigger] self.rows@[i]).payment_id != (
            #[trigger] self.rows@[j]).payment_id
    }

    /// No payments.
    pub fn new() -> (r: ConsumedIndex)
        ensures
            r.wf(),
            r@ == Map::<Digest, (u64, Digest)>::empty(),
    {
        let r: ConsumedIndex = ConsumedIndex { rows: Vec::new() };
        assert(r@ =~= Map::<Digest, (u64, Digest)>::empty());
        r
    }

    proof fn lemma_row(&self, i: int)
        requires
            self.wf(),
            0 <= i < self.rows@.len(),
        ensures
            self@.contains_key(self.rows@[i].payment_id),
            self@[self.rows@[i].payment_id] == (self.rows@[i].seq, self.rows@[i].hash),
    {
        let id = self.rows@[i].payment_id;
        assert(has_row(self.rows@, id));
        let k = row_index(self.rows@, id);
        assert(0 <= k < self.rows@.len() && self.rows@[k].payment_id == id);
    }

    /// The entry that applied `payment_id`.
    pub fn get(&self, payment_id: &Digest) -> (r: Option<(u64, Digest)>)
        requires
            self.wf(),
        ensures
            match r {
                Some(at) => self@.contains_key(*payment_id) && self@[*payment_id] == at,
                None => !self@.contains_key(*payment_id),
            },
    {
        let mut i: usize = 0;
        while i < self.rows.len()
            invariant
                self.wf(),
                i <= self.rows@.len(),
                forall|j: int| 0 <= j < i ==> (#[trigger] self.rows@[j]).payment_id != *payment_id,
            decreases self.rows@.len() - i,
        {
            if text::same32(&self.rows[i].payment_id, payment_id) {
                proof {
                    self.lemma_row(i as int);
                }
                return Some((self.rows[i].seq, self.rows[i].hash));
            }
            i = i + 1;
        }
        None
    }

    /// Note an applied payment; the first entry for a payment stays.
    pub fn note(&mut self, payment_id: Digest, seq: u64, hash: Digest)
        requires
            old(self).wf(),
        ensures
            final(self).wf(),
            final(self)@ == (if old(self)@.contains_key(payment_id) {
                old(self)@
            } else {
                old(self)@.insert(payment_id, (seq, hash))
            }),
    {
        let ghost before = *self;
        match self.get(&payment_id) {
            Some(_) => {},
            None => {
                self.rows.push(Consumed { payment_id, seq, hash });
                proof {
                    let last = before.rows@.len() as int;
                    assert forall|i: int, j: int| 0 <= i < j < self.rows@.len() implies (
                    #[trigger] self.rows@[i]).payment_id != (
                    #[trigger] self.rows@[j]).payment_id by {
                        if j == last {
                            assert(before.rows@[i].payment_id == self.rows@[i].payment_id);
                            assert(has_row(before.rows@, before.rows@[i].payment_id));
                        }
                    }
                    self.lemma_row(last);
                    assert forall|id: Digest| self@.contains_key(id) <==> before@.insert(
                        payment_id,
                        (seq, hash),
                    ).contains_key(id) by {
                        if has_row(self.rows@, id) {
                            let k = row_index(self.rows@, id);
                            assert(self.rows@[k].payment_id == id);
                            if k < last {
                                assert(before.rows@[k].payment_id == id);
                            }
                        }
                        if has_row(before.rows@, id) {
                            let k = row_index(before.rows@, id);
                            assert(self.rows@[k].payment_id == id);
                        }
                    }
                    assert forall|id: Digest| #[trigger] self@.contains_key(id) implies self@[id]
                        == before@.insert(payment_id, (seq, hash))[id] by {
                        let k = row_index(self.rows@, id);
                        assert(has_row(self.rows@, id));
                        assert(self.rows@[k].payment_id == id);
                        self.lemma_row(k);
                        if k < last {
                            before.lemma_row(k);
                        }
                    }
                    assert(self@ =~= before@.insert(payment_id, (seq, hash)));
                }
            },
        }
    }
}

/// The replay guard of a log: every transfer's payment with its first entry;
/// none when a transfer cannot be hashed.
pub open spec fn consumed_of(entries: Seq<SignedEntry>) -> Option<Map<Digest, (u64, Digest)>>
    decreases entries.len(),
{
    if entries.len() == 0 {
        Some(Map::empty())
    } else {
        match consumed_of(entries.drop_last()) {
            None => None,
            Some(before) => {
                let last = entries.last();
                match last.entry.body {
                    EntryBody::Transfer { payment_id, amount, role } => match last.hash {
                        None => None,
                        Some(hash) => if before.contains_key(payment_id) {
                            Some(before)
                        } else {
                            Some(before.insert(payment_id, (last.entry.seq, hash)))
                        },
                    },
                    _ => Some(before),
                }
            },
        }
    }
}

proof fn lemma_consumed_none(entries: Seq<SignedEntry>, k: int)
    requires
        0 <= k <= entries.len(),
        consumed_of(entries.take(k)) is None,
    ensures
        consumed_of(entries) is None,
    decreases entries.len() - k,
{
    if k < entries.len() {
        assert(entries.take(k + 1).drop_last() =~= entries.take(k));
        lemma_consumed_none(entries, k + 1);
    } else {
        assert(entries.take(k) =~= entries);
    }
}

/// Rebuild the replay guard from a log.
pub fn rebuild_consumed(entries: &Vec<SignedEntry>) -> (r: Option<ConsumedIndex>)
    ensures
        match r {
            Some(index) => index.wf() && consumed_of(entries@) == Some(index@),
            None => consumed_of(entries@) is None,
        },
{
    let mut index: ConsumedIndex = ConsumedIndex::new();
    let mut i: usize = 0;
    assert(entries@.take(0) =~= Seq::<SignedEntry>::empty());
    while i < entries.len()
        invariant
            i <= entries@.len(),
            index.wf(),
            consumed_of(entries@.take(i as int)) == Some(index@),
        decreases entries@.len() - i,
    {
        assert(entries@.take(i + 1).drop_last() =~= entries@.take(i as int));
        let signed: &SignedEntry = &entries[i];
        match &signed.entry.body {
            EntryBody::Transfer { payment_id, amount: _, role: _ } => {
                match signed.hash {
                    Some(hash) => {
                        index.note(*payment_id, signed.entry.seq, hash);
                    },
                    None => {
                        proof {
                            lemma_consumed_none(entries@, i + 1);
                        }
                        return None;
                    },
                }
            },
            _ => {},
        }
        i = i + 1;
    }
    assert(entries@.take(i as int) =~= entries@);
    Some(index)
}

/// A payment in the history of a user.
#[derive(Debug)]
pub struct ValueNoticeV1 {
    /// Sequence number of the entry.
    pub entry_seq: u64,
    /// Digest of the entry.
    pub entry_hash: Digest,
    /// The payment.
    pub payment_id: Digest,
    /// The payer.
    pub from: String,
    /// The payee.
    pub to: String,
    /// How much.
    pub amount: u64,
    /// The part this ledger played.
    pub role: HopRole,
    /// Unix seconds.
    pub issued_at: u64,
}

/// The entry is a direct transfer with one payer and one payee, and `user` is
/// one of them.
pub open spec fn touches(entry: Entry, user: Seq<char>) -> bool {
    &&& entry.body matches EntryBody::Transfer { payment_id, amount, role }
    &&& role == HopRole::Direct
    &&& exists|from: String, to: String| #[trigger]
        are_endpoints(entry.postings@, from, to) && (from@ == user || to@ == user)
}

/// The notice describes the entry.
pub open spec fn describes(notice: ValueNoticeV1, signed: SignedEntry) -> bool {
    &&& signed.entry.body matches EntryBody::Transfer { payment_id, amount, role }
    &&& notice.entry_seq == signed.entry.seq
    &&& Some(notice.entry_hash) == signed.hash
    &&& notice.payment_id == payment_id
    &&& notice.amount == amount
    &&& notice.role == role
    &&& notice.issued_at == signed.entry.issued_at
    &&& are_endpoints(signed.entry.postings@, notice.from, notice.to)
}

/// The entries that touch `user`, oldest first.
pub open spec fn touching(entries: Seq<SignedEntry>, user: Seq<char>) -> Seq<SignedEntry>
    decreases entries.len(),
{
    if entries.len() == 0 {
        Seq::empty()
    } else if touches(entries.last().entry, user) {
        touching(entries.drop_last(), user).push(entries.last())
    } else {
        touching(entries.drop_last(), user)
    }
}

/// Entry by entry, the notices describe the entries.
pub open spec fn describe_all(notices: Seq<ValueNoticeV1>, entries: Seq<SignedEntry>) -> bool {
    &&& notices.len() == entries.len()
    &&& forall|i: int| 0 <= i < notices.len() ==> describes(#[trigger] notices[i], entries[i])
}

proof fn lemma_endpoints_unique(postings: Seq<Posting>, a: String, b: String, c: String, d: String)
    requires
        are_endpoints(postings, a, b),
        are_endpoints(postings, c, d),
    ensures
        a == c,
        b == d,
{
    let (x, y) = choose|x: int, y: int|
        #![trigger only_move(postings, x, true), only_move(postings, y, false)]
        only_move(postings, x, true) && only_move(postings, y, false) && postings[x].account
            == AccountRef::Child(a) && postings[y].account == AccountRef::Child(b);
    let (p, q) = choose|p: int, q: int|
        #![trigger only_move(postings, p, true), only_move(postings, q, false)]
        only_move(postings, p, true) && only_move(postings, q, false) && postings[p].account
            == AccountRef::Child(c) && postings[q].account == AccountRef::Child(d);
    assert(moves_child(postings, p, true));
    assert(moves_child(postings, q, false));
}

/// The history of a receipt: the most recent direct transfers touching `user`,
/// oldest first, at most `cap` of them. None when one of them cannot be hashed.
pub fn receipt_history(entries: &Vec<SignedEntry>, user: &String, cap: usize) -> (r: Option<
    Vec<ValueNoticeV1>,
>)
    ensures
        ({
            let all = touching(entries@, user@);
            match r {
                Some(notices) => {
                    &&& forall|i: int| 0 <= i < all.len() ==> (#[trigger] all[i]).hash is Some
                    &&& describe_all(
                        notices@,
                        if all.len() <= cap {
                            all
                        } else {
                            all.skip(all.len() - cap)
                        },
                    )
                },
                None => exists|i: int| 0 <= i < all.len() && (#[trigger] all[i]).hash is None,
            }
        }),
{
    let mut notices: Vec<ValueNoticeV1> = Vec::new();
    let mut i: usize = 0;
    assert(entries@.take(0) =~= Seq::<SignedEntry>::empty());
    while i < entries.len()
        invariant
            i <= entries@.len(),
            describe_all(notices@, touching(entries@.take(i as int), user@)),
        decreases entries@.len() - i,
    {
        assert(entries@.take(i + 1).drop_last() =~= entries@.take(i as int));
        let signed: &SignedEntry = &entries[i];
        let ghost before = touching(entries@.take(i as int), user@);
        match &signed.entry.body {
            EntryBody::Transfer { payment_id, amount, role } => {
                if *role == HopRole::Direct {
                    match direct_endpoints(&signed.entry.postings) {
                        Some((from, to)) => {
                            if from == *user || to == *user {
                                assert(touches(signed.entry, user@));
                                match signed.hash {
                                    Some(entry_hash) => {
                                        notices.push(
                                            ValueNoticeV1 {
                                                entry_seq: signed.entry.seq,
                                                entry_hash,
                                                payment_id: *payment_id,
                                                from,
                                                to,
                                                amount: *amount,
                                                role: *role,
                                                issued_at: signed.entry.issued_at,
                                            },
                                        );
                                    },
                                    None => {
                                        proof {
                                            lemma_touching_prefix(entries@, user@, i + 1);
                                            let here = touching(entries@.take(i + 1), user@);
                                            let all = touching(entries@, user@);
                                            assert(here[before.len() as int] == *signed);
                                            assert(all[before.len() as int].hash is None);
                                        }
                                        return None;
                                    },
                                }
                            } else {
                                proof {
                                    if touches(signed.entry, user@) {
                                        let (f, t) = choose|f: String, t: String| #[trigger]
                                            are_endpoints(signed.entry.postings@, f, t) && (f@
                                                == user@ || t@ == user@);
                                        lemma_endpoints_unique(
                                            signed.entry.postings@,
                                            f,
                                            t,
                                            from,
                                            to,
                                        );
                                    }
                                }
                            }
                        },
                        None => {
                            proof {
                                if touches(signed.entry, user@) {
                                    let (f, t) = choose|f: String, t: String| #[trigger]
                                        are_endpoints(signed.entry.postings@, f, t);
                                    assert(are_endpoints(signed.entry.postings@, f, t));
                                }
                            }
                        },
                    }
                }
            },
            _ => {},
        }
        i = i + 1;
    }
    assert(entries@.take(i as int) =~= entries@);
    let ghost all = touching(entries@, user@);
    proof {
        assert forall|k: int| 0 <= k < all.len() implies (#[trigger] all[k]).hash is Some by {
            assert(describes(notices@[k], all[k]));
        }
    }
    if notices.len() > cap {
        let excess: usize = notices.len() - cap;
        let ghost full = notices@;
        let kept: Vec<ValueNoticeV1> = notices.split_off(excess);
        proof {
            let tail = all.skip(all.len() - cap);
            assert forall|k: int| 0 <= k < kept@.len() implies describes(
                #[trigger] kept@[k],
                tail[k],
            ) by {
                assert(kept@[k] == full[k + excess]);
                assert(tail[k] == all[k + excess]);
            }
        }
        return Some(kept);
    }
    Some(notices)
}

proof fn lemma_touching_prefix(entries: Seq<SignedEntry>, user: Seq<char>, k: int)
    requires
        0 <= k <= entries.len(),
    ensures
        touching(entries.take(k), user).len() <= touching(entries, user).len(),
        forall|i: int|
            0 <= i < touching(entries.take(k), user).len() ==> #[trigger] touching(
                entries,
                user,
            )[i] == touching(entries.take(k), user)[i],
    decreases entries.len() - k,
{
    if k < entries.len() {
        assert(entries.take(k + 1).drop_last() =~= entries.take(k));
        lemma_touching_prefix(entries, user, k + 1);
        let here = touching(entries.take(k), user);
        let next = touching(entries.take(k + 1), user);
        assert forall|i: int| 0 <= i < here.len() implies #[trigger] touching(entries, user)[i]
            == here[i] by {
            assert(next[i] == here[i]);
            assert(touching(entries, user)[i] == next[i]);
        }
    } else {
        assert(entries.take(k) =~= entries);
    }
}

/// A leaf node's ledger: the replayed log, its key, and the replay guard.
#[derive(Debug)]
pub struct LedgerService {
    node_id: String,
    key: LedgerPubKey,
    entries: Vec<SignedEntry>,
    consumed: ConsumedIndex,
}

/// The contents of a [`LedgerService`].
pub ghost struct ServiceState {
    pub node_id: Seq<char>,
    pub key: LedgerPubKey,
    pub entries: Seq<SignedEntry>,
    pub consumed: Map<Digest, (u64, Digest)>,
}

impl View for LedgerService {
    type V = ServiceState;

    closed spec fn view(&self) -> ServiceState {
        ServiceState {
            node_id: self.node_id@,
            key: self.key,
            entries: self.entries@,
            consumed: self.consumed@,
        }
    }
}

/// `hash` is the hash that the next entry of the log links to.
pub open spec fn is_head(entries: Seq<SignedEntry>, hash: Digest) -> bool {
    if entries.len() == 0 {
        wire::is_zero(hash)
    } else {
        entries.last().hash == Some(hash)
    }
}

/// The entry continues the log and records what is given.
pub open spec fn continues(
    state: ServiceState,
    entry: Entry,
    issued_at: u64,
    body: EntryBody,
    postings: Seq<Posting>,
    auth: Option<AuthRef>,
) -> bool {
    &&& entry.ledger_id == state.key
    &&& entry.seq == state.entries.len()
    &&& entry.height == state.entries.len()
    &&& is_head(state.entries, entry.prev_hash)
    &&& entry.issued_at == issued_at
    &&& entry.body == body
    &&& entry.postings@ == postings
    &&& entry.auth == auth
}

/// What an order calls for.
#[derive(Debug)]
pub enum OrderPlan {
    /// The outcome is already decided; the ledger stays as it is.
    Settled(ApplyOutcome),
    /// Sign, verify and append this entry.
    Append(Entry),
}

/// What came of appending a planned entry.
#[derive(Debug)]
pub enum AppendResult {
    /// It could not be signed.
    SignFailed,
    /// The peer registry could not be assembled.
    RegistryFailed,
    /// It is not a valid transfer of its order.
    VerifyFailed(LedgerError),
    /// It could not be hashed.
    HashFailed,
    /// The ledger refused it.
    AppendFailed(LedgerError),
    /// It was appended.
    Appended(SignedEntry),
}

/// The preflight and replay checks of an order, in order: structure, both ends
/// user children of this leaf, replay, range.
pub open spec fn order_check(
    state: ServiceState,
    order: PaymentOrder,
    sender: Seq<char>,
    record: NodeRecord,
) -> Option<ApplyOutcome> {
    if order.from@ != sender || order.from@ == order.to@ || order.amount == 0 {
        Some(ApplyOutcome::spec_rejected(OrderRejectV1::BadRequest))
    } else if spec_child_kind(record.children@, order.from@) != Some(ChildKind::User)
        || spec_child_kind(record.children@, order.to@) != Some(ChildKind::User) {
        Some(ApplyOutcome::spec_rejected(OrderRejectV1::NotAChild))
    } else if state.consumed.contains_key(order.hash) {
        Some(
            ApplyOutcome {
                status: OrderStatusV1::Duplicate,
                entry_seq: Some(state.consumed[order.hash].0),
                entry_hash: Some(state.consumed[order.hash].1),
                reason: None,
            },
        )
    } else if order.amount > i64::MAX {
        Some(ApplyOutcome::spec_rejected(OrderRejectV1::BadRequest))
    } else {
        None
    }
}

/// The two legs of a direct transfer.
pub open spec fn direct_legs(order: PaymentOrder) -> Seq<Posting> {
    seq![
        Posting { account: AccountRef::Child(order.from), delta: (-(order.amount as int)) as i64 },
        Posting { account: AccountRef::Child(order.to), delta: order.amount as i64 },
    ]
}

/// The body of a direct transfer.
pub open spec fn direct_body(order: PaymentOrder) -> EntryBody {
    EntryBody::Transfer {
        payment_id: order.hash,
        amount: order.amount,
        role: HopRole::Direct,
    }
}

/// Why value could not be issued.
#[derive(Debug, Clone, Copy, PartialEq, Eq, Structural)]
pub enum FundError {
    /// The amount is zero.
    ZeroAmount,
    /// The amount exceeds the ledger's signed range.
    AmountTooLarge,
}

/// A request to issue value, to be authorised by the node's operator.
#[derive(Debug)]
pub struct IssueRequest {
    /// The issuing node.
    pub node: String,
    /// The credited child.
    pub account: String,
    /// How much.
    pub amount: u64,
    /// Distinguishes otherwise equal requests.
    pub nonce: u64,
    /// Unix seconds after which the request is void.
    pub expiry: u64,
}

/// What the registry row of this node calls for.
#[derive(Debug)]
pub enum SelfRow {
    /// The stored row agrees with this node's identity.
    Present,
    /// The stored row contradicts this node's identity.
    Mismatch,
    /// There is no stored row: add this one, in memory only.
    Add(PeerKeys),
}

/// Hold the stored row of this node against its identity. The row is never
/// written back.
pub fn self_row(
    stored: Option<&PeerKeys>,
    node_id: &String,
    operator: &OperatorPubKey,
    ledger: &LedgerPubKey,
) -> (r: SelfRow)
    ensures
        match stored {
            Some(row) => if row.role == PeerRole::Node && row.operator == *operator && row.ledger
                == Some(*ledger) {
                r == SelfRow::Present
            } else {
                r == SelfRow::Mismatch
            },
            None => r matches SelfRow::Add(row) && row == (PeerKeys {
                node_id: *node_id,
                operator: *operator,
                ledger: Some(*ledger),
                role: PeerRole::Node,
            }),
        },
{
    match stored {
        Some(row) => {
            let expected: Option<LedgerPubKey> = Some(*ledger);
            if row.role == PeerRole::Node && text::same32(&row.operator, operator)
                && wire::same_key(&row.ledger, &expected) {
                SelfRow::Present
            } else {
                SelfRow::Mismatch
            }
        },
        None => SelfRow::Add(
            PeerKeys {
                node_id: node_id.clone(),
                operator: *operator,
                ledger: Some(*ledger),
                role: PeerRole::Node,
            },
        ),
    }
}

/// Whether `user` may be given a balance receipt: only a user child of this
/// leaf is.
pub fn may_have_receipt(record: &NodeRecord, user: &String) -> (r: bool)
    ensures
        r == (spec_child_kind(record.children@, user@) == Some(ChildKind::User)),
{
    is_user_child(record, user)
}

/// What an order comes to whose entry was to be appended: it is applied and
/// consumed with the entry, or refused without a trace.
pub open spec fn completes(
    pre: ServiceState,
    order: PaymentOrder,
    result: AppendResult,
    post: ServiceState,
    outcome: ApplyOutcome,
) -> bool {
    match result {
        AppendResult::Appended(signed) => {
            &&& outcome == (ApplyOutcome {
                status: OrderStatusV1::Applied,
                entry_seq: Some(signed.entry.seq),
                entry_hash: signed.hash,
                reason: None,
            })
            &&& post == (ServiceState {
                entries: pre.entries.push(signed),
                consumed: pre.consumed.insert(order.hash, (signed.entry.seq, signed.hash->0)),
                ..pre
            })
        },
        AppendResult::VerifyFailed(e) => post == pre && outcome == ApplyOutcome::spec_rejected(
            spec_reject_reason(e),
        ),
        AppendResult::AppendFailed(e) => post == pre && outcome == ApplyOutcome::spec_rejected(
            spec_reject_reason(e),
        ),
        _ => post == pre && outcome == ApplyOutcome::spec_rejected(OrderRejectV1::Internal),
    }
}

impl LedgerService {
    /// The replay guard is the one of the log, and every entry has a hash.
    pub open spec fn wf(&self) -> bool {
        &&& consumed_of(self@.entries) == Some(self@.consumed)
        &&& forall|i: int|
            0 <= i < self@.entries.len() ==> (#[trigger] self@.entries[i]).hash is Some
        &&& self.guard_wf()
    }

    /// The replay guard is well formed.
    pub closed spec fn guard_wf(&self) -> bool {
        self.consumed.wf() && self.entries@.len() <= usize::MAX
    }

    fn all_hashed(entries: &Vec<SignedEntry>) -> (r: bool)
        ensures
            r == (forall|i: int|
                0 <= i < entries@.len() ==> (#[trigger] entries@[i]).hash is Some),
    {
        let mut i: usize = 0;
        while i < entries.len()
            invariant
                i <= entries@.len(),
                forall|j: int| 0 <= j < i ==> (#[trigger] entries@[j]).hash is Some,
            decreases entries@.len() - i,
        {
            if entries[i].hash.is_none() {
                assert(entries@[i as int].hash is None);
                return false;
            }
            i = i + 1;
        }
        true
    }

    /// Take over a replayed log, rebuilding the replay guard from it. None when
    /// an entry has no hash.
    pub fn open(node_id: String, key: LedgerPubKey, entries: Vec<SignedEntry>) -> (r: Option<
        LedgerService,
    >)
        ensures
            match r {
                Some(service) => {
                    &&& service.wf()
                    &&& service@.node_id == node_id@
                    &&& service@.key == key
                    &&& service@.entries == entries@
                    &&& Some(service@.consumed) == consumed_of(entries@)
                },
                None => exists|i: int|
                    0 <= i < entries@.len() && (#[trigger] entries@[i]).hash is None,
            },
    {
        if !LedgerService::all_hashed(&entries) {
            return None;
        }
        match rebuild_consumed(&entries) {
            Some(consumed) => {
                let n: usize = entries.len();
                assert(n == entries@.len());
                Some(LedgerService { node_id, key, entries, consumed })
            },
            None => {
                proof {
                    lemma_hashed_is_consumable(entries@);
                }
                None
            },
        }
    }

    /// Replace the log by the one on disk. On failure the service keeps what it
    /// had.
    pub fn refresh(&mut self, entries: Vec<SignedEntry>) -> (r: bool)
        requires
            old(self).wf(),
        ensures
            final(self).wf(),
            final(self)@.node_id == old(self)@.node_id,
            final(self)@.key == old(self)@.key,
            r == (forall|i: int|
                0 <= i < entries@.len() ==> (#[trigger] entries@[i]).hash is Some),
            final(self)@.entries == (if r {
                entries@
            } else {
                old(self)@.entries
            }),
    {
        if !LedgerService::all_hashed(&entries) {
            return false;
        }
        match rebuild_consumed(&entries) {
            Some(consumed) => {
                let n: usize = entries.len();
                assert(n == entries@.len());
                self.entries = entries;
                self.consumed = consumed;
                true
            },
            None => {
                proof {
                    lemma_hashed_is_consumable(entries@);
                }
                false
            },
        }
    }

    /// This node's id.
    pub fn node_id(&self) -> (r: &str)
        ensures
            r@ == self@.node_id,
    {
        self.node_id.as_str()
    }

    /// This node's ledger public key.
    pub fn ledger_key_public(&self) -> (r: LedgerPubKey)
        ensures
            r == self@.key,
    {
        self.key
    }

    /// The replayed log.
    pub fn ledger(&self) -> (r: &Vec<SignedEntry>)
        ensures
            r@ == self@.entries,
    {
        &self.entries
    }

    /// The entry at `seq`.
    pub fn entry_at(&self, seq: u64) -> (r: Option<&SignedEntry>)
        ensures
            match r {
                Some(signed) => seq < self@.entries.len() && *signed == self@.entries[seq as int],
                None => seq >= self@.entries.len(),
            },
    {
        if seq < self.entries.len() as u64 {
            Some(&self.entries[seq as usize])
        } else {
            None
        }
    }

    fn next_entry(
        &self,
        issued_at: u64,
        body: EntryBody,
        postings: Vec<Posting>,
        auth: Option<AuthRef>,
    ) -> (r: Entry)
        requires
            self.wf(),
        ensures
            continues(self@, r, issued_at, body, postings@, auth),
    {
        let seq: u64 = self.entries.len() as u64;
        let prev_hash: Digest = if self.entries.len() == 0 {
            wire::zero_hash()
        } else {
            assert(self@.entries[self@.entries.len() - 1].hash is Some);
            match self.entries[self.entries.len() - 1].hash {
                Some(hash) => hash,
                None => wire::zero_hash(),
            }
        };
        Entry { ledger_id: self.key, seq, height: seq, prev_hash, issued_at, body, postings, auth }
    }

    /// The entry that opens `child`'s account; none when the account is open
    /// already.
    pub fn ensure_account_open(
        &self,
        is_open: bool,
        child: &String,
        kind: ChildKind,
        now: u64,
    ) -> (r: Option<Entry>)
        requires
            self.wf(),
        ensures
            r is None <==> is_open,
            r matches Some(entry) ==> continues(
                self@,
                entry,
                now,
                EntryBody::OpenAccount { child: *child, kind },
                Seq::empty(),
                None,
            ),
    {
        if is_open {
            return None;
        }
        let postings: Vec<Posting> = Vec::new();
        assert(postings@ =~= Seq::<Posting>::empty());
        Some(
            self.next_entry(
                now,
                EntryBody::OpenAccount { child: child.clone(), kind },
                postings,
                None,
            ),
        )
    }

    /// The request to issue `amount` to `to`. It is valid for an hour.
    pub fn fund(&self, to: &String, amount: u64, nonce: u64, now: u64) -> (r: Result<
        IssueRequest,
        FundError,
    >)
        ensures
            if amount == 0 {
                r == Err::<IssueRequest, FundError>(FundError::ZeroAmount)
            } else {
                &&& r matches Ok(request)
                &&& request.node@ == self@.node_id
                &&& request.account == *to
                &&& request.amount == amount
                &&& request.nonce == nonce
                &&& request.expiry == (if now + 3600 > u64::MAX {
                    u64::MAX as int
                } else {
                    now + 3600
                })
            },
    {
        if amount == 0 {
            return Err(FundError::ZeroAmount);
        }
        Ok(
            IssueRequest {
                node: self.node_id.clone(),
                account: to.clone(),
                amount,
                nonce,
                expiry: now.saturating_add(3600),
            },
        )
    }

    /// The entry that carries out an authorised issue: a single leg that credits
    /// the child.
    pub fn fund_entry(&self, request: &IssueRequest, auth: AuthRef, now: u64) -> (r: Result<
        Entry,
        FundError,
    >)
        requires
            self.wf(),
        ensures
            if request.amount > i64::MAX {
                r == Err::<Entry, FundError>(FundError::AmountTooLarge)
            } else {
                r matches Ok(entry) && continues(
                    self@,
                    entry,
                    now,
                    EntryBody::Issue { child: request.account, amount: request.amount },
                    seq![
                        Posting {
                            account: AccountRef::Child(request.account),
                            delta: request.amount as i64,
                        },
                    ],
                    Some(auth),
                )
            },
    {
        if request.amount > i64::MAX as u64 {
            return Err(FundError::AmountTooLarge);
        }
        let mut postings: Vec<Posting> = Vec::new();
        postings.push(
            Posting {
                account: AccountRef::Child(request.account.clone()),
                delta: request.amount as i64,
            },
        );
        assert(postings@ =~= seq![
            Posting {
                account: AccountRef::Child(request.account),
                delta: request.amount as i64,
            },
        ]);
        Ok(
            self.next_entry(
                now,
                EntryBody::Issue { child: request.account.clone(), amount: request.amount },
                postings,
                Some(auth),
            ),
        )
    }

    /// Check a same-leaf order and, where it is to be applied, build its entry.
    pub fn apply_order(
        &self,
        order: &PaymentOrder,
        auth: &AuthRef,
        sender: &String,
        record: &NodeRecord,
        now: u64,
    ) -> (r: OrderPlan)
        requires
            self.wf(),
        ensures
            match order_check(self@, *order, sender@, *record) {
                Some(outcome) => r == OrderPlan::Settled(outcome),
                None => r matches OrderPlan::Append(entry) && continues(
                    self@,
                    entry,
                    now,
                    direct_body(*order),
                    direct_legs(*order),
                    Some(*auth),
                ),
            },
    {
        if order.from != *sender || order.from == order.to || order.amount == 0 {
            return OrderPlan::Settled(ApplyOutcome::rejected(OrderRejectV1::BadRequest));
        }
        if !is_user_child(record, &order.from) || !is_user_child(record, &order.to) {
            return OrderPlan::Settled(ApplyOutcome::rejected(OrderRejectV1::NotAChild));
        }
        match self.consumed.get(&order.hash) {
            Some((seq, hash)) => {
                return OrderPlan::Settled(
                    ApplyOutcome {
                        status: OrderStatusV1::Duplicate,
                        entry_seq: Some(seq),
                        entry_hash: Some(hash),
                        reason: None,
                    },
                );
            },
            None => {},
        }
        if order.amount > i64::MAX as u64 {
            return OrderPlan::Settled(ApplyOutcome::rejected(OrderRejectV1::BadRequest));
        }
        let amount: i64 = order.amount as i64;
        let mut postings: Vec<Posting> = Vec::new();
        postings.push(Posting { account: AccountRef::Child(order.from.clone()), delta: -amount });
        postings.push(Posting { account: AccountRef::Child(order.to.clone()), delta: amount });
        assert(postings@ =~= direct_legs(*order));
        OrderPlan::Append(
            self.next_entry(
                now,
                EntryBody::Transfer {
                    payment_id: order.hash,
                    amount: order.amount,
                    role: HopRole::Direct,
                },
                postings,
                Some(*auth),
            ),
        )
    }

    /// The appended entry is the next one of the log.
    pub open spec fn is_next(state: ServiceState, signed: SignedEntry) -> bool {
        signed.entry.seq == state.entries.len() && signed.hash is Some
    }

    /// Take note of an entry that was appended to the log.
    pub fn note_appended(&mut self, signed: SignedEntry)
        requires
            old(self).wf(),
            Self::is_next(old(self)@, signed),
        ensures
            final(self).wf(),
            final(self)@.node_id == old(self)@.node_id,
            final(self)@.key == old(self)@.key,
            final(self)@.entries == old(self)@.entries.push(signed),
            final(self)@.consumed == (match signed.entry.body {
                EntryBody::Transfer { payment_id, amount, role } => if old(self)@.consumed.contains_key(payment_id) {
                    old(self)@.consumed
                } else {
                    old(self)@.consumed.insert(payment_id, (signed.entry.seq, signed.hash->0))
                },
                _ => old(self)@.consumed,
            }),
    {
        let ghost before = *self;
        match &signed.entry.body {
            EntryBody::Transfer { payment_id, amount: _, role: _ } => {
                match signed.hash {
                    Some(hash) => {
                        self.consumed.note(*payment_id, signed.entry.seq, hash);
                    },
                    None => {},
                }
            },
            _ => {},
        }
        self.entries.push(signed);
        let n: usize = self.entries.len();
        assert(n == self.entries@.len());
        proof {
            let after = before.entries@.push(signed);
            assert(after.drop_last() =~= before.entries@);
            assert(after.last() == signed);
            assert forall|i: int| 0 <= i < after.len() implies (
            #[trigger] after[i]).hash is Some by {
                if i < before.entries@.len() {
                    assert(after[i] == before@.entries[i]);
                }
            }
        }
    }

    /// Conclude an order whose entry was to be appended. On any refusal the log
    /// and the replay guard stay as they are.
    pub fn complete_order(&mut self, order: &PaymentOrder, result: AppendResult) -> (r: ApplyOutcome)
        requires
            old(self).wf(),
            !old(self)@.consumed.contains_key(order.hash),
            result matches AppendResult::Appended(signed) ==> Self::is_next(old(self)@, signed)
                && signed.entry.body == direct_body(*order),
        ensures
            final(self).wf(),
            completes(old(self)@, *order, result, final(self)@, r),
    {
        match result {
            AppendResult::SignFailed => ApplyOutcome::rejected(OrderRejectV1::Internal),
            AppendResult::RegistryFailed => ApplyOutcome::rejected(OrderRejectV1::Internal),
            AppendResult::HashFailed => ApplyOutcome::rejected(OrderRejectV1::Internal),
            AppendResult::VerifyFailed(e) => ApplyOutcome::rejected(reject_reason(&e)),
            AppendResult::AppendFailed(e) => ApplyOutcome::rejected(reject_reason(&e)),
            AppendResult::Appended(signed) => {
                let outcome: ApplyOutcome = ApplyOutcome {
                    status: OrderStatusV1::Applied,
                    entry_seq: Some(signed.entry.seq),
                    entry_hash: signed.hash,
                    reason: None,
                };
                self.note_appended(signed);
                outcome
            },
        }
    }
}

proof fn lemma_hashed_is_consumable(entries: Seq<SignedEntry>)
    requires
        forall|i: int| 0 <= i < entries.len() ==> (#[trigger] entries[i]).hash is Some,
    ensures
        consumed_of(entries) is Some,
    decreases entries.len(),
{
    if entries.len() > 0 {
        let init = entries.drop_last();
        assert forall|i: int| 0 <= i < init.len() implies (#[trigger] init[i]).hash is Some by {
            assert(init[i] == entries[i]);
        }
        lemma_hashed_is_consumable(init);
        assert(entries[entries.len() - 1].hash is Some);
    }
}

/// An order is applied at most once. Once its payment is in the replay guard,
/// every later attempt that passes the preflight is a duplicate that names the
/// same entry, and no entry is planned for it.
pub proof fn law_order_applies_once(
    state: ServiceState,
    order: PaymentOrder,
    sender: Seq<char>,
    record: NodeRecord,
)
    requires
        state.consumed.contains_key(order.hash),
    ensures
        ({
            let outcome = order_check(state, order, sender, record);
            &&& outcome is Some
            &&& outcome->0.status == OrderStatusV1::Duplicate ==> outcome->0.entry_seq == Some(
                state.consumed[order.hash].0,
            ) && outcome->0.entry_hash == Some(state.consumed[order.hash].1)
            &&& outcome->0.status != OrderStatusV1::Applied
        }),
{
}

/// A refused order leaves no trace: the log, with it every balance, and the
/// replay guard are as before, so the order can be submitted again.
pub proof fn law_refused_order_leaves_no_trace(
    pre: ServiceState,
    order: PaymentOrder,
    result: AppendResult,
    post: ServiceState,
    outcome: ApplyOutcome,
)
    requires
        completes(pre, order, result, post, outcome),
        !pre.consumed.contains_key(order.hash),
        outcome.status == OrderStatusV1::Rejected,
    ensures
        post == pre,
        !post.consumed.contains_key(order.hash),
{
}

proof fn lemma_guard_grows(entries: Seq<SignedEntry>, k: int, id: Digest)
    requires
        0 <= k <= entries.len(),
        consumed_of(entries) is Some,
        consumed_of(entries.take(k)) is Some,
        consumed_of(entries.take(k))->0.contains_key(id),
    ensures
        consumed_of(entries)->0.contains_key(id),
        consumed_of(entries)->0[id] == consumed_of(entries.take(k))->0[id],
    decreases entries.len() - k,
{
    if k == entries.len() {
        assert(entries.take(k) =~= entries);
    } else {
        assert(entries.take(k + 1).drop_last() =~= entries.take(k));
        if consumed_of(entries.take(k + 1)) is None {
            lemma_consumed_none(entries, k + 1);
        }
        lemma_guard_grows(entries, k + 1, id);
    }
}

/// An order that was applied is a duplicate ever after: with whatever was
/// appended since, by this service or another one on the same log, before or
/// after a reopening, and whether or not the order has expired, a submission by
/// its payer names the entry that applied it, and nothing is planned for it.
pub proof fn law_applied_order_stays_applied(
    pre: ServiceState,
    order: PaymentOrder,
    signed: SignedEntry,
    post: ServiceState,
    outcome: ApplyOutcome,
    later: ServiceState,
    record: NodeRecord,
)
    requires
        completes(pre, order, AppendResult::Appended(signed), post, outcome),
        consumed_of(post.entries) == Some(post.consumed),
        consumed_of(later.entries) == Some(later.consumed),
        post.entries.len() <= later.entries.len(),
        later.entries.take(post.entries.len() as int) == post.entries,
        signed.hash is Some,
        order.from@ != order.to@,
        order.amount > 0,
        spec_child_kind(record.children@, order.from@) == Some(ChildKind::User),
        spec_child_kind(record.children@, order.to@) == Some(ChildKind::User),
    ensures
        order_check(later, order, order.from@, record) == Some(
            ApplyOutcome {
                status: OrderStatusV1::Duplicate,
                entry_seq: outcome.entry_seq,
                entry_hash: outcome.entry_hash,
                reason: None,
            },
        ),
{
    lemma_guard_grows(later.entries, post.entries.len() as int, order.hash);
}

/// The replay guard survives a restart: it is a function of the log.
pub proof fn law_guard_survives_reopen(a: LedgerService, b: LedgerService)
    requires
        a.wf(),
        b.wf(),
        a@.entries == b@.entries,
    ensures
        a@.consumed == b@.consumed,
{
}

/// Every transfer in the log is in the replay guard.
pub proof fn law_logged_transfer_is_consumed(entries: Seq<SignedEntry>, i: int)
    requires
        0 <= i < entries.len(),
        consumed_of(entries) is Some,
        entries[i].entry.body is Transfer,
    ensures
        consumed_of(entries)->0.contains_key(entries[i].entry.body->payment_id),
    decreases entries.len(),
{
    if i < entries.len() - 1 {
        law_logged_transfer_is_consumed(entries.drop_last(), i);
    }
}

/// A direct transfer conserves value: its two legs cancel.
pub proof fn law_direct_transfer_conserves(order: PaymentOrder)
    requires
        order.amount <= i64::MAX,
    ensures
        direct_legs(order)[0].delta + direct_legs(order)[1].delta == 0,
        direct_legs(order)[1].delta == order.amount,
{
}

/// An order that is to be applied moves its amount from its payer to its payee
/// and to nobody else: the entry has two legs, the payer's account goes down by
/// the ordered amount, the payee's goes up by it. The entry names the order, its
/// authorisation and the time, and is the next one of this ledger.
pub proof fn law_order_moves_value_from_payer_to_payee(
    service: LedgerService,
    order: PaymentOrder,
    auth: AuthRef,
    sender: String,
    record: NodeRecord,
    now: u64,
    entry: Entry,
)
    requires
        service.wf(),
        call_ensures(
            LedgerService::apply_order,
            (&service, &order, &auth, &sender, &record, now),
            OrderPlan::Append(entry),
        ),
    ensures
        sender@ == order.from@,
        order.from@ != order.to@,
        0 < order.amount <= i64::MAX,
        !service@.consumed.contains_key(order.hash),
        entry.postings@.len() == 2,
        entry.postings@[0].account == AccountRef::Child(order.from),
        entry.postings@[0].delta == -order.amount,
        entry.postings@[1].account == AccountRef::Child(order.to),
        entry.postings@[1].delta == order.amount,
        entry.body matches EntryBody::Transfer { payment_id, amount, role } && payment_id
            == order.hash && amount == order.amount && role == HopRole::Direct,
        entry.auth == Some(auth),
        entry.issued_at == now,
        entry.ledger_id == service@.key,
        entry.seq == service@.entries.len(),
        entry.height == entry.seq,
        service@.entries.len() > 0 ==> service@.entries.last().hash == Some(entry.prev_hash),
        service@.entries.len() == 0 ==> wire::is_zero(entry.prev_hash),
{
}

/// An order is refused or found known before the ledger is touched exactly for
/// one of these: it is not its payer's own, it pays its payer or nothing, an end
/// is not listed here as a user, it was applied before, or it is out of range.
pub proof fn law_orders_are_refused_for_cause(
    service: LedgerService,
    order: PaymentOrder,
    auth: AuthRef,
    sender: String,
    record: NodeRecord,
    now: u64,
    from: int,
    to: int,
    r: OrderPlan,
)
    requires
        service.wf(),
        call_ensures(
            LedgerService::apply_order,
            (&service, &order, &auth, &sender, &record, now),
            r,
        ),
        forall|i: int, j: int|
            0 <= i < j < record.children@.len() ==> (#[trigger] record.children@[i]).child_id@ != (
            #[trigger] record.children@[j]).child_id@,
        0 <= from < record.children@.len(),
        0 <= to < record.children@.len(),
        record.children@[from].child_id@ == order.from@,
        record.children@[to].child_id@ == order.to@,
    ensures
        order.from@ != sender@ || order.from@ == order.to@ || order.amount == 0 ==> r
            == OrderPlan::Settled(
            ApplyOutcome {
                status: OrderStatusV1::Rejected,
                entry_seq: None,
                entry_hash: None,
                reason: Some(OrderRejectV1::BadRequest),
            },
        ),
        order.from@ == sender@ && order.from@ != order.to@ && order.amount > 0 && (
        record.children@[from].kind == ChildKind::Node || record.children@[to].kind
            == ChildKind::Node) ==> r == OrderPlan::Settled(
            ApplyOutcome {
                status: OrderStatusV1::Rejected,
                entry_seq: None,
                entry_hash: None,
                reason: Some(OrderRejectV1::NotAChild),
            },
        ),
        order.from@ == sender@ && order.from@ != order.to@ && 0 < order.amount <= i64::MAX
            && record.children@[from].kind == ChildKind::User && record.children@[to].kind
            == ChildKind::User ==> (r is Append <==> !service@.consumed.contains_key(order.hash)),
{
    lemma_kind_of_child(record.children@, from);
    lemma_kind_of_child(record.children@, to);
}

proof fn lemma_kind_of_child(children: Seq<ChildEntry>, k: int)
    requires
        0 <= k < children.len(),
        forall|i: int, j: int|
            0 <= i < j < children.len() ==> (#[trigger] children[i]).child_id@ != (
            #[trigger] children[j]).child_id@,
    ensures
        spec_child_kind(children, children[k].child_id@) == Some(children[k].kind),
{
    assert forall|i: int| 0 <= i < k implies (#[trigger] children[i]).child_id@
        != children[k].child_id@ by {}
    lemma_child_kind(children, children[k].child_id@, k);
}

/// An order with an end that is not listed here is refused for that, unless it
/// is malformed.
pub proof fn law_strangers_are_no_children(
    service: LedgerService,
    order: PaymentOrder,
    auth: AuthRef,
    sender: String,
    record: NodeRecord,
    now: u64,
    r: OrderPlan,
)
    requires
        service.wf(),
        call_ensures(
            LedgerService::apply_order,
            (&service, &order, &auth, &sender, &record, now),
            r,
        ),
        order.from@ == sender@,
        order.from@ != order.to@,
        order.amount > 0,
        (forall|i: int|
            0 <= i < record.children@.len() ==> (#[trigger] record.children@[i]).child_id@
                != order.from@) || (forall|i: int|
            0 <= i < record.children@.len() ==> (#[trigger] record.children@[i]).child_id@
                != order.to@),
    ensures
        r matches OrderPlan::Settled(outcome) && outcome.status == OrderStatusV1::Rejected
            && outcome.reason == Some(OrderRejectV1::NotAChild) && outcome.entry_seq is None
            && outcome.entry_hash is None,
{
    let children = record.children@;
    if forall|i: int| 0 <= i < children.len() ==> (#[trigger] children[i]).child_id@ != order.from@ {
        lemma_child_kind(children, order.from@, children.len() as int);
    } else {
        lemma_child_kind(children, order.to@, children.len() as int);
    }
}

/// The replay guard of a log holds, for every payment that was transferred, the
/// place and the hash of its first entry, and nothing else.
pub proof fn law_guard_names_the_first_entry(
    entries: Vec<SignedEntry>,
    index: ConsumedIndex,
    i: int,
    id: Digest,
)
    requires
        call_ensures(rebuild_consumed, (&entries,), Some(index)),
    ensures
        0 <= i < entries@.len() && (entries@[i].entry.body matches EntryBody::Transfer {
            payment_id,
            amount,
            role,
        } && payment_id == id) && (forall|j: int|
            0 <= j < i ==> !((#[trigger] entries@[j]).entry.body matches EntryBody::Transfer {
                payment_id,
                amount,
                role,
            } && payment_id == id)) ==> index@.contains_key(id) && entries@[i].hash is Some
            && index@[id] == (entries@[i].entry.seq, entries@[i].hash->0),
        (forall|j: int|
            0 <= j < entries@.len() ==> !((
            #[trigger] entries@[j]).entry.body matches EntryBody::Transfer {
                payment_id,
                amount,
                role,
            } && payment_id == id)) ==> !index@.contains_key(id),
{
    lemma_first_entry_of(entries@, i, id);
}

proof fn lemma_first_entry_of(entries: Seq<SignedEntry>, i: int, id: Digest)
    requires
        consumed_of(entries) is Some,
    ensures
        0 <= i < entries.len() && (entries[i].entry.body matches EntryBody::Transfer {
            payment_id,
            amount,
            role,
        } && payment_id == id) && (forall|j: int|
            0 <= j < i ==> !((#[trigger] entries[j]).entry.body matches EntryBody::Transfer {
                payment_id,
                amount,
                role,
            } && payment_id == id)) ==> consumed_of(entries)->0.contains_key(id) && entries[i].hash
            is Some && consumed_of(entries)->0[id] == (entries[i].entry.seq, entries[i].hash->0),
        (forall|j: int|
            0 <= j < entries.len() ==> !((
            #[trigger] entries[j]).entry.body matches EntryBody::Transfer {
                payment_id,
                amount,
                role,
            } && payment_id == id)) ==> !consumed_of(entries)->0.contains_key(id),
    decreases entries.len(),
{
    if entries.len() > 0 {
        let init = entries.drop_last();
        lemma_first_entry_of(init, i, id);
        assert forall|j: int| 0 <= j < init.len() implies #[trigger] init[j] == entries[j] by {}
        assert(entries.last() == entries[entries.len() - 1]);
        if i == entries.len() - 1 {
            assert(forall|j: int| 0 <= j < init.len() ==> init[j] == entries[j]);
        }
    }
}

proof fn lemma_touching_splits(before: Seq<SignedEntry>, after: Seq<SignedEntry>, user: Seq<char>)
    ensures
        touching(before + after, user) == touching(before, user) + touching(after, user),
    decreases after.len(),
{
    if after.len() == 0 {
        assert(before + after =~= before);
        assert(touching(before, user) + touching(after, user) =~= touching(before, user));
    } else {
        let init = after.drop_last();
        lemma_touching_splits(before, init, user);
        assert((before + after).drop_last() =~= before + init);
        assert((before + after).last() == after.last());
        assert(touching(before + after, user) =~= touching(before, user) + touching(after, user));
    }
}

proof fn lemma_direct_legs_have_ends(order: PaymentOrder)
    requires
        0 < order.amount <= i64::MAX,
    ensures
        are_endpoints(direct_legs(order), order.from, order.to),
{
    let legs = direct_legs(order);
    assert(moves_child(legs, 0, true));
    assert(moves_child(legs, 1, false));
    assert(only_move(legs, 0, true));
    assert(only_move(legs, 1, false));
}

/// What an order did is in the history of its payer and of its payee alike. As
/// long as fewer than `cap` later entries concern that user, one notice names the
/// order by its hash, its entry by the place and the hash that the sender of the
/// order was told, and who paid whom how much, and when.
pub proof fn law_applied_order_is_in_both_histories(
    service: LedgerService,
    order: PaymentOrder,
    auth: AuthRef,
    sender: String,
    record: NodeRecord,
    now: u64,
    signed: SignedEntry,
    post: ServiceState,
    outcome: ApplyOutcome,
    later: Seq<SignedEntry>,
    entries: Vec<SignedEntry>,
    user: String,
    cap: usize,
    notices: Vec<ValueNoticeV1>,
) -> (k: int)
    requires
        service.wf(),
        call_ensures(
            LedgerService::apply_order,
            (&service, &order, &auth, &sender, &record, now),
            OrderPlan::Append(signed.entry),
        ),
        completes(service@, order, AppendResult::Appended(signed), post, outcome),
        entries@ == post.entries + later,
        user@ == order.from@ || user@ == order.to@,
        touching(later, user@).len() < cap,
        call_ensures(receipt_history, (&entries, &user, cap), Some(notices)),
    ensures
        0 <= k < notices@.len(),
        notices@[k].payment_id == order.hash,
        Some(notices@[k].entry_seq) == outcome.entry_seq,
        Some(notices@[k].entry_hash) == outcome.entry_hash,
        notices@[k].from == order.from,
        notices@[k].to == order.to,
        notices@[k].amount == order.amount,
        notices@[k].role == HopRole::Direct,
        notices@[k].issued_at == now,
{
    let entry = signed.entry;
    lemma_direct_legs_have_ends(order);
    assert(entry.postings@ == direct_legs(order));
    assert(touches(entry, user@));
    let before = service@.entries;
    assert(post.entries =~= before + seq![signed]);
    lemma_touching_splits(before, seq![signed], user@);
    lemma_touching_splits(post.entries, later, user@);
    assert(seq![signed].drop_last() =~= Seq::<SignedEntry>::empty());
    assert(touching(seq![signed].drop_last(), user@) =~= Seq::<SignedEntry>::empty());
    assert(touching(seq![signed], user@) =~= seq![signed]);
    let head = touching(before, user@);
    let tail = touching(later, user@);
    let all = touching(entries@, user@);
    assert(all =~= head + seq![signed] + tail);
    let at = head.len() as int;
    assert(all[at] == signed);
    let skipped = if all.len() <= cap {
        0
    } else {
        all.len() - cap
    };
    let k = at - skipped;
    assert(describes(notices@[k], signed));
    lemma_endpoints_unique(
        entry.postings@,
        notices@[k].from,
        notices@[k].to,
        order.from,
        order.to,
    );
    k
}

/// A history holds nothing but direct transfers of its user, at most `cap` of
/// them, each as it stands in the log: with its own place, hash, payment and
/// amount, the debited child as payer and the credited one as payee.
pub proof fn law_history_is_the_users_own(
    entries: Vec<SignedEntry>,
    user: String,
    cap: usize,
    notices: Vec<ValueNoticeV1>,
    k: int,
) -> (i: int)
    requires
        call_ensures(receipt_history, (&entries, &user, cap), Some(notices)),
        0 <= k < notices@.len(),
    ensures
        notices@.len() <= cap,
        0 <= i < entries@.len(),
        ({
            let one = notices@[k];
            let signed = entries@[i];
            &&& one.from@ == user@ || one.to@ == user@
            &&& one.entry_seq == signed.entry.seq
            &&& signed.hash == Some(one.entry_hash)
            &&& one.issued_at == signed.entry.issued_at
            &&& one.role == HopRole::Direct
            &&& signed.entry.body matches EntryBody::Transfer { payment_id, amount, role }
            &&& payment_id == one.payment_id
            &&& amount == one.amount
            &&& role == HopRole::Direct
            &&& exists|d: int|
                #![trigger signed.entry.postings@[d]]
                0 <= d < signed.entry.postings@.len() && signed.entry.postings@[d].delta < 0
                    && signed.entry.postings@[d].account == AccountRef::Child(one.from)
            &&& exists|c: int|
                #![trigger signed.entry.postings@[c]]
                0 <= c < signed.entry.postings@.len() && signed.entry.postings@[c].delta > 0
                    && signed.entry.postings@[c].account == AccountRef::Child(one.to)
        }),
{
    let all = touching(entries@, user@);
    let at = if all.len() <= cap {
        k
    } else {
        k + (all.len() - cap)
    };
    assert(describes(notices@[k], all[at]));
    let i = lemma_touching_from_log(entries@, user@, at);
    let one = notices@[k];
    let legs = entries@[i].entry.postings@;
    let (f, t) = choose|f: String, t: String| #[trigger]
        are_endpoints(legs, f, t) && (f@ == user@ || t@ == user@);
    lemma_endpoints_unique(legs, one.from, one.to, f, t);
    let (d, c) = choose|d: int, c: int|
        #![trigger only_move(legs, d, true), only_move(legs, c, false)]
        only_move(legs, d, true) && only_move(legs, c, false) && legs[d].account
            == AccountRef::Child(one.from) && legs[c].account == AccountRef::Child(one.to);
    assert(legs[d].delta < 0);
    assert(legs[c].delta > 0);
    i
}

proof fn lemma_touching_from_log(entries: Seq<SignedEntry>, user: Seq<char>, at: int) -> (i: int)
    requires
        0 <= at < touching(entries, user).len(),
    ensures
        0 <= i < entries.len(),
        entries[i] == touching(entries, user)[at],
        touches(entries[i].entry, user),
        at <= i,
    decreases entries.len(),
{
    let init = entries.drop_last();
    if at < touching(init, user).len() {
        let i = lemma_touching_from_log(init, user, at);
        assert(init[i] == entries[i]);
        i
    } else {
        lemma_touching_bound(init, user);
        entries.len() - 1
    }
}

proof fn lemma_touching_bound(entries: Seq<SignedEntry>, user: Seq<char>)
    ensures
        touching(entries, user).len() <= entries.len(),
    decreases entries.len(),
{
    if entries.len() > 0 {
        lemma_touching_bound(entries.drop_last(), user);
    }
}

/// In a log that numbers its entries, a history runs from the oldest payment to
/// the newest.
pub proof fn law_history_is_oldest_first(
    entries: Vec<SignedEntry>,
    user: String,
    cap: usize,
    notices: Vec<ValueNoticeV1>,
    a: int,
    b: int,
)
    requires
        forall|i: int|
            0 <= i < entries@.len() ==> (#[trigger] entries@[i]).entry.seq == i,
        call_ensures(receipt_history, (&entries, &user, cap), Some(notices)),
        0 <= a < b < notices@.len(),
    ensures
        notices@[a].entry_seq < notices@[b].entry_seq,
{
    let all = touching(entries@, user@);
    let shift = if all.len() <= cap {
        0
    } else {
        all.len() - cap
    };
    assert(describes(notices@[a], all[a + shift]));
    assert(describes(notices@[b], all[b + shift]));
    lemma_touching_is_ordered(entries@, user@, a + shift, b + shift);
}

proof fn lemma_touching_is_ordered(entries: Seq<SignedEntry>, user: Seq<char>, a: int, b: int)
    requires
        forall|i: int| 0 <= i < entries.len() ==> (#[trigger] entries[i]).entry.seq == i,
        0 <= a < b < touching(entries, user).len(),
    ensures
        touching(entries, user)[a].entry.seq < touching(entries, user)[b].entry.seq,
    decreases entries.len(),
{
    let init = entries.drop_last();
    assert forall|i: int| 0 <= i < init.len() implies (#[trigger] init[i]).entry.seq == i by {
        assert(init[i] == entries[i]);
    }
    if b < touching(init, user).len() {
        lemma_touching_is_ordered(init, user, a, b);
    } else {
        let i = lemma_touching_from_log(init, user, a);
        assert(init[i] == entries[i]);
        assert(entries.last() == entries[entries.len() - 1]);
    }
}

/// Issued value goes to the account it was asked for, by the amount that was
/// asked for, in one leg; the request is this node's, holds for an hour and for
/// more than nothing.
pub proof fn law_issue_credits_the_account(
    service: LedgerService,
    to: String,
    amount: u64,
    nonce: u64,
    now: u64,
    request: IssueRequest,
    auth: AuthRef,
    later: u64,
    entry: Entry,
)
    requires
        service.wf(),
        call_ensures(LedgerService::fund, (&service, &to, amount, nonce, now), Ok(request)),
        call_ensures(LedgerService::fund_entry, (&service, &request, auth, later), Ok(entry)),
    ensures
        0 < amount <= i64::MAX,
        request.node@ == service@.node_id,
        request.nonce == nonce,
        now + 3600 <= u64::MAX ==> request.expiry == now + 3600,
        request.expiry >= now,
        entry.postings@.len() == 1,
        entry.postings@[0].account == AccountRef::Child(to),
        entry.postings@[0].delta == amount,
        entry.body matches EntryBody::Issue { child, amount: issued } && child == to && issued
            == amount,
        entry.auth == Some(auth),
        entry.issued_at == later,
        entry.ledger_id == service@.key,
        entry.seq == service@.entries.len(),
        entry.height == entry.seq,
        service@.entries.len() > 0 ==> service@.entries.last().hash == Some(entry.prev_hash),
{
}

/// An account is opened once: an open account calls for no entry, any other for
/// one that names the child and its kind and moves nothing.
pub proof fn law_accounts_open_once(
    service: LedgerService,
    is_open: bool,
    child: String,
    kind: ChildKind,
    now: u64,
    r: Option<Entry>,
)
    requires
        service.wf(),
        call_ensures(
            LedgerService::ensure_account_open,
            (&service, is_open, &child, kind, now),
            r,
        ),
    ensures
        is_open ==> r is None,
        !is_open ==> (r matches Some(entry) && entry.postings@.len() == 0 && entry.seq
            == service@.entries.len() && entry.ledger_id == service@.key && (
        entry.body matches EntryBody::OpenAccount { child: opened, kind: stated } && opened == child
            && stated == kind)),
{
}

/// The row that a node adds for itself is a row that it later finds agreeing; a
/// row with another key or as a user contradicts it.
pub proof fn law_own_row_agrees_with_itself(
    node_id: String,
    operator: OperatorPubKey,
    ledger: LedgerPubKey,
    added: PeerKeys,
    again: SelfRow,
    other: PeerKeys,
    verdict: SelfRow,
)
    requires
        call_ensures(
            self_row,
            (None::<&PeerKeys>, &node_id, &operator, &ledger),
            SelfRow::Add(added),
        ),
        call_ensures(self_row, (Some(&added), &node_id, &operator, &ledger), again),
        other.operator != operator || other.ledger != Some(ledger) || other.role == PeerRole::User,
        call_ensures(self_row, (Some(&other), &node_id, &operator, &ledger), verdict),
    ensures
        added.node_id == node_id,
        again == SelfRow::Present,
        verdict == SelfRow::Mismatch,
{
}

/// A child's kind is that of its first row, and only a user child has receipts.
pub proof fn law_kind_is_that_of_the_row(
    record: NodeRecord,
    id: String,
    kind: Option<ChildKind>,
    may: bool,
    k: int,
)
    requires
        call_ensures(child_kind, (&record, &id), kind),
        call_ensures(may_have_receipt, (&record, &id), may),
    ensures
        0 <= k < record.children@.len() && record.children@[k].child_id@ == id@ && (forall|j: int|
            0 <= j < k ==> (#[trigger] record.children@[j]).child_id@ != id@) ==> kind == Some(
            record.children@[k].kind,
        ),
        (forall|j: int|
            0 <= j < record.children@.len() ==> (#[trigger] record.children@[j]).child_id@ != id@)
            ==> kind is None,
        may <==> kind == Some(ChildKind::User),
{
    let children = record.children@;
    if 0 <= k < children.len() && children[k].child_id@ == id@ && (forall|j: int|
        0 <= j < k ==> (#[trigger] children[j]).child_id@ != id@) {
        lemma_child_kind(children, id@, k);
    }
    if forall|j: int| 0 <= j < children.len() ==> (#[trigger] children[j]).child_id@ != id@ {
        lemma_child_kind(children, id@, children.len() as int);
    }
}

/// A ledger's refusal keeps what the payer can do about it: the balance, the account
/// and the time have reasons of their own, a signature or an authority that is
/// missing is unauthorised, an entry that does not fit is a bad request, and what is
/// left is internal.
pub proof fn law_ledger_refusals_keep_their_cause(err: LedgerError, r: OrderRejectV1)
    requires
        call_ensures(reject_reason, (&err,), r),
    ensures
        r is InsufficientBalance <==> err is InsufficientBalance,
        r is AccountNotOpened <==> err is AccountNotOpened,
        r is Expired <==> err is OrderExpired,
        r is BadRequest <==> err is OrderMismatch || err is InvalidEntryShape,
        r is Unauthorized <==> err is Unauthorized || err is MissingAuthorization || err
            is InvalidSignature,
        r is InsufficientBalance || r is AccountNotOpened || r is Expired || r is BadRequest || r
            is Unauthorized || r is Internal,
{
}

/// An entry that moves value from one child to one other has them as its ends: the
/// one that loses is the payer, the one that gains the payee. Where two children
/// lose, or two gain, there are no such ends.
pub proof fn law_ends_are_who_loses_and_who_gains(
    postings: Vec<Posting>,
    r: Option<(String, String)>,
    i: int,
    j: int,
)
    requires
        call_ensures(direct_endpoints, (&postings,), r),
    ensures
        r matches Some(ends) ==> {
            &&& 0 <= i < postings@.len() && postings@[i].account is Child && postings@[i].delta < 0
                ==> postings@[i].account == AccountRef::Child(ends.0)
            &&& 0 <= i < postings@.len() && postings@[i].account is Child && postings@[i].delta > 0
                ==> postings@[i].account == AccountRef::Child(ends.1)
            &&& exists|d: int, c: int| #![trigger postings@[d], postings@[c]]
                0 <= d < postings@.len() && 0 <= c < postings@.len() && postings@[d].delta < 0
                    && postings@[c].delta > 0 && postings@[d].account == AccountRef::Child(ends.0)
                    && postings@[c].account == AccountRef::Child(ends.1)
        },
        0 <= i < j < postings@.len() && postings@[i].account is Child && postings@[j].account
            is Child && ((postings@[i].delta < 0 && postings@[j].delta < 0) || (postings@[i].delta
            > 0 && postings@[j].delta > 0)) ==> r is None,
{
    let all = postings@;
    if r is Some {
        let ends = r->0;
        let from = ends.0;
        let to = ends.1;
        let (d, c) = choose|d: int, c: int|
            #![trigger only_move(all, d, true), only_move(all, c, false)]
            only_move(all, d, true) && only_move(all, c, false) && all[d].account
                == AccountRef::Child(from) && all[c].account == AccountRef::Child(to);
        assert(moves_child(all, d, true) && moves_child(all, c, false));
        assert(all[d].delta < 0 && all[c].delta > 0);
        assert(moves_child(all, i, true) ==> i == d);
        assert(moves_child(all, i, false) ==> i == c);
        assert(moves_child(all, j, true) ==> j == d);
        assert(moves_child(all, j, false) ==> j == c);
    }
}

/// An order that was appended is told with its entry's place and hash, and known as
/// consumed from then on under both; one that was not is rejected for its reason,
/// and the ledger stays as it was.
pub proof fn law_appended_order_is_told_with_its_entry(
    service: &mut LedgerService,
    order: PaymentOrder,
    result: AppendResult,
    r: ApplyOutcome,
)
    requires
        call_ensures(LedgerService::complete_order, (service, &order, result), r),
    ensures
        ({
            let pre = old(service)@;
            let post = final(service)@;
            &&& r.status == OrderStatusV1::Applied <==> result is Appended
            &&& r.status == OrderStatusV1::Rejected <==> !(result is Appended)
            &&& result matches AppendResult::Appended(signed) ==> {
                &&& r.entry_seq == Some(signed.entry.seq)
                &&& r.entry_hash == signed.hash
                &&& r.reason is None
                &&& post.entries.last() == signed
                &&& post.entries.drop_last() =~= pre.entries
                &&& post.consumed.contains_key(order.hash)
                &&& post.consumed[order.hash].0 == signed.entry.seq
                &&& signed.hash is Some ==> signed.hash == Some(post.consumed[order.hash].1)
                &&& post.consumed.remove(order.hash) =~= pre.consumed.remove(order.hash)
            }
            &&& !(result is Appended) ==> post == pre && r.entry_seq is None && r.entry_hash is None
                && r.reason is Some
            &&& result is SignFailed || result is RegistryFailed || result is HashFailed ==> r.reason
                == Some(OrderRejectV1::Internal)
            &&& result == AppendResult::VerifyFailed(LedgerError::InsufficientBalance) ==> r.reason
                == Some(OrderRejectV1::InsufficientBalance)
            &&& result == AppendResult::AppendFailed(LedgerError::InsufficientBalance) ==> r.reason
                == Some(OrderRejectV1::InsufficientBalance)
        }),
{
    let pre = old(service)@;
    let post = final(service)@;
    match result {
        AppendResult::Appended(signed) => {
            assert(post.entries.drop_last() =~= pre.entries);
            assert(post.consumed.remove(order.hash) =~= pre.consumed.remove(order.hash));
        },
        _ => {},
    }
}

/// A payment is consumed once, by its first entry, and an entry that is no payment
/// consumes nothing.
pub proof fn law_payments_are_consumed_once(
    service: &mut LedgerService,
    signed: SignedEntry,
    id: Digest,
)
    requires
        call_ensures(LedgerService::note_appended, (service, signed), ()),
    ensures
        ({
            let pre = old(service)@;
            let post = final(service)@;
            let paid = signed.entry.body matches EntryBody::Transfer { payment_id, amount, role }
                && payment_id == id;
            &&& post.entries.len() == pre.entries.len() + 1
            &&& post.entries.last() == signed
            &&& post.node_id == pre.node_id
            &&& post.key == pre.key
            &&& pre.consumed.contains_key(id) ==> post.consumed.contains_key(id)
                && post.consumed[id] == pre.consumed[id]
            &&& !pre.consumed.contains_key(id) ==> (post.consumed.contains_key(id) <==> paid)
            &&& !pre.consumed.contains_key(id) && paid ==> post.consumed[id].0 == signed.entry.seq
        }),
{
}

/// An entry is found by its number, and nothing is found behind the last.
pub proof fn law_entries_are_found_by_number(
    service: LedgerService,
    seq: u64,
    r: Option<&SignedEntry>,
)
    requires
        call_ensures(LedgerService::entry_at, (&service, seq), r),
    ensures
        r is Some <==> seq < service@.entries.len(),
        r matches Some(signed) ==> *signed == service@.entries[seq as int],
{
}

/// A service opens on a log, and follows a newer one, exactly where every entry can
/// be hashed; it then holds that log, under its own id and key. Otherwise it does
/// not open, or stays as it was.
pub proof fn law_services_follow_hashed_logs(
    node_id: String,
    key: LedgerPubKey,
    entries: Vec<SignedEntry>,
    opened: Option<LedgerService>,
    service: &mut LedgerService,
    followed: bool,
    i: int,
)
    requires
        call_ensures(LedgerService::open, (node_id, key, entries), opened),
        call_ensures(LedgerService::refresh, (service, entries), followed),
    ensures
        0 <= i < entries@.len() && entries@[i].hash is None ==> opened is None && !followed,
        (forall|j: int| 0 <= j < entries@.len() ==> (#[trigger] entries@[j]).hash is Some)
            ==> opened is Some && followed,
        opened matches Some(fresh) ==> fresh@.node_id == node_id@ && fresh@.key == key
            && fresh@.entries == entries@,
        followed ==> final(service)@.entries == entries@,
        !followed ==> final(service)@.entries == old(service)@.entries,
        final(service)@.node_id == old(service)@.node_id,
        final(service)@.key == old(service)@.key,
{
    if opened is Some && 0 <= i < entries@.len() {
        assert(opened->0@.entries[i] == entries@[i]);
    }
}

/// A history can be told of every log whose entries are hashed.
pub proof fn law_hashed_logs_have_histories(
    entries: Vec<SignedEntry>,
    user: String,
    cap: usize,
    r: Option<Vec<ValueNoticeV1>>,
)
    requires
        call_ensures(receipt_history, (&entries, &user, cap), r),
        forall|j: int| 0 <= j < entries@.len() ==> (#[trigger] entries@[j]).hash is Some,
    ensures
        r is Some,
{
    let all = touching(entries@, user@);
    if r is None {
        let at = choose|i: int| 0 <= i < all.len() && (#[trigger] all[i]).hash is None;
        let i = lemma_touching_from_log(entries@, user@, at);
        assert(entries@[i].hash is Some);
    }
}

/// An entry by which exactly one child loses and exactly one gains has its ends.
pub proof fn law_one_loser_and_one_winner_are_the_ends(
    postings: Vec<Posting>,
    from: String,
    to: String,
    d: int,
    c: int,
    r: Option<(String, String)>,
)
    requires
        call_ensures(direct_endpoints, (&postings,), r),
        0 <= d < postings@.len(),
        0 <= c < postings@.len(),
        postings@[d].account == AccountRef::Child(from),
        postings@[d].delta < 0,
        postings@[c].account == AccountRef::Child(to),
        postings@[c].delta > 0,
        forall|j: int|
            0 <= j < postings@.len() && (#[trigger] postings@[j]).account is Child ==> (
            postings@[j].delta < 0 ==> j == d) && (postings@[j].delta > 0 ==> j == c),
    ensures
        r == Some((from, to)),
{
    let all = postings@;
    assert forall|j: int| #[trigger] moves_child(all, j, true) implies j == d by {}
    assert forall|j: int| #[trigger] moves_child(all, j, false) implies j == c by {}
    assert(moves_child(all, d, true) && moves_child(all, c, false));
    assert(only_move(all, d, true) && only_move(all, c, false));
    if r is Some {
        law_ends_are_who_loses_and_who_gains(postings, r, d, c);
        law_ends_are_who_loses_and_who_gains(postings, r, c, d);
    }
}

} // verus!
