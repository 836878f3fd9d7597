//! The plain values that nodes exchange and keep: keys, orders, ledger entries
//! and message envelopes.
//!
//! Hashes and signature checks are computed where the bytes are. A value that
//! has a hash carries it, and a signed value carries the keys under which its
//! signature was found valid.
use crate::addr::OctAddr;
use crate::record::ChildKind;
use crate::text;
use vstd::prelude::*;

verus! {

/// A 32-byte content hash.
pub type Digest = [u8; 32];

/// A ledger's public key.
pub type LedgerPubKey = [u8; 32];

/// An operator's public key.
pub type OperatorPubKey = [u8; 32];

/// A message id.
pub type MsgId = [u8; 16];

/// The hash before the first entry of a chain: all bytes zero.
pub open spec fn is_zero(hash: [u8; 32]) -> bool {
    forall|i: int| 0 <= i < 32 ==> (#[trigger] hash[i]) == 0
}

/// The hash before the first entry of a chain.
pub fn zero_hash() -> (r: Digest)
    ensures
        is_zero(r),
{
    [0u8; 32]
}

/// There is one zero hash.
pub proof fn lemma_zero_is_unique(a: [u8; 32], b: [u8; 32])
    requires
        is_zero(a),
        is_zero(b),
    ensures
        a == b,
{
    assert(a =~= b);
}

/// Whether all bytes are zero.
pub fn all_zero(bytes: &[u8; 32]) -> (r: bool)
    ensures
        r == is_zero(*bytes),
{
    let zero: [u8; 32] = zero_hash();
    let r: bool = text::same32(bytes, &zero);
    proof {
        if is_zero(*bytes) {
            lemma_zero_is_unique(*bytes, zero);
        }
    }
    r
}

/// What a registered peer is.
#[derive(Debug, Clone, Copy, PartialEq, Eq, Structural)]
pub enum PeerRole {
    /// A node with a ledger of its own.
    Node,
    /// A user without one.
    User,
}

/// A known peer's public identity and keys.
#[derive(Debug)]
pub struct PeerKeys {
    /// The peer's node id.
    pub node_id: String,
    /// Its operator key.
    pub operator: OperatorPubKey,
    /// Its ledger key; a user has none.
    pub ledger: Option<LedgerPubKey>,
    /// Node or user.
    pub role: PeerRole,
}

/// Whether two optional keys are equal.
pub fn same_key(a: &Option<[u8; 32]>, b: &Option<[u8; 32]>) -> (r: bool)
    ensures
        r == (*a == *b),
{
    match (a, b) {
        (Some(x), Some(y)) => text::same32(x, y),
        (None, None) => true,
        _ => false,
    }
}

/// Whether `key` is among `keys`.
pub fn holds_key(keys: &Vec<[u8; 32]>, key: &[u8; 32]) -> (r: bool)
    ensures
        r == keys@.contains(*key),
{
    let mut i: usize = 0;
    while i < keys.len()
        invariant
            i <= keys@.len(),
            forall|j: int| 0 <= j < i ==> keys@[j] != *key,
        decreases keys@.len() - i,
    {
        if text::same32(&keys[i], key) {
            return true;
        }
        i = i + 1;
    }
    false
}

impl PeerKeys {
    /// A copy of the row.
    pub fn copied(&self) -> (r: PeerKeys)
        ensures
            r == *self,
    {
        PeerKeys {
            node_id: self.node_id.clone(),
            operator: self.operator,
            ledger: self.ledger,
            role: self.role,
        }
    }

    /// The two rows hold the same values.
    pub open spec fn same_row(self, other: PeerKeys) -> bool {
        &&& self.node_id@ == other.node_id@
        &&& self.operator == other.operator
        &&& self.ledger == other.ledger
        &&& self.role == other.role
    }

    /// Whether two rows hold the same values.
    pub fn same(&self, other: &PeerKeys) -> (r: bool)
        ensures
            r == self.same_row(*other),
    {
        self.node_id == other.node_id && text::same32(&self.operator, &other.operator)
            && same_key(&self.ledger, &other.ledger) && self.role == other.role
    }
}

/// A payment order and its content hash.
#[derive(Debug)]
pub struct PaymentOrder {
    /// The payer.
    pub from: String,
    /// The payee.
    pub to: String,
    /// The amount to move.
    pub amount: u64,
    /// Distinguishes otherwise equal orders.
    pub nonce: u64,
    /// Unix seconds after which the order is void.
    pub expiry: u64,
    /// The order's content hash, which identifies the payment.
    pub hash: Digest,
}

impl PaymentOrder {
    /// A copy of the order.
    pub fn copied(&self) -> (r: PaymentOrder)
        ensures
            r == *self,
    {
        PaymentOrder {
            from: self.from.clone(),
            to: self.to.clone(),
            amount: self.amount,
            nonce: self.nonce,
            expiry: self.expiry,
            hash: self.hash,
        }
    }
}

/// An operator's authorisation of an order.
#[derive(Debug, Clone, Copy)]
pub struct AuthRef {
    /// The authorising operator.
    pub operator: OperatorPubKey,
    /// Nonce of the authorised request.
    pub nonce: u64,
    /// Digest of the authorised request.
    pub order_hash: Digest,
    /// The operator's signature.
    pub signature: [u8; 64],
}

/// The part a ledger plays in a payment.
#[derive(Debug, Clone, Copy, PartialEq, Eq, Structural)]
pub enum HopRole {
    /// Towards the common ancestor.
    Ascend,
    /// At the common ancestor.
    Lca,
    /// Away from the common ancestor.
    Descend,
    /// Both ends on one ledger.
    Direct,
}

/// An account of a ledger.
#[derive(Debug)]
pub enum AccountRef {
    /// The claim on the parent.
    Parent,
    /// The liability towards a child.
    Child(String),
}

impl AccountRef {
    /// A copy of the reference.
    pub fn copied(&self) -> (r: AccountRef)
        ensures
            r == *self,
    {
        match self {
            AccountRef::Parent => AccountRef::Parent,
            AccountRef::Child(id) => AccountRef::Child(id.clone()),
        }
    }

    /// The references name the same account.
    pub open spec fn same_account(self, other: AccountRef) -> bool {
        match (self, other) {
            (AccountRef::Parent, AccountRef::Parent) => true,
            (AccountRef::Child(a), AccountRef::Child(b)) => a@ == b@,
            _ => false,
        }
    }

    /// Whether the references name the same account.
    pub fn same(&self, other: &AccountRef) -> (r: bool)
        ensures
            r == self.same_account(*other),
    {
        match (self, other) {
            (AccountRef::Parent, AccountRef::Parent) => true,
            (AccountRef::Child(a), AccountRef::Child(b)) => *a == *b,
            _ => false,
        }
    }
}

/// One leg of an entry.
#[derive(Debug)]
pub struct Posting {
    /// The account.
    pub account: AccountRef,
    /// The signed change of its balance.
    pub delta: i64,
}

impl Posting {
    /// A copy of the leg.
    pub fn copied(&self) -> (r: Posting)
        ensures
            r == *self,
    {
        Posting { account: self.account.copied(), delta: self.delta }
    }
}

/// What an entry records.
#[derive(Debug)]
pub enum EntryBody {
    /// A child's account is opened.
    OpenAccount {
        /// The child.
        child: String,
        /// Node or user.
        kind: ChildKind,
    },
    /// Value is issued into a child's account.
    Issue {
        /// The child.
        child: String,
        /// How much.
        amount: u64,
    },
    /// Value moves as part of a payment.
    Transfer {
        /// Digest of the order.
        payment_id: Digest,
        /// How much.
        amount: u64,
        /// The part this ledger plays.
        role: HopRole,
    },
    /// Any other kind of entry.
    Other,
}

impl EntryBody {
    /// A copy of the body.
    pub fn copied(&self) -> (r: EntryBody)
        ensures
            r == *self,
    {
        match self {
            EntryBody::OpenAccount { child, kind } => EntryBody::OpenAccount {
                child: child.clone(),
                kind: *kind,
            },
            EntryBody::Issue { child, amount } => EntryBody::Issue {
                child: child.clone(),
                amount: *amount,
            },
            EntryBody::Transfer { payment_id, amount, role } => EntryBody::Transfer {
                payment_id: *payment_id,
                amount: *amount,
                role: *role,
            },
            EntryBody::Other => EntryBody::Other,
        }
    }
}

/// A ledger entry.
#[derive(Debug)]
pub struct Entry {
    /// The ledger it belongs to.
    pub ledger_id: LedgerPubKey,
    /// Its position.
    pub seq: u64,
    /// Its height.
    pub height: u64,
    /// Digest of the entry before it.
    pub prev_hash: Digest,
    /// Unix seconds.
    pub issued_at: u64,
    /// What it records.
    pub body: EntryBody,
    /// Its legs.
    pub postings: Vec<Posting>,
    /// The authorisation, where one is needed.
    pub auth: Option<AuthRef>,
}

/// The contents of an [`Entry`].
pub ghost struct EntryState {
    pub ledger_id: LedgerPubKey,
    pub seq: u64,
    pub height: u64,
    pub prev_hash: Digest,
    pub issued_at: u64,
    pub body: EntryBody,
    pub postings: Seq<Posting>,
    pub auth: Option<AuthRef>,
}

impl View for Entry {
    type V = EntryState;

    open spec fn view(&self) -> EntryState {
        EntryState {
            ledger_id: self.ledger_id,
            seq: self.seq,
            height: self.height,
            prev_hash: self.prev_hash,
            issued_at: self.issued_at,
            body: self.body,
            postings: self.postings@,
            auth: self.auth,
        }
    }
}

/// A copy of a list of legs.
pub fn copied_postings(postings: &Vec<Posting>) -> (r: Vec<Posting>)
    ensures
        r@ == postings@,
{
    let mut r: Vec<Posting> = Vec::new();
    let mut i: usize = 0;
    while i < postings.len()
        invariant
            i <= postings@.len(),
            r@ == postings@.take(i as int),
        decreases postings@.len() - i,
    {
        r.push(postings[i].copied());
        i = i + 1;
        assert(r@ =~= postings@.take(i as int));
    }
    assert(r@ =~= postings@);
    r
}

/// The lists hold the same legs.
pub open spec fn same_postings(a: Seq<Posting>, b: Seq<Posting>) -> bool {
    a.len() == b.len() && forall|i: int|
        0 <= i < a.len() ==> (#[trigger] a[i]).account.same_account(b[i].account) && a[i].delta
            == b[i].delta
}

/// Whether two lists hold the same legs.
pub fn postings_match(a: &Vec<Posting>, b: &Vec<Posting>) -> (r: bool)
    ensures
        r == same_postings(a@, b@),
{
    if a.len() != b.len() {
        return false;
    }
    let mut i: usize = 0;
    while i < a.len()
        invariant
            i <= a@.len(),
            a@.len() == b@.len(),
            forall|j: int|
                0 <= j < i ==> (#[trigger] a@[j]).account.same_account(b@[j].account) && a@[j].delta
                    == b@[j].delta,
        decreases a@.len() - i,
    {
        if !a[i].account.same(&b[i].account) || a[i].delta != b[i].delta {
            return false;
        }
        i = i + 1;
    }
    true
}

impl Entry {
    /// A copy of the entry.
    pub fn copied(&self) -> (r: Entry)
        ensures
            r@ == self@,
    {
        Entry {
            ledger_id: self.ledger_id,
            seq: self.seq,
            height: self.height,
            prev_hash: self.prev_hash,
            issued_at: self.issued_at,
            body: self.body.copied(),
            postings: copied_postings(&self.postings),
            auth: self.auth,
        }
    }
}

/// A signed entry with what is known of its bytes.
#[derive(Debug)]
pub struct SignedEntry {
    /// The entry.
    pub entry: Entry,
    /// Its content hash; none when it cannot be encoded.
    pub hash: Option<Digest>,
    /// The keys, of those known here, under which the signature is valid.
    pub valid_under: Vec<LedgerPubKey>,
    /// Its legs conserve value.
    pub conserved: bool,
    /// Its legs have the shape that its role prescribes.
    pub canonical: bool,
}

/// The contents of a [`SignedEntry`].
pub ghost struct SignedEntryState {
    pub entry: EntryState,
    pub hash: Option<Digest>,
    pub valid_under: Seq<LedgerPubKey>,
    pub conserved: bool,
    pub canonical: bool,
}

impl View for SignedEntry {
    type V = SignedEntryState;

    open spec fn view(&self) -> SignedEntryState {
        SignedEntryState {
            entry: self.entry@,
            hash: self.hash,
            valid_under: self.valid_under@,
            conserved: self.conserved,
            canonical: self.canonical,
        }
    }
}

/// A copy of a list of keys.
pub fn copied_keys(keys: &Vec<[u8; 32]>) -> (r: Vec<[u8; 32]>)
    ensures
        r@ == keys@,
{
    let mut r: Vec<[u8; 32]> = Vec::new();
    let mut i: usize = 0;
    while i < keys.len()
        invariant
            i <= keys@.len(),
            r@ == keys@.take(i as int),
        decreases keys@.len() - i,
    {
        r.push(keys[i]);
        i = i + 1;
        assert(r@ =~= keys@.take(i as int));
    }
    assert(r@ =~= keys@);
    r
}

impl SignedEntry {
    /// A copy of the signed entry.
    pub fn copied(&self) -> (r: SignedEntry)
        ensures
            r@ == self@,
    {
        SignedEntry {
            entry: self.entry.copied(),
            hash: self.hash,
            valid_under: copied_keys(&self.valid_under),
            conserved: self.conserved,
            canonical: self.canonical,
        }
    }

    /// The signature is valid under `key`.
    pub open spec fn spec_verifies(self, key: LedgerPubKey) -> bool {
        self.valid_under@.contains(key)
    }

    /// Whether the signature is valid under `key`.
    pub fn verifies(&self, key: &LedgerPubKey) -> (r: bool)
        ensures
            r == self.spec_verifies(*key),
    {
        holds_key(&self.valid_under, key)
    }
}

/// An address together with the node that claims it.
#[derive(Debug)]
pub struct PeerRef {
    /// The address.
    pub addr: OctAddr,
    /// The node id.
    pub node: String,
}

impl PeerRef {
    /// A copy of the reference.
    pub fn copied(&self) -> (r: PeerRef)
        ensures
            r == *self,
    {
        PeerRef { addr: self.addr.copied(), node: self.node.clone() }
    }

    /// The references name the same peer at the same place.
    pub open spec fn same_peer(self, other: PeerRef) -> bool {
        self.addr == other.addr && self.node@ == other.node@
    }

    /// Whether the references name the same peer at the same place.
    pub fn same(&self, other: &PeerRef) -> (r: bool)
        ensures
            r == self.same_peer(*other),
    {
        self.addr.same(&other.addr) && self.node == other.node
    }
}

/// The ledger message type.
pub const MSG_LEDGER_V1: u16 = 1;

/// A message in transit.
#[derive(Debug)]
pub struct Envelope {
    /// The claimed origin.
    pub src: PeerRef,
    /// The destination.
    pub dst: OctAddr,
    /// The message id.
    pub msg_id: MsgId,
    /// The message type.
    pub msg_type: u16,
    /// A random number.
    pub nonce: u64,
    /// The payload.
    pub payload: Vec<u8>,
    /// Remaining authorised forwards.
    pub ttl: u8,
    /// The nodes visited, the origin first.
    pub hop_chain: Vec<PeerRef>,
}

/// Two rows are the same where their node, both their keys and their role are, and
/// two peers where their node and their address are.
pub proof fn law_same_means_every_field(
    a: PeerKeys,
    b: PeerKeys,
    row: bool,
    p: PeerRef,
    q: PeerRef,
    peer: bool,
)
    requires
        call_ensures(PeerKeys::same, (&a, &b), row),
        call_ensures(PeerRef::same, (&p, &q), peer),
    ensures
        row <==> a.node_id@ == b.node_id@ && a.operator == b.operator && a.ledger == b.ledger
            && a.role == b.role,
        peer <==> p.node@ == q.node@ && p.addr == q.addr,
{
}

/// Two lists of postings match where they are as long and, place by place, move the
/// same amount on the same account.
pub proof fn law_postings_match_place_by_place(
    a: Vec<Posting>,
    b: Vec<Posting>,
    r: bool,
    i: int,
)
    requires
        call_ensures(postings_match, (&a, &b), r),
    ensures
        a@ == b@ ==> r,
        r ==> a@.len() == b@.len(),
        r && 0 <= i < a@.len() ==> {
            &&& a@[i].delta == b@[i].delta
            &&& a@[i].account is Parent <==> b@[i].account is Parent
            &&& a@[i].account matches AccountRef::Child(id) ==> (
            b@[i].account matches AccountRef::Child(other) && other@ == id@)
        },
{
}

/// An entry verifies under a key exactly where its signature holds under it. The
/// hash of zeros is all zeros.
pub proof fn law_keys_and_hashes(
    signed: SignedEntry,
    key: LedgerPubKey,
    r: bool,
    zero: Digest,
    other: Digest,
    empty: bool,
)
    requires
        call_ensures(SignedEntry::verifies, (&signed, &key), r),
        call_ensures(zero_hash, (), zero),
        call_ensures(all_zero, (&other,), empty),
    ensures
        r <==> signed.valid_under@.contains(key),
        forall|i: int| 0 <= i < 32 ==> #[trigger] zero[i] == 0,
        empty <==> forall|i: int| 0 <= i < 32 ==> #[trigger] other[i] == 0,
{
}

} // verus!
