//! The node record: one optional parent link, up to eight child links and the
//! asserted octal address.
//!
//! A record is validated on load and before every mutation is applied, so a
//! [`RecordStore`] never holds an invalid record: a mutation that would break
//! an invariant returns its error and leaves the record as it was.
use crate::addr::{OctAddr, MAX_SLOT};
use crate::text;
use vstd::prelude::*;

verus! {

/// Name of the node record file inside the data dir.
pub const NODE_RECORD_FILE: &'static str = "node.json";

/// Maximum number of children a node may have.
pub const MAX_CHILDREN: usize = 8;

/// What a child is.
#[derive(Debug, Clone, Copy, PartialEq, Eq, Structural)]
pub enum ChildKind {
    /// A node with its own ledger.
    Node,
    /// A user account.
    User,
}

/// A link to this node's parent.
#[derive(Debug)]
pub struct ParentLink {
    /// The parent's node id.
    pub parent_id: String,
    /// The slot this node occupies under its parent.
    pub slot: u8,
    /// High-water mark of the rebase generation applied from this parent.
    pub generation: u64,
}

/// A link to one of this node's children.
#[derive(Debug)]
pub struct ChildEntry {
    /// The child's node id.
    pub child_id: String,
    /// Node or user.
    pub kind: ChildKind,
    /// The slot the child occupies.
    pub slot: u8,
    /// Unix seconds when the child first joined this parent.
    pub date_joined: u64,
}

/// The node's persisted record.
#[derive(Debug)]
pub struct NodeRecord {
    /// This node's id.
    pub node_id: String,
    /// The asserted address; `None` means routing is unavailable.
    pub address: Option<OctAddr>,
    /// The parent link.
    pub parent: Option<ParentLink>,
    /// The child links, in the order they were added.
    pub children: Vec<ChildEntry>,
    /// Counts the changes of the stored address.
    pub address_epoch: u64,
}

/// Errors raised by record validation and mutations.
#[derive(Debug, PartialEq, Eq)]
pub enum RecordError {
    /// A link names the node itself.
    SelfReference(String),
    /// A slot above the largest octal digit.
    SlotOutOfRange(u8),
    /// Two children share a slot.
    SlotTaken(u8),
    /// A non-root address without a parent.
    AddressWithoutParent(String),
    /// The address ends in another slot than the parent link.
    AddressSlotMismatch {
        /// Last slot of the address.
        address_slot: Option<u8>,
        /// Slot of the parent link.
        parent_slot: u8,
    },
    /// All child slots are in use.
    CapExceeded,
    /// The child is already linked.
    DuplicateChild(String),
    /// The child is not linked.
    ChildNotFound(String),
    /// The record belongs to another node.
    IdMismatch {
        /// Id in the record.
        found: String,
        /// Id of this node.
        expected: String,
    },
    /// The record file could not be read.
    ReadFailed {
        /// File.
        path: String,
        /// Cause.
        detail: String,
    },
    /// The record file could not be written.
    WriteFailed {
        /// File.
        path: String,
        /// Cause.
        detail: String,
    },
    /// The record file does not hold a record.
    Corrupt {
        /// File.
        path: String,
        /// Cause.
        detail: String,
    },
}

/// A [`RecordError`] with its texts as character sequences.
pub ghost enum RecordFault {
    SelfReference(Seq<char>),
    SlotOutOfRange(u8),
    SlotTaken(u8),
    AddressWithoutParent(Seq<char>),
    AddressSlotMismatch { address_slot: Option<u8>, parent_slot: u8 },
    CapExceeded,
    DuplicateChild(Seq<char>),
    ChildNotFound(Seq<char>),
    IdMismatch { found: Seq<char>, expected: Seq<char> },
    ReadFailed { path: Seq<char>, detail: Seq<char> },
    WriteFailed { path: Seq<char>, detail: Seq<char> },
    Corrupt { path: Seq<char>, detail: Seq<char> },
}

impl View for RecordError {
    type V = RecordFault;

    open spec fn view(&self) -> RecordFault {
        match self {
            RecordError::SelfReference(s) => RecordFault::SelfReference(s@),
            RecordError::SlotOutOfRange(n) => RecordFault::SlotOutOfRange(*n),
            RecordError::SlotTaken(n) => RecordFault::SlotTaken(*n),
            RecordError::AddressWithoutParent(s) => RecordFault::AddressWithoutParent(s@),
            RecordError::AddressSlotMismatch { address_slot, parent_slot } => {
                RecordFault::AddressSlotMismatch {
                    address_slot: *address_slot,
                    parent_slot: *parent_slot,
                }
            },
            RecordError::CapExceeded => RecordFault::CapExceeded,
            RecordError::DuplicateChild(s) => RecordFault::DuplicateChild(s@),
            RecordError::ChildNotFound(s) => RecordFault::ChildNotFound(s@),
            RecordError::IdMismatch { found, expected } => RecordFault::IdMismatch {
                found: found@,
                expected: expected@,
            },
            RecordError::ReadFailed { path, detail } => RecordFault::ReadFailed {
                path: path@,
                detail: detail@,
            },
            RecordError::WriteFailed { path, detail } => RecordFault::WriteFailed {
                path: path@,
                detail: detail@,
            },
            RecordError::Corrupt { path, detail } => RecordFault::Corrupt {
                path: path@,
                detail: detail@,
            },
        }
    }
}

impl RecordFault {
    /// The message shown for the error.
    pub open spec fn text(self) -> Seq<char> {
        match self {
            RecordFault::SelfReference(id) => "node '"@ + id + "' cannot reference itself"@,
            RecordFault::SlotOutOfRange(slot) => "slot "@ + text::decimal(slot as nat)
                + " out of range (must be 0..=7)"@,
            RecordFault::SlotTaken(slot) => "slot "@ + text::decimal(slot as nat)
                + " is already taken"@,
            RecordFault::AddressWithoutParent(address) => "address '"@ + address
                + "' set without a parent (only the root address \"0\" may have no parent)"@,
            RecordFault::AddressSlotMismatch { address_slot, parent_slot } => "address slot "@ + (
            match address_slot {
                Some(slot) => "Some("@ + text::decimal(slot as nat) + ")"@,
                None => "None"@,
            }) + (" does not match parent slot "@ + text::decimal(parent_slot as nat)),
            RecordFault::CapExceeded => "node already has 8 children (cap reached)"@,
            RecordFault::DuplicateChild(id) => "child '"@ + id + "' already present"@,
            RecordFault::ChildNotFound(id) => "child '"@ + id + "' not found"@,
            RecordFault::IdMismatch { found, expected } => "record node_id '"@ + found
                + "' does not match this node's endpoint id '"@ + expected + "'"@,
            RecordFault::ReadFailed { path, detail } => "could not read "@ + path + ": "@ + detail,
            RecordFault::WriteFailed { path, detail } => "could not write "@ + path + ": "@
                + detail,
            RecordFault::Corrupt { path, detail } => "record file "@ + path + " is corrupt: "@
                + detail,
        }
    }
}

impl RecordError {
    /// The message shown for the error.
    pub fn text(&self) -> (r: String)
        ensures
            r@ == self@.text(),
    {
        match self {
            RecordError::SelfReference(id) => {
                text::between("node '", id.as_str(), "' cannot reference itself")
            },
            RecordError::SlotOutOfRange(slot) => text::between(
                "slot ",
                text::u64_text(*slot as u64).as_str(),
                " out of range (must be 0..=7)",
            ),
            RecordError::SlotTaken(slot) => text::between(
                "slot ",
                text::u64_text(*slot as u64).as_str(),
                " is already taken",
            ),
            RecordError::AddressWithoutParent(address) => text::between(
                "address '",
                address.as_str(),
                "' set without a parent (only the root address \"0\" may have no parent)",
            ),
            RecordError::AddressSlotMismatch { address_slot, parent_slot } => {
                let shown: String = match address_slot {
                    Some(slot) => text::between(
                        "Some(",
                        text::u64_text(*slot as u64).as_str(),
                        ")",
                    ),
                    None => "None".to_owned(),
                };
                let rest: String = text::between(
                    " does not match parent slot ",
                    text::u64_text(*parent_slot as u64).as_str(),
                    "",
                );
                proof {
                    reveal_strlit("");
                    assert(rest@ =~= " does not match parent slot "@ + text::decimal(
                        *parent_slot as nat,
                    ));
                }
                text::between("address slot ", shown.as_str(), rest.as_str())
            },
            RecordError::CapExceeded => "node already has 8 children (cap reached)".to_owned(),
            RecordError::DuplicateChild(id) => {
                text::between("child '", id.as_str(), "' already present")
            },
            RecordError::ChildNotFound(id) => text::between("child '", id.as_str(), "' not found"),
            RecordError::IdMismatch { found, expected } => {
                let mut r: String = text::between(
                    "record node_id '",
                    found.as_str(),
                    "' does not match this node's endpoint id '",
                );
                r.append(expected.as_str());
                r.append("'");
                r
            },
            RecordError::ReadFailed { path, detail } => {
                let mut r: String = text::between("could not read ", path.as_str(), ": ");
                r.append(detail.as_str());
                r
            },
            RecordError::WriteFailed { path, detail } => {
                let mut r: String = text::between("could not write ", path.as_str(), ": ");
                r.append(detail.as_str());
                r
            },
            RecordError::Corrupt { path, detail } => {
                let mut r: String = text::between("record file ", path.as_str(), " is corrupt: ");
                r.append(detail.as_str());
                r
            },
        }
    }
}

/// The contents of a record.
#[verifier::ext_equal]
pub ghost struct RecordState {
    pub node_id: Seq<char>,
    pub address: Option<OctAddr>,
    pub parent: Option<ParentLink>,
    pub children: Seq<ChildEntry>,
    pub address_epoch: u64,
}

impl View for NodeRecord {
    type V = RecordState;

    open spec fn view(&self) -> RecordState {
        RecordState {
            node_id: self.node_id@,
            address: self.address,
            parent: self.parent,
            children: self.children@,
            address_epoch: self.address_epoch,
        }
    }
}

/// Some child holds `slot`.
pub open spec fn slot_taken(children: Seq<ChildEntry>, slot: int) -> bool {
    exists|i: int| 0 <= i < children.len() && #[trigger] children[i].slot == slot
}

/// The child `id` is linked.
pub open spec fn has_child(children: Seq<ChildEntry>, id: Seq<char>) -> bool {
    exists|i: int| 0 <= i < children.len() && #[trigger] children[i].child_id@ == id
}

/// `slot` is the smallest octal slot that no child holds.
pub open spec fn is_lowest_free(children: Seq<ChildEntry>, slot: int) -> bool {
    &&& 0 <= slot <= MAX_SLOT
    &&& !slot_taken(children, slot)
    &&& forall|s: int| 0 <= s < slot ==> #[trigger] slot_taken(children, s)
}

/// Every octal slot is held by a child.
pub open spec fn is_full(children: Seq<ChildEntry>) -> bool {
    forall|s: int| 0 <= s <= MAX_SLOT ==> #[trigger] slot_taken(children, s)
}

/// The first rule that a list of children breaks.
pub open spec fn children_fault(node_id: Seq<char>, children: Seq<ChildEntry>) -> Option<
    RecordFault,
>
    decreases children.len(),
{
    if children.len() == 0 {
        None
    } else {
        match children_fault(node_id, children.drop_last()) {
            Some(fault) => Some(fault),
            None => {
                let child = children.last();
                if child.child_id@ == node_id {
                    Some(RecordFault::SelfReference(node_id))
                } else if child.slot > MAX_SLOT {
                    Some(RecordFault::SlotOutOfRange(child.slot))
                } else if slot_taken(children.drop_last(), child.slot as int) {
                    Some(RecordFault::SlotTaken(child.slot))
                } else {
                    None
                }
            },
        }
    }
}

impl RecordState {
    /// A fresh, unattached record.
    pub open spec fn fresh(node_id: Seq<char>) -> RecordState {
        RecordState {
            node_id,
            address: None,
            parent: None,
            children: Seq::empty(),
            address_epoch: 0,
        }
    }

    /// The parent link names another node and an octal slot.
    pub open spec fn parent_ok(self) -> bool {
        self.parent matches Some(link) ==> link.parent_id@ != self.node_id && link.slot <= MAX_SLOT
    }

    /// An address below the root needs a parent link at its last slot; the root
    /// address needs the absence of one.
    pub open spec fn address_ok(self) -> bool {
        self.address matches Some(address) ==> match self.parent {
            Some(link) => address.spec_slot() == Some(link.slot),
            None => address is Root,
        }
    }

    /// At most eight children, none of them the node itself, on distinct octal
    /// slots.
    pub open spec fn children_ok(self) -> bool {
        &&& self.children.len() <= MAX_CHILDREN
        &&& forall|i: int|
            0 <= i < self.children.len() ==> (#[trigger] self.children[i]).child_id@ != self.node_id
                && self.children[i].slot <= MAX_SLOT
        &&& forall|i: int, j: int|
            0 <= i < j < self.children.len() ==> (#[trigger] self.children[i]).slot != (
            #[trigger] self.children[j]).slot
    }

    /// Every structural invariant of a record.
    pub open spec fn valid(self) -> bool {
        self.parent_ok() && self.address_ok() && self.children_ok()
    }

    /// The first invariant that the record breaks, in the order of validation:
    /// parent link, address, number of children, then child by child.
    pub open spec fn fault(self) -> Option<RecordFault> {
        if self.parent matches Some(link) && link.parent_id@ == self.node_id {
            Some(RecordFault::SelfReference(self.node_id))
        } else if self.parent matches Some(link) && link.slot > MAX_SLOT {
            Some(RecordFault::SlotOutOfRange(self.parent->0.slot))
        } else if !self.address_ok() {
            match self.parent {
                Some(link) => Some(
                    RecordFault::AddressSlotMismatch {
                        address_slot: self.address->0.spec_slot(),
                        parent_slot: link.slot,
                    },
                ),
                None => Some(RecordFault::AddressWithoutParent(self.address->0.spec_text())),
            }
        } else if self.children.len() > MAX_CHILDREN {
            Some(RecordFault::CapExceeded)
        } else {
            children_fault(self.node_id, self.children)
        }
    }

    /// The record with another stored address. The epoch advances exactly when
    /// the value changes, and stays at its maximum.
    pub open spec fn with_address(self, address: Option<OctAddr>) -> RecordState {
        if self.address == address {
            self
        } else {
            RecordState {
                address,
                address_epoch: if self.address_epoch == u64::MAX {
                    u64::MAX
                } else {
                    (self.address_epoch + 1) as u64
                },
                ..self
            }
        }
    }

    /// The record without a parent; a non-root address goes with it.
    pub open spec fn without_parent(self) -> RecordState {
        let detached = RecordState { parent: None, ..self };
        if self.address matches Some(address) && !(address is Root) {
            detached.with_address(None)
        } else {
            detached
        }
    }

    /// The record as the root of its own network.
    pub open spec fn rebased(self) -> RecordState {
        RecordState { parent: None, ..self }.with_address(Some(OctAddr::Root))
    }

    /// The record with one more child.
    pub open spec fn with_child(self, child: ChildEntry) -> RecordState {
        RecordState { children: self.children.push(child), ..self }
    }
}

proof fn lemma_children_fault(node_id: Seq<char>, children: Seq<ChildEntry>)
    ensures
        children_fault(node_id, children) is None <==> {
            &&& forall|i: int|
                0 <= i < children.len() ==> (#[trigger] children[i]).child_id@ != node_id
                    && children[i].slot <= MAX_SLOT
            &&& forall|i: int, j: int|
                0 <= i < j < children.len() ==> (#[trigger] children[i]).slot != (
                #[trigger] children[j]).slot
        },
    decreases children.len(),
{
    if children.len() > 0 {
        let init = children.drop_last();
        lemma_children_fault(node_id, init);
        assert forall|i: int| 0 <= i < init.len() implies init[i] == children[i] by {}
        if children_fault(node_id, children) is None {
            assert forall|i: int, j: int| 0 <= i < j < children.len() implies (
            #[trigger] children[i]).slot != (#[trigger] children[j]).slot by {
                assert(init[i] == children[i]);
                if j < init.len() {
                    assert(init[j] == children[j]);
                } else {
                    assert(!slot_taken(init, children.last().slot as int));
                }
            }
            assert forall|i: int| 0 <= i < children.len() implies (
            #[trigger] children[i]).child_id@ != node_id && children[i].slot <= MAX_SLOT by {
                if i < init.len() {
                    assert(init[i] == children[i]);
                }
            }
        } else {
            if children_fault(node_id, init) is None {
                let child = children.last();
                if child.child_id@ != node_id && child.slot <= MAX_SLOT {
                    let k = choose|k: int|
                        0 <= k < init.len() && #[trigger] init[k].slot == child.slot;
                    assert(children[k].slot == children[children.len() - 1].slot);
                }
            } else if forall|i: int|
                0 <= i < children.len() ==> (#[trigger] children[i]).child_id@ != node_id
                    && children[i].slot <= MAX_SLOT {
                assert forall|i: int| 0 <= i < init.len() implies (#[trigger] init[i]).child_id@
                    != node_id && init[i].slot <= MAX_SLOT by {
                    assert(init[i] == children[i]);
                }
                let (i, j) = choose|i: int, j: int|
                    0 <= i < j < init.len() && (#[trigger] init[i]).slot == (
                    #[trigger] init[j]).slot;
                assert(children[i].slot == children[j].slot);
            }
        }
    }
}

/// Validation reports no fault exactly on the records that keep every
/// invariant.
pub proof fn law_no_fault_is_valid(state: RecordState)
    ensures
        state.fault() is None <==> state.valid(),
{
    lemma_children_fault(state.node_id, state.children);
}

/// A child on a free slot keeps the record valid.
pub proof fn law_attach_keeps_validity(state: RecordState, child: ChildEntry)
    requires
        state.valid(),
        state.children.len() < MAX_CHILDREN,
        child.child_id@ != state.node_id,
        child.slot <= MAX_SLOT,
        !slot_taken(state.children, child.slot as int),
    ensures
        state.with_child(child).valid(),
{
    let next = state.with_child(child);
    assert forall|i: int, j: int| 0 <= i < j < next.children.len() implies (
    #[trigger] next.children[i]).slot != (#[trigger] next.children[j]).slot by {
        if j == state.children.len() {
            assert(state.children[i].slot == next.children[i].slot);
        }
    }
}

/// Detaching from the parent, rebasing to the root and removing a child keep a
/// record valid; none of the first two touches the children.
pub proof fn law_detaching_keeps_validity(state: RecordState, index: int)
    requires
        state.valid(),
    ensures
        state.without_parent().valid(),
        state.without_parent().children == state.children,
        state.without_parent().address != state.address ==> state.without_parent().address is None,
        state.rebased().valid(),
        state.rebased().children == state.children,
        state.with_address(None).valid(),
        0 <= index < state.children.len() ==> (RecordState {
            children: state.children.remove(index),
            ..state
        }).valid(),
{
    if 0 <= index < state.children.len() {
        let next = RecordState { children: state.children.remove(index), ..state };
        assert forall|i: int, j: int| 0 <= i < j < next.children.len() implies (
        #[trigger] next.children[i]).slot != (#[trigger] next.children[j]).slot by {
            let p = if i < index { i } else { i + 1 };
            let q = if j < index { j } else { j + 1 };
            assert(next.children[i] == state.children[p]);
            assert(next.children[j] == state.children[q]);
        }
        assert forall|i: int| 0 <= i < next.children.len() implies (
        #[trigger] next.children[i]).child_id@ != next.node_id && next.children[i].slot
            <= MAX_SLOT by {
            let p = if i < index { i } else { i + 1 };
            assert(next.children[i] == state.children[p]);
        }
    }
}

/// Rebasing an already rebased record changes nothing, the epoch included.
pub proof fn law_rebase_is_idempotent(state: RecordState)
    ensures
        state.rebased().rebased() == state.rebased(),
        state.rebased().parent is None,
        state.rebased().address == Some(OctAddr::Root),
{
}

/// Storing an address stores just that. The address epoch never decreases, moves
/// by exactly one with every change of the value until it reaches its maximum,
/// and stays where the same value is stored again.
pub proof fn law_epoch_counts_address_changes(state: RecordState, address: Option<OctAddr>)
    ensures
        state.with_address(address).address == address,
        state.with_address(address).node_id == state.node_id,
        state.with_address(address).parent == state.parent,
        state.with_address(address).children == state.children,
        state.address == address ==> state.with_address(address).address_epoch
            == state.address_epoch,
        state.address_epoch == u64::MAX ==> state.with_address(address).address_epoch == u64::MAX,
        state.address != address && state.address_epoch < u64::MAX ==> state.with_address(
            address,
        ).address_epoch == state.address_epoch + 1,
        state.with_address(address).address_epoch >= state.address_epoch,
        state.with_address(address).with_address(address) == state.with_address(address),
{
}

impl ChildKind {
    /// The lowercase name of the kind.
    pub open spec fn spec_label(self) -> Seq<char> {
        match self {
            ChildKind::Node => "node"@,
            ChildKind::User => "user"@,
        }
    }

    /// The lowercase name, as it is stored and shown.
    pub fn label(&self) -> (r: &'static str)
        ensures
            r@ == self.spec_label(),
    {
        match self {
            ChildKind::Node => "node",
            ChildKind::User => "user",
        }
    }

    /// Read a stored kind; only `node` and `user` are accepted.
    pub fn from_label(label: &String) -> (r: Option<ChildKind>)
        ensures
            r == (if label@ == "node"@ {
                Some(ChildKind::Node)
            } else if label@ == "user"@ {
                Some(ChildKind::User)
            } else {
                None
            }),
    {
        if text::text_is(label, "node") {
            Some(ChildKind::Node)
        } else if text::text_is(label, "user") {
            Some(ChildKind::User)
        } else {
            None
        }
    }
}

/// A stored kind reads back as itself.
pub proof fn law_kind_label_round_trip(kind: ChildKind)
    ensures
        kind.spec_label() == "node"@ <==> kind == ChildKind::Node,
        kind.spec_label() == "user"@ <==> kind == ChildKind::User,
{
    reveal_strlit("node");
    reveal_strlit("user");
    assert("node"@[0] != "user"@[0]);
}

impl ParentLink {
    /// A copy of the link.
    pub fn copied(&self) -> (r: ParentLink)
        ensures
            r == *self,
    {
        ParentLink {
            parent_id: self.parent_id.clone(),
            slot: self.slot,
            generation: self.generation,
        }
    }
}

impl ChildEntry {
    /// A copy of the link.
    pub fn copied(&self) -> (r: ChildEntry)
        ensures
            r == *self,
    {
        ChildEntry {
            child_id: self.child_id.clone(),
            kind: self.kind,
            slot: self.slot,
            date_joined: self.date_joined,
        }
    }
}

/// A copy of an optional address.
pub fn copied_address(address: &Option<OctAddr>) -> (r: Option<OctAddr>)
    ensures
        r == *address,
{
    match address {
        Some(a) => Some(a.copied()),
        None => None,
    }
}

/// Whether two optional addresses are the same.
pub fn same_address(a: &Option<OctAddr>, b: &Option<OctAddr>) -> (r: bool)
    ensures
        r == (*a == *b),
{
    match (a, b) {
        (Some(x), Some(y)) => x.same(y),
        (None, None) => true,
        _ => false,
    }
}

/// The position of the first child named `id`.
pub fn child_position(children: &Vec<ChildEntry>, id: &String) -> (r: Option<usize>)
    ensures
        match r {
            Some(i) => {
                &&& i < children@.len()
                &&& children@[i as int].child_id@ == id@
                &&& forall|j: int| 0 <= j < i ==> (#[trigger] children@[j]).child_id@ != id@
            },
            None => !has_child(children@, id@),
        },
{
    let mut i: usize = 0;
    while i < children.len()
        invariant
            i <= children@.len(),
            forall|j: int| 0 <= j < i ==> (#[trigger] children@[j]).child_id@ != id@,
        decreases children@.len() - i,
    {
        if children[i].child_id == *id {
            return Some(i);
        }
        i = i + 1;
    }
    None
}

/// Whether some child holds `slot`.
pub fn is_slot_taken(children: &Vec<ChildEntry>, slot: u8) -> (r: bool)
    ensures
        r == slot_taken(children@, slot as int),
{
    let mut i: usize = 0;
    while i < children.len()
        invariant
            i <= children@.len(),
            forall|j: int| 0 <= j < i ==> (#[trigger] children@[j]).slot != slot,
        decreases children@.len() - i,
    {
        if children[i].slot == slot {
            return true;
        }
        i = i + 1;
    }
    false
}

/// The lowest octal slot that no child holds.
pub fn lowest_free_slot(children: &Vec<ChildEntry>) -> (r: Option<u8>)
    ensures
        match r {
            Some(slot) => is_lowest_free(children@, slot as int),
            None => is_full(children@),
        },
{
    let mut slot: u8 = 0;
    while slot <= MAX_SLOT
        invariant
            slot <= MAX_SLOT + 1,
            forall|s: int| 0 <= s < slot ==> #[trigger] slot_taken(children@, s),
        decreases MAX_SLOT + 1 - slot,
    {
        if !is_slot_taken(children, slot) {
            return Some(slot);
        }
        slot = slot + 1;
    }
    None
}

impl NodeRecord {
    /// A fresh, unattached record for the given node id.
    pub fn new(node_id: String) -> (r: NodeRecord)
        ensures
            r@ == RecordState::fresh(node_id@),
            r.node_id == node_id,
            r@.valid(),
    {
        NodeRecord {
            node_id,
            address: None,
            parent: None,
            children: Vec::new(),
            address_epoch: 0,
        }
    }

    /// A copy of the record.
    pub fn copied(&self) -> (r: NodeRecord)
        ensures
            r@ == self@,
            r.node_id == self.node_id,
    {
        let mut children: Vec<ChildEntry> = Vec::new();
        let mut i: usize = 0;
        while i < self.children.len()
            invariant
                i <= self.children@.len(),
                children@ == self.children@.take(i as int),
            decreases self.children@.len() - i,
        {
            children.push(self.children[i].copied());
            i = i + 1;
            assert(children@ =~= self.children@.take(i as int));
        }
        assert(children@ =~= self.children@);
        let parent: Option<ParentLink> = match &self.parent {
            Some(link) => Some(link.copied()),
            None => None,
        };
        NodeRecord {
            node_id: self.node_id.clone(),
            address: copied_address(&self.address),
            parent,
            children,
            address_epoch: self.address_epoch,
        }
    }

    /// This node's own monotonic address epoch.
    pub fn address_epoch(&self) -> (r: u64)
        ensures
            r == self.address_epoch,
    {
        self.address_epoch
    }

    /// High-water mark of the generation applied from the current parent; zero
    /// when unattached.
    pub fn parent_generation(&self) -> (r: u64)
        ensures
            r == (match self.parent {
                Some(link) => link.generation,
                None => 0,
            }),
    {
        match &self.parent {
            Some(link) => link.generation,
            None => 0,
        }
    }

    /// Validate the structural invariants, reporting the first one broken.
    pub fn validate(&self) -> (r: Result<(), RecordError>)
        ensures
            r is Ok <==> self@.valid(),
            match r {
                Ok(_) => self@.fault() is None,
                Err(e) => self@.fault() == Some(e@),
            },
    {
        proof {
            law_no_fault_is_valid(self@);
        }
        if let Some(parent) = &self.parent {
            if parent.parent_id == self.node_id {
                return Err(RecordError::SelfReference(self.node_id.clone()));
            }
            if parent.slot > MAX_SLOT {
                return Err(RecordError::SlotOutOfRange(parent.slot));
            }
        }
        if let Some(address) = &self.address {
            match &self.parent {
                Some(parent) => {
                    let fits: bool = match address.slot() {
                        Some(slot) => slot == parent.slot,
                        None => false,
                    };
                    if !fits {
                        return Err(
                            RecordError::AddressSlotMismatch {
                                address_slot: address.slot(),
                                parent_slot: parent.slot,
                            },
                        );
                    }
                },
                None => {
                    if !address.is_root() {
                        return Err(RecordError::AddressWithoutParent(address.text()));
                    }
                },
            }
        }
        if self.children.len() > MAX_CHILDREN {
            return Err(RecordError::CapExceeded);
        }
        let mut i: usize = 0;
        assert(self.children@.take(0) =~= Seq::<ChildEntry>::empty());
        while i < self.children.len()
            invariant
                i <= self.children@.len(),
                self.children@.len() <= MAX_CHILDREN,
                self@.parent_ok(),
                self@.address_ok(),
                children_fault(self.node_id@, self.children@.take(i as int)) is None,
                self@.fault() is None <==> self@.valid(),
            decreases self.children@.len() - i,
        {
            let child: &ChildEntry = &self.children[i];
            let ghost upto = self.children@.take(i + 1);
            assert(upto.drop_last() =~= self.children@.take(i as int));
            let fault: Option<RecordError> = if child.child_id == self.node_id {
                Some(RecordError::SelfReference(child.child_id.clone()))
            } else if child.slot > MAX_SLOT {
                Some(RecordError::SlotOutOfRange(child.slot))
            } else {
                let mut taken: bool = false;
                let mut k: usize = 0;
                while k < i
                    invariant
                        k <= i < self.children@.len(),
                        *child == self.children@[i as int],
                        taken == (exists|j: int|
                            0 <= j < k && #[trigger] self.children@[j].slot == child.slot),
                    decreases i - k,
                {
                    if self.children[k].slot == child.slot {
                        taken = true;
                    }
                    k = k + 1;
                }
                proof {
                    let init = self.children@.take(i as int);
                    if taken {
                        let j = choose|j: int|
                            0 <= j < k && #[trigger] self.children@[j].slot == child.slot;
                        assert(init[j].slot == child.slot);
                    }
                    if slot_taken(init, child.slot as int) {
                        let j = choose|j: int|
                            0 <= j < init.len() && #[trigger] init[j].slot == child.slot as int;
                        assert(self.children@[j].slot == child.slot);
                    }
                }
                if taken {
                    Some(RecordError::SlotTaken(child.slot))
                } else {
                    None
                }
            };
            match fault {
                Some(e) => {
                    proof {
                        lemma_fault_of_prefix(self.node_id@, self.children@, i + 1);
                    }
                    return Err(e);
                },
                None => {},
            }
            i = i + 1;
        }
        assert(self.children@.take(i as int) =~= self.children@);
        Ok(())
    }
}

proof fn lemma_fault_of_prefix(node_id: Seq<char>, children: Seq<ChildEntry>, k: int)
    requires
        0 <= k <= children.len(),
        children_fault(node_id, children.take(k)) is Some,
    ensures
        children_fault(node_id, children) == children_fault(node_id, children.take(k)),
    decreases children.len() - k,
{
    if k < children.len() {
        assert(children.take(k + 1).drop_last() =~= children.take(k));
        lemma_fault_of_prefix(node_id, children, k + 1);
    } else {
        assert(children.take(k) =~= children);
    }
}

/// The record a node works on. It is valid at all times.
#[derive(Debug)]
pub struct RecordStore {
    record: NodeRecord,
}

impl View for RecordStore {
    type V = RecordState;

    closed spec fn view(&self) -> RecordState {
        self.record@
    }
}

impl RecordStore {
    /// The record keeps every structural invariant.
    pub open spec fn wf(&self) -> bool {
        self@.valid()
    }

    /// What opening a stored record comes to: the record itself, its first
    /// broken invariant, or a mismatch with the node's id.
    pub open spec fn spec_open(stored: RecordState, node_id: Seq<char>) -> Result<
        RecordState,
        RecordFault,
    > {
        match stored.fault() {
            Some(fault) => Err(fault),
            None => if stored.node_id != node_id {
                Err(RecordFault::IdMismatch { found: stored.node_id, expected: node_id })
            } else {
                Ok(stored)
            },
        }
    }

    /// Take over the stored record, or start a fresh unattached one when there
    /// is none.
    pub fn open(stored: Option<NodeRecord>, node_id: &String) -> (r: Result<
        RecordStore,
        RecordError,
    >)
        ensures
            ({
                let loaded = match stored {
                    Some(record) => record@,
                    None => RecordState::fresh(node_id@),
                };
                match r {
                    Ok(store) => store.wf() && Self::spec_open(loaded, node_id@) == Ok::<
                        RecordState,
                        RecordFault,
                    >(store@),
                    Err(e) => Self::spec_open(loaded, node_id@) == Err::<RecordState, RecordFault>(
                        e@,
                    ),
                }
            }),
    {
        let record: NodeRecord = match stored {
            Some(record) => record,
            None => NodeRecord::new(node_id.clone()),
        };
        match record.validate() {
            Err(e) => return Err(e),
            Ok(_) => {},
        }
        if record.node_id != *node_id {
            return Err(
                RecordError::IdMismatch { found: record.node_id, expected: node_id.clone() },
            );
        }
        Ok(RecordStore { record })
    }

    /// A copy of the store.
    pub fn copied(&self) -> (r: RecordStore)
        ensures
            r@ == self@,
    {
        RecordStore { record: self.record.copied() }
    }

    /// The current record.
    pub fn record(&self) -> (r: &NodeRecord)
        ensures
            r@ == self@,
    {
        &self.record
    }

    /// This node's id.
    pub fn node_id(&self) -> (r: &str)
        ensures
            r@ == self@.node_id,
    {
        self.record.node_id.as_str()
    }

    /// This node's own monotonic address epoch.
    pub fn address_epoch(&self) -> (r: u64)
        ensures
            r == self@.address_epoch,
    {
        self.record.address_epoch
    }

    /// High-water mark of the generation applied from the current parent; zero
    /// when unattached.
    pub fn parent_generation(&self) -> (r: u64)
        ensures
            r == (match self@.parent {
                Some(link) => link.generation,
                None => 0,
            }),
    {
        self.record.parent_generation()
    }

    /// Advance the current parent link's high-water mark. It never goes down;
    /// without a parent link nothing happens.
    pub fn set_parent_generation(&mut self, generation: u64)
        requires
            old(self).wf(),
        ensures
            final(self).wf(),
            match old(self)@.parent {
                Some(link) => final(self)@ == (RecordState {
                    parent: Some(
                        ParentLink {
                            generation: if link.generation < generation {
                                generation
                            } else {
                                link.generation
                            },
                            ..link
                        },
                    ),
                    ..old(self)@
                }),
                None => final(self)@ == old(self)@,
            },
    {
        let mut next: NodeRecord = self.record.copied();
        match next.parent {
            Some(link) => {
                let mark: u64 = if link.generation < generation {
                    generation
                } else {
                    link.generation
                };
                next.parent = Some(
                    ParentLink { parent_id: link.parent_id, slot: link.slot, generation: mark },
                );
            },
            None => {
                next.parent = None;
            },
        }
        self.record = next;
    }

    /// The record to persist. A store is valid at all times, so validation
    /// before a save always passes.
    pub fn save(&self) -> (r: Result<&NodeRecord, RecordError>)
        requires
            self.wf(),
        ensures
            r matches Ok(record) && record@ == self@,
    {
        match self.record.validate() {
            Ok(_) => Ok(&self.record),
            Err(e) => Err(e),
        }
    }

    /// Apply `next` if it is valid.
    fn apply(&mut self, next: NodeRecord) -> (r: Result<(), RecordError>)
        ensures
            match next@.fault() {
                Some(fault) => r matches Err(e) && e@ == fault && final(self)@ == old(self)@,
                None => r is Ok && final(self)@ == next@ && next@.valid(),
            },
    {
        match next.validate() {
            Ok(_) => {
                self.record = next;
                Ok(())
            },
            Err(e) => Err(e),
        }
    }

    /// What attaching a child comes to: the slot it gets, or the error.
    pub open spec fn spec_attach(
        state: RecordState,
        child_id: Seq<char>,
        slot: Option<u8>,
        got: Result<u8, RecordFault>,
    ) -> bool {
        if child_id == state.node_id {
            got == Err::<u8, RecordFault>(RecordFault::SelfReference(child_id))
        } else if has_child(state.children, child_id) {
            got == Err::<u8, RecordFault>(RecordFault::DuplicateChild(child_id))
        } else {
            match slot {
                Some(s) => if s > MAX_SLOT {
                    got == Err::<u8, RecordFault>(RecordFault::SlotOutOfRange(s))
                } else if slot_taken(state.children, s as int) {
                    got == Err::<u8, RecordFault>(RecordFault::SlotTaken(s))
                } else {
                    got == Ok::<u8, RecordFault>(s)
                },
                None => match got {
                    Ok(s) => is_lowest_free(state.children, s as int),
                    Err(e) => e == RecordFault::CapExceeded && (forall|s: int|
                        0 <= s <= MAX_SLOT ==> #[trigger] slot_taken(state.children, s)),
                },
            }
        }
    }

    /// Add a child link. Without a slot the lowest free one is taken.
    pub fn attach_child(
        &mut self,
        child_id: String,
        kind: ChildKind,
        slot: Option<u8>,
        date_joined: u64,
    ) -> (r: Result<(), RecordError>)
        requires
            old(self).wf(),
        ensures
            final(self).wf(),
            match r {
                Ok(_) => exists|s: u8|
                    #![trigger Self::spec_attach(old(self)@, child_id@, slot, Ok::<u8, RecordFault>(s))]
                    Self::spec_attach(old(self)@, child_id@, slot, Ok::<u8, RecordFault>(s))
                        && final(self)@ == old(self)@.with_child(
                        ChildEntry { child_id, kind, slot: s, date_joined },
                    ),
                Err(e) => Self::spec_attach(
                    old(self)@,
                    child_id@,
                    slot,
                    Err::<u8, RecordFault>(e@),
                ) && final(self)@ == old(self)@,
            },
    {
        if child_id == self.record.node_id {
            return Err(RecordError::SelfReference(child_id));
        }
        if child_position(&self.record.children, &child_id).is_some() {
            return Err(RecordError::DuplicateChild(child_id));
        }
        let free: u8 = match slot {
            Some(s) => {
                if s > MAX_SLOT {
                    return Err(RecordError::SlotOutOfRange(s));
                }
                if is_slot_taken(&self.record.children, s) {
                    return Err(RecordError::SlotTaken(s));
                }
                s
            },
            None => match lowest_free_slot(&self.record.children) {
                Some(s) => s,
                None => return Err(RecordError::CapExceeded),
            },
        };
        proof {
            lemma_free_slot_bounds_children(self@, free as int);
        }
        let mut next: NodeRecord = self.record.copied();
        let child: ChildEntry = ChildEntry { child_id, kind, slot: free, date_joined };
        next.children.push(child);
        proof {
            assert(Self::spec_attach(old(self)@, child_id@, slot, Ok::<u8, RecordFault>(free)));
            law_attach_keeps_validity(old(self)@, child);
            assert(next@ =~= old(self)@.with_child(child));
            law_no_fault_is_valid(next@);
        }
        self.apply(next)
    }

    /// Remove the first child link named `child_id`.
    pub fn detach_child(&mut self, child_id: &String) -> (r: Result<(), RecordError>)
        requires
            old(self).wf(),
        ensures
            final(self).wf(),
            r is Ok <==> has_child(old(self)@.children, child_id@),
            match r {
                Ok(_) => exists|i: int|
                    {
                        &&& 0 <= i < old(self)@.children.len()
                        &&& #[trigger] old(self)@.children[i].child_id@ == child_id@
                        &&& forall|j: int|
                            0 <= j < i ==> (#[trigger] old(self)@.children[j]).child_id@
                                != child_id@
                        &&& final(self)@ == (RecordState {
                            children: old(self)@.children.remove(i),
                            ..old(self)@
                        })
                    },
                Err(e) => e@ == RecordFault::ChildNotFound(child_id@) && final(self)@ == old(self)@,
            },
    {
        match child_position(&self.record.children, child_id) {
            None => Err(RecordError::ChildNotFound(child_id.clone())),
            Some(i) => {
                let mut next: NodeRecord = self.record.copied();
                next.children.remove(i);
                proof {
                    law_detaching_keeps_validity(old(self)@, i as int);
                    assert(next@ =~= RecordState {
                        children: old(self)@.children.remove(i as int),
                        ..old(self)@
                    });
                    law_no_fault_is_valid(next@);
                    assert(has_child(old(self)@.children, child_id@)) by {
                        assert(old(self)@.children[i as int].child_id@ == child_id@);
                    }
                }
                self.apply(next)
            },
        }
    }

    /// Set this node's parent link. The new link starts at generation zero.
    pub fn set_parent(&mut self, parent_id: String, slot: u8) -> (r: Result<(), RecordError>)
        requires
            old(self).wf(),
        ensures
            final(self).wf(),
            ({
                let next = RecordState {
                    parent: Some(ParentLink { parent_id, slot, generation: 0 }),
                    ..old(self)@
                };
                match r {
                    Ok(_) => next.valid() && final(self)@ == next,
                    Err(e) => next.fault() == Some(e@) && final(self)@ == old(self)@,
                }
            }),
    {
        let ghost wanted = RecordState {
            parent: Some(ParentLink { parent_id, slot, generation: 0 }),
            ..old(self)@
        };
        let mut next: NodeRecord = self.record.copied();
        next.parent = Some(ParentLink { parent_id, slot, generation: 0 });
        assert(next@ =~= wanted);
        self.apply(next)
    }

    /// Clear this node's parent link, and with it a non-root address.
    pub fn unset_parent(&mut self) -> (r: Result<(), RecordError>)
        requires
            old(self).wf(),
        ensures
            final(self).wf(),
            r is Ok,
            final(self)@ == old(self)@.without_parent(),
    {
        let mut next: NodeRecord = self.record.copied();
        next.parent = None;
        let below_root: bool = match &next.address {
            Some(a) => !a.is_root(),
            None => false,
        };
        if below_root {
            next.set_address_value(None);
        }
        proof {
            law_detaching_keeps_validity(old(self)@, -1);
            assert(next@ =~= old(self)@.without_parent());
            law_no_fault_is_valid(next@);
        }
        self.apply(next)
    }

    /// Detach to an independent root network in one validated mutation. Doing
    /// it again changes nothing.
    pub fn rebase_to_root(&mut self) -> (r: Result<(), RecordError>)
        requires
            old(self).wf(),
        ensures
            final(self).wf(),
            r is Ok,
            final(self)@ == old(self)@.rebased(),
    {
        let mut next: NodeRecord = self.record.copied();
        next.parent = None;
        next.set_address_value(Some(OctAddr::Root));
        proof {
            law_detaching_keeps_validity(old(self)@, -1);
            assert(next@ =~= old(self)@.rebased());
            law_no_fault_is_valid(next@);
        }
        self.apply(next)
    }

    /// Assert this node's octal address.
    pub fn set_address(&mut self, address: OctAddr) -> (r: Result<(), RecordError>)
        requires
            old(self).wf(),
        ensures
            final(self).wf(),
            ({
                let next = old(self)@.with_address(Some(address));
                match r {
                    Ok(_) => next.valid() && final(self)@ == next,
                    Err(e) => next.fault() == Some(e@) && final(self)@ == old(self)@,
                }
            }),
    {
        let mut next: NodeRecord = self.record.copied();
        next.set_address_value(Some(address));
        self.apply(next)
    }

    /// Clear this node's asserted address. Always legal.
    pub fn unset_address(&mut self) -> (r: Result<(), RecordError>)
        requires
            old(self).wf(),
        ensures
            final(self).wf(),
            r is Ok,
            final(self)@ == old(self)@.with_address(None),
    {
        let mut next: NodeRecord = self.record.copied();
        next.set_address_value(None);
        proof {
            law_detaching_keeps_validity(old(self)@, -1);
            law_no_fault_is_valid(next@);
        }
        self.apply(next)
    }
}

impl NodeRecord {
    /// Store another address; the epoch advances exactly when the value
    /// changes. Every address mutation goes through here.
    fn set_address_value(&mut self, address: Option<OctAddr>)
        ensures
            final(self)@ == old(self)@.with_address(address),
            final(self).node_id == old(self).node_id,
    {
        if !same_address(&self.address, &address) {
            self.address = address;
            self.address_epoch = self.address_epoch.saturating_add(1);
        }
    }
}

proof fn lemma_slots_are_a_set(children: Seq<ChildEntry>)
    requires
        forall|i: int|
            0 <= i < children.len() ==> (#[trigger] children[i]).slot <= MAX_SLOT,
        forall|i: int, j: int|
            0 <= i < j < children.len() ==> (#[trigger] children[i]).slot != (
            #[trigger] children[j]).slot,
    ensures
        children.map_values(|c: ChildEntry| c.slot as int).no_duplicates(),
{
}

proof fn lemma_free_slot_bounds_children(state: RecordState, free: int)
    requires
        state.valid(),
        0 <= free <= MAX_SLOT,
        !slot_taken(state.children, free),
    ensures
        state.children.len() < MAX_CHILDREN,
{
    let slots = state.children.map_values(|c: ChildEntry| c.slot as int);
    lemma_slots_are_a_set(state.children);
    slots.unique_seq_to_set();
    let all = vstd::set_lib::set_int_range(0, 8);
    vstd::set_lib::lemma_int_range(0, 8);
    assert forall|s: int| slots.to_set().contains(s) implies all.remove(free).contains(s) by {
        let i = choose|i: int| 0 <= i < slots.len() && slots[i] == s;
        assert(state.children[i].slot == s);
    }
    vstd::set_lib::lemma_len_subset(slots.to_set(), all.remove(free));
}

/// What makes a record valid, in plain words: its parent is another node at an
/// octal slot; a root address goes with no parent and any other address with a
/// parent at its last digit; there are at most eight children, none of them the
/// node itself, each at its own octal slot.
pub proof fn law_records_are_valid_by_their_links(
    record: NodeRecord,
    r: Result<(), RecordError>,
    i: int,
    j: int,
)
    requires
        call_ensures(NodeRecord::validate, (&record,), r),
    ensures
        r is Ok ==> {
            &&& record.parent matches Some(link) ==> link.parent_id@ != record.node_id@ && link.slot
                <= 7
            &&& record.address == Some(OctAddr::Root) ==> record.parent is None
            &&& record.address matches Some(OctAddr::Child(up, slot)) ==> (
            record.parent matches Some(link) && link.slot == slot)
            &&& record.children@.len() <= 8
            &&& 0 <= i < record.children@.len() ==> record.children@[i].child_id@
                != record.node_id@ && record.children@[i].slot <= 7
            &&& 0 <= i < j < record.children@.len() ==> record.children@[i].slot
                != record.children@[j].slot
        },
        (record.parent matches Some(link) ==> link.parent_id@ != record.node_id@ && link.slot <= 7)
            && (match record.address {
            None => true,
            Some(OctAddr::Root) => record.parent is None,
            Some(OctAddr::Child(up, slot)) => record.parent matches Some(link) && link.slot == slot,
        }) && record.children@.len() <= 8 && (forall|a: int|
            0 <= a < record.children@.len() ==> (#[trigger] record.children@[a]).child_id@
                != record.node_id@ && record.children@[a].slot <= 7) && (forall|a: int, b: int|
            0 <= a < b < record.children@.len() ==> (#[trigger] record.children@[a]).slot != (
            #[trigger] record.children@[b]).slot) ==> r is Ok,
{
    law_no_fault_is_valid(record@);
}

/// A child that is attached is the last of the list, as it was given, at the slot
/// it was given or at the lowest free one; everything else stays. Detaching it
/// again gives back the record from before.
pub proof fn law_detach_undoes_attach(
    store: &mut RecordStore,
    child_id: String,
    kind: ChildKind,
    slot: Option<u8>,
    date_joined: u64,
    again: &mut RecordStore,
    r: Result<(), RecordError>,
)
    requires
        old(store).wf(),
        call_ensures(
            RecordStore::attach_child,
            (store, child_id, kind, slot, date_joined),
            Ok::<(), RecordError>(()),
        ),
        old(again)@ == final(store)@,
        call_ensures(RecordStore::detach_child, (again, &child_id), r),
    ensures
        ({
            let before = old(store)@.children;
            let after = final(store)@.children;
            &&& after.len() == before.len() + 1
            &&& after.drop_last() =~= before
            &&& after.last().child_id == child_id
            &&& after.last().kind == kind
            &&& after.last().date_joined == date_joined
            &&& after.last().slot <= 7
            &&& slot matches Some(s) ==> after.last().slot == s
            &&& slot is None ==> forall|s: int|
                0 <= s < after.last().slot ==> #[trigger] slot_taken(before, s)
            &&& !slot_taken(before, after.last().slot as int)
            &&& final(store)@.parent == old(store)@.parent
            &&& final(store)@.address == old(store)@.address
            &&& final(store)@.address_epoch == old(store)@.address_epoch
        }),
        r is Ok,
        final(again)@ == old(store)@,
{
    let before = old(store)@.children;
    let after = final(store)@.children;
    assert(after.drop_last() =~= before);
    assert(after[after.len() - 1].child_id@ == child_id@);
    assert(has_child(after, child_id@));
    assert forall|i: int| 0 <= i < before.len() implies (#[trigger] after[i]).child_id@
        != child_id@ by {
        assert(!has_child(before, child_id@));
        assert(before[i] == after[i]);
    }
    assert(after.remove(after.len() - 1) =~= before);
    assert(final(again)@.children =~= before);
}

/// A child is refused, and nothing changes, exactly where it is the node itself,
/// is linked already, asks for a slot that is none or is taken, or finds none free.
pub proof fn law_children_are_refused_for_cause(
    store: &mut RecordStore,
    child_id: String,
    kind: ChildKind,
    slot: Option<u8>,
    date_joined: u64,
    r: Result<(), RecordError>,
)
    requires
        call_ensures(
            RecordStore::attach_child,
            (store, child_id, kind, slot, date_joined),
            r,
        ),
    ensures
        r is Err <==> child_id@ == old(store)@.node_id || has_child(
            old(store)@.children,
            child_id@,
        ) || (match slot {
            Some(s) => s > 7 || slot_taken(old(store)@.children, s as int),
            None => forall|s: int|
                0 <= s <= 7 ==> #[trigger] slot_taken(old(store)@.children, s),
        }),
        r is Err ==> final(store)@ == old(store)@,
{
}

/// The lowest free slot is free, and every lower one is taken; there is none only
/// where all eight are taken.
pub proof fn law_lowest_slot_is_free(children: Vec<ChildEntry>, r: Option<u8>, i: int, t: u8)
    requires
        call_ensures(lowest_free_slot, (&children,), r),
    ensures
        r matches Some(s) ==> s <= 7 && (0 <= i < children@.len() ==> children@[i].slot != s) && (t
            < s ==> exists|k: int|
            #![trigger children@[k]]
            0 <= k < children@.len() && children@[k].slot == t),
        r is None && t <= 7 ==> exists|k: int|
            #![trigger children@[k]]
            0 <= k < children@.len() && children@[k].slot == t,
{
    if r is Some && 0 <= i < children@.len() && children@[i].slot == r->0 {
        assert(children@[i].slot == r->0 as int);
        assert(slot_taken(children@, r->0 as int));
    }
    if (r is Some && t < r->0) || (r is None && t <= 7) {
        let slot = t as int;
        if r is Some {
            assert(is_lowest_free(children@, r->0 as int));
            assert(slot_taken(children@, slot));
        } else {
            assert(is_full(children@));
            assert(slot_taken(children@, slot));
        }
        let k = choose|k: int| 0 <= k < children@.len() && #[trigger] children@[k].slot == t as int;
        assert(children@[k].slot == t);
    }
}

/// A parent link is set as asked, at generation zero, and the rest of the record
/// stays; unsetting it takes the link and a non-root address with it, and leaves
/// the children.
pub proof fn law_parent_links_come_and_go(
    store: &mut RecordStore,
    parent_id: String,
    slot: u8,
    leaving: &mut RecordStore,
    r: Result<(), RecordError>,
)
    requires
        call_ensures(
            RecordStore::set_parent,
            (store, parent_id, slot),
            Ok::<(), RecordError>(()),
        ),
        old(leaving)@ == final(store)@,
        call_ensures(RecordStore::unset_parent, (leaving,), r),
    ensures
        final(store)@.parent matches Some(link) && link.parent_id == parent_id && link.slot == slot
            && link.generation == 0,
        final(store)@.children == old(store)@.children,
        final(store)@.address == old(store)@.address,
        final(store)@.address_epoch == old(store)@.address_epoch,
        parent_id@ != old(store)@.node_id && slot <= 7,
        r is Ok,
        final(leaving)@.parent is None,
        final(leaving)@.address is None,
        final(leaving)@.children == old(store)@.children,
        final(leaving)@.node_id == old(store)@.node_id,
        final(leaving)@.address_epoch >= old(store)@.address_epoch,
        old(store)@.address is Some && old(store)@.address_epoch < u64::MAX
            ==> final(leaving)@.address_epoch == old(store)@.address_epoch + 1,
        old(store)@.address is None ==> final(leaving)@.address_epoch
            == old(store)@.address_epoch,
{
}

/// Rebasing makes the node the root of a network of its own: no parent, the root
/// address, the same children. The epoch moves on exactly where the address
/// changed.
pub proof fn law_rebased_node_is_a_root(store: &mut RecordStore, r: Result<(), RecordError>)
    requires
        call_ensures(RecordStore::rebase_to_root, (store,), r),
    ensures
        r is Ok,
        final(store)@.parent is None,
        final(store)@.address == Some(OctAddr::Root),
        final(store)@.children == old(store)@.children,
        final(store)@.node_id == old(store)@.node_id,
        old(store)@.address == Some(OctAddr::Root) ==> final(store)@.address_epoch
            == old(store)@.address_epoch,
        old(store)@.address != Some(OctAddr::Root) && old(store)@.address_epoch < u64::MAX
            ==> final(store)@.address_epoch == old(store)@.address_epoch + 1,
{
}

/// An address is set as asked, or refused without a change where it does not fit
/// the parent link: the root address goes without one, any other with one at its
/// last digit. The epoch counts the change. Unsetting it leaves no address.
pub proof fn law_addresses_are_set_and_unset(
    store: &mut RecordStore,
    address: OctAddr,
    r: Result<(), RecordError>,
    clearing: &mut RecordStore,
    q: Result<(), RecordError>,
)
    requires
        old(store).wf(),
        call_ensures(RecordStore::set_address, (store, address), r),
        old(clearing)@ == final(store)@,
        call_ensures(RecordStore::unset_address, (clearing,), q),
    ensures
        r is Ok <==> (match old(store)@.parent {
            Some(link) => address matches OctAddr::Child(up, slot) && slot == link.slot,
            None => address == OctAddr::Root,
        }),
        r is Ok ==> final(store)@.address == Some(address),
        r is Err ==> final(store)@ == old(store)@,
        final(store)@.parent == old(store)@.parent,
        final(store)@.children == old(store)@.children,
        r is Ok && old(store)@.address != Some(address) && old(store)@.address_epoch < u64::MAX
            ==> final(store)@.address_epoch == old(store)@.address_epoch + 1,
        old(store)@.address == Some(address) ==> final(store)@ == old(store)@,
        q is Ok,
        final(clearing)@.address is None,
        final(clearing)@.parent == old(store)@.parent,
        final(clearing)@.children == old(store)@.children,
{
    law_no_fault_is_valid(old(store)@.with_address(Some(address)));
}

/// The generation that was applied from a parent only goes up, belongs to the
/// link, and touches nothing else.
pub proof fn law_generations_only_rise(store: &mut RecordStore, generation: u64)
    requires
        call_ensures(RecordStore::set_parent_generation, (store, generation), ()),
    ensures
        old(store)@.parent is None ==> final(store)@ == old(store)@,
        old(store)@.parent matches Some(link) ==> (final(store)@.parent matches Some(next)
            && next.parent_id == link.parent_id && next.slot == link.slot && next.generation
            >= link.generation && next.generation >= generation && (next.generation
            == link.generation || next.generation == generation)),
        final(store)@.children == old(store)@.children,
        final(store)@.address == old(store)@.address,
        final(store)@.address_epoch == old(store)@.address_epoch,
{
}

/// A stored record is opened as it is, by the node it belongs to and by no other;
/// without one the node starts unattached.
pub proof fn law_records_open_for_their_node(
    record: NodeRecord,
    node_id: String,
    r: Result<RecordStore, RecordError>,
    fresh: Result<RecordStore, RecordError>,
)
    requires
        call_ensures(RecordStore::open, (Some(record), &node_id), r),
        call_ensures(RecordStore::open, (None::<NodeRecord>, &node_id), fresh),
    ensures
        r matches Ok(store) ==> store@ == record@ && record.node_id@ == node_id@,
        record@.valid() && record.node_id@ == node_id@ ==> r is Ok,
        record@.valid() && record.node_id@ != node_id@ ==> (r matches Err(e) && (
        e matches RecordError::IdMismatch { found, expected } && found@ == record.node_id@
            && expected@ == node_id@)),
        fresh matches Ok(store) && store@.node_id == node_id@ && store@.parent is None
            && store@.address is None && store@.children.len() == 0 && store@.address_epoch == 0,
{
    law_no_fault_is_valid(record@);
    law_no_fault_is_valid(RecordState::fresh(node_id@));
}

/// A child is found at its first place, and a slot is taken where some child has it.
pub proof fn law_children_are_found_by_id_and_slot(
    children: Vec<ChildEntry>,
    id: String,
    slot: u8,
    at: Option<usize>,
    taken: bool,
    k: int,
)
    requires
        call_ensures(child_position, (&children, &id), at),
        call_ensures(is_slot_taken, (&children, slot), taken),
    ensures
        at matches Some(i) ==> i < children@.len() && children@[i as int].child_id@ == id@ && (0
            <= k < i ==> children@[k].child_id@ != id@),
        0 <= k < children@.len() && children@[k].child_id@ == id@ ==> at is Some,
        0 <= k < children@.len() && children@[k].slot == slot ==> taken,
        taken ==> exists|j: int| #![trigger children@[j]]
            0 <= j < children@.len() && children@[j].slot == slot,
{
}

/// A kind is written under its own name and read back from it, and from no other.
pub proof fn law_kind_labels_are_read_back(
    kind: ChildKind,
    label: &'static str,
    text_of: String,
    r: Option<ChildKind>,
)
    requires
        call_ensures(ChildKind::label, (&kind,), label),
        call_ensures(ChildKind::from_label, (&text_of,), r),
    ensures
        text_of@ == label@ ==> r == Some(kind),
        r == Some(kind) ==> text_of@ == label@,
        kind is Node ==> label@ == "node"@,
        kind is User ==> label@ == "user"@,
{
    reveal_strlit("node");
    reveal_strlit("user");
    assert("node"@[0] != "user"@[0]);
}

/// A record that is kept can be saved as it stands, and its generation is its
/// parent link's, or zero without one.
pub proof fn law_kept_record_is_saved(
    store: RecordStore,
    saved: Result<&NodeRecord, RecordError>,
    generation: u64,
    epoch: u64,
)
    requires
        store.wf(),
        call_ensures(RecordStore::save, (&store,), saved),
        call_ensures(RecordStore::parent_generation, (&store,), generation),
        call_ensures(RecordStore::address_epoch, (&store,), epoch),
    ensures
        saved matches Ok(record) && record@ == store@,
        store@.parent is None ==> generation == 0,
        store@.parent matches Some(link) ==> generation == link.generation,
        epoch == store@.address_epoch,
{
}

/// A message on a record shows what it is about: the slot, the child, the file, and
/// where two things differ both of them, each in its own place.
pub proof fn law_record_messages_show_their_cause(e: RecordError, m: String)
    requires
        call_ensures(RecordError::text, (&e,), m),
    ensures
        e matches RecordError::IdMismatch { found, expected } ==> m@ == "record node_id '"@ + found@
            + "' does not match this node's endpoint id '"@ + expected@ + "'"@,
        e matches RecordError::AddressSlotMismatch { address_slot, parent_slot } ==> {
            &&& address_slot matches Some(slot) ==> text::occurs(
                m@,
                "Some("@ + text::decimal(slot as nat) + ")"@,
            )
            &&& text::occurs(
                m@,
                " does not match parent slot "@ + text::decimal(parent_slot as nat),
            )
        },
        e matches RecordError::SlotTaken(slot) ==> text::occurs(
            m@,
            text::decimal(slot as nat) + " is already taken"@,
        ),
        e matches RecordError::ChildNotFound(id) ==> text::occurs(m@, id@),
        e matches RecordError::DuplicateChild(id) ==> text::occurs(m@, id@),
        e matches RecordError::SelfReference(id) ==> text::occurs(m@, id@),
        e matches RecordError::Corrupt { path, detail } ==> text::occurs(
            m@,
            path@ + " is corrupt: "@ + detail@,
        ),
{
    let none = Seq::<char>::empty();
    match e {
        RecordError::AddressSlotMismatch { address_slot, parent_slot } => {
            let shown = match address_slot {
                Some(slot) => "Some("@ + text::decimal(slot as nat) + ")"@,
                None => "None"@,
            };
            let rest = " does not match parent slot "@ + text::decimal(parent_slot as nat);
            text::lemma_occurs_between("address slot "@, shown, rest);
            assert(m@ =~= ("address slot "@ + shown) + rest + none);
            text::lemma_occurs_between("address slot "@ + shown, rest, none);
        },
        RecordError::SlotTaken(slot) => {
            let part = text::decimal(slot as nat) + " is already taken"@;
            assert(m@ =~= "slot "@ + part + none);
            text::lemma_occurs_between("slot "@, part, none);
        },
        RecordError::ChildNotFound(id) => {
            text::lemma_occurs_between("child '"@, id@, "' not found"@);
        },
        RecordError::DuplicateChild(id) => {
            text::lemma_occurs_between("child '"@, id@, "' already present"@);
        },
        RecordError::SelfReference(id) => {
            text::lemma_occurs_between("node '"@, id@, "' cannot reference itself"@);
        },
        RecordError::Corrupt { path, detail } => {
            let part = path@ + " is corrupt: "@ + detail@;
            assert(m@ =~= "record file "@ + part + none);
            text::lemma_occurs_between("record file "@, part, none);
        },
        _ => {},
    }
}

} // verus!
