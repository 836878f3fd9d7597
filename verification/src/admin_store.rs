//! Admin grants: which other operator keys may administer this node.
//!
//! A stored document is taken over as a whole or not at all: a wrong version, a
//! malformed grant, a grant for another node, a bad signature or a duplicate
//! key is an error. Expired grants are kept, but give no authority.
use crate::text;
use crate::wire;
use crate::wire::OperatorPubKey;
use vstd::prelude::*;

verus! {

/// Name of the admin-grants file inside the data dir.
pub const ADMINS_FILE: &'static str = "admins.json";

/// Format version of the admin-grants document.
pub const ADMIN_STORE_VERSION: u32 = 1;

/// The most grants that a document may hold.
pub const MAX_ADMIN_ENTRIES: usize = 256;

/// What an admin may do.
#[derive(Debug, Clone, Copy, PartialEq, Eq, Structural)]
pub enum AdminScope {
    /// Everything on the admin surface.
    Admin,
}

/// What an operator grants.
#[derive(Debug)]
pub struct AdminGrant {
    /// The format version.
    pub version: u32,
    /// The node that may be administered.
    pub node: String,
    /// The operator key that may administer it.
    pub admin: OperatorPubKey,
    /// What it may do.
    pub scope: AdminScope,
    /// Unix seconds when the grant was made.
    pub granted_at: u64,
    /// Unix seconds of the last moment at which it holds.
    pub expiry: u64,
    /// A free note.
    pub label: Option<String>,
}

/// A grant with its signature, as the cryptography sees it.
#[derive(Debug)]
pub struct SignedAdminGrant {
    /// The grant.
    pub grant: AdminGrant,
    /// What is wrong with its structure, if anything.
    pub fault: Option<String>,
    /// The keys under which the signature holds.
    pub valid_under: Vec<OperatorPubKey>,
}

impl SignedAdminGrant {
    /// The signature holds under `key`.
    pub open spec fn spec_verifies(self, key: OperatorPubKey) -> bool {
        self.valid_under@.contains(key)
    }

    /// Whether the signature holds under `key`.
    pub fn verifies(&self, key: &OperatorPubKey) -> (r: bool)
        ensures
            r == self.spec_verifies(*key),
    {
        wire::holds_key(&self.valid_under, key)
    }
}

/// Errors raised while taking over a stored document.
#[derive(Debug, PartialEq, Eq)]
pub enum AdminStoreError {
    /// The document has another version.
    UnsupportedVersion(u32),
    /// The document holds too many grants.
    TooManyEntries {
        /// How many.
        len: usize,
        /// How many are allowed.
        max: usize,
    },
    /// A grant is malformed.
    InvalidGrant(String),
    /// A grant is for another node.
    NodeMismatch {
        /// The node of the grant.
        found: String,
        /// This node.
        expected: String,
    },
    /// A grant is not signed by this node's operator.
    InvalidSignature,
    /// Two grants name the same key.
    DuplicateAdmin,
}

impl AdminStoreError {
    /// The message shown for the error.
    pub open spec fn spec_text(self) -> Seq<char> {
        match self {
            AdminStoreError::UnsupportedVersion(version) => "unsupported admin store version "@
                + text::decimal(version as nat),
            AdminStoreError::TooManyEntries { len, max } => "admin store holds "@ + text::decimal(
                len as nat,
            ) + " grants, max "@ + text::decimal(max as nat),
            AdminStoreError::InvalidGrant(detail) => "stored admin grant is invalid: "@ + detail@,
            AdminStoreError::NodeMismatch { found, expected } => {
                "admin grant is scoped to node '"@ + found@ + "', expected '"@ + expected@ + "'"@
            },
            AdminStoreError::InvalidSignature => {
                "stored admin grant does not verify under this node's operator key"@
            },
            AdminStoreError::DuplicateAdmin => "admin store contains a duplicate admin key"@,
        }
    }

    /// The message shown for the error.
    pub fn text(&self) -> (r: String)
        ensures
            r@ == self.spec_text(),
    {
        match self {
            AdminStoreError::UnsupportedVersion(version) => {
                let mut r: String = "unsupported admin store version ".to_owned();
                r.append(text::u64_text(*version as u64).as_str());
                r
            },
            AdminStoreError::TooManyEntries { len, max } => {
                let mut r: String = "admin store holds ".to_owned();
                r.append(text::u64_text(*len as u64).as_str());
                r.append(" grants, max ");
                r.append(text::u64_text(*max as u64).as_str());
                r
            },
            AdminStoreError::InvalidGrant(detail) => {
                let mut r: String = "stored admin grant is invalid: ".to_owned();
                r.append(detail.as_str());
                r
            },
            AdminStoreError::NodeMismatch { found, expected } => {
                let mut r: String = "admin grant is scoped to node '".to_owned();
                r.append(found.as_str());
                r.append("', expected '");
                r.append(expected.as_str());
                r.append("'");
                r
            },
            AdminStoreError::InvalidSignature => {
                "stored admin grant does not verify under this node's operator key".to_owned()
            },
            AdminStoreError::DuplicateAdmin => {
                "admin store contains a duplicate admin key".to_owned()
            },
        }
    }
}

/// A stored document.
#[derive(Debug)]
pub struct AdminStoreDocument {
    /// The format version.
    pub version: u32,
    /// The grants, oldest first.
    pub admins: Vec<SignedAdminGrant>,
}

/// Another grant than the `i`-th names the same key.
pub open spec fn is_repeated(admins: Seq<SignedAdminGrant>, i: int) -> bool {
    exists|j: int|
        0 <= j < admins.len() && j != i && (#[trigger] admins[j]).grant.admin
            == admins[i].grant.admin
}

/// What is wrong with the `i`-th grant of a document.
pub open spec fn grant_fault(
    admins: Seq<SignedAdminGrant>,
    i: int,
    node_id: String,
    operator: OperatorPubKey,
) -> Option<AdminStoreError> {
    let entry = admins[i];
    if entry.fault is Some {
        Some(AdminStoreError::InvalidGrant(entry.fault->0))
    } else if entry.grant.node@ != node_id@ {
        Some(AdminStoreError::NodeMismatch { found: entry.grant.node, expected: node_id })
    } else if !entry.spec_verifies(operator) {
        Some(AdminStoreError::InvalidSignature)
    } else if is_repeated(admins, i) {
        Some(AdminStoreError::DuplicateAdmin)
    } else {
        None
    }
}

/// The `i`-th grant is the first with something wrong, and `e` is what.
pub open spec fn first_grant_fault(
    admins: Seq<SignedAdminGrant>,
    i: int,
    node_id: String,
    operator: OperatorPubKey,
    e: AdminStoreError,
) -> bool {
    &&& 0 <= i < admins.len()
    &&& grant_fault(admins, i, node_id, operator) == Some(e)
    &&& forall|j: int|
        0 <= j < i ==> (#[trigger] grant_fault(admins, j, node_id, operator)) is None
}

/// Nothing is wrong with any stored grant.
pub open spec fn is_faultless(
    admins: Seq<SignedAdminGrant>,
    node_id: String,
    operator: OperatorPubKey,
) -> bool {
    forall|i: int|
        0 <= i < admins.len() ==> (#[trigger] grant_fault(admins, i, node_id, operator)) is None
}

/// `e` is what is wrong with the first grant that something is wrong with.
pub open spec fn is_refused(
    admins: Seq<SignedAdminGrant>,
    node_id: String,
    operator: OperatorPubKey,
    e: AdminStoreError,
) -> bool {
    exists|i: int| #[trigger] first_grant_fault(admins, i, node_id, operator, e)
}

fn repeats(admins: &Vec<SignedAdminGrant>, i: usize) -> (r: bool)
    requires
        i < admins@.len(),
    ensures
        r == is_repeated(admins@, i as int),
{
    let mut j: usize = 0;
    while j < admins.len()
        invariant
            i < admins@.len(),
            j <= admins@.len(),
            forall|k: int|
                0 <= k < j && k != i ==> (#[trigger] admins@[k]).grant.admin
                    != admins@[i as int].grant.admin,
        decreases admins@.len() - j,
    {
        if j != i && text::same32(&admins[j].grant.admin, &admins[i].grant.admin) {
            return true;
        }
        j = j + 1;
    }
    false
}

/// The grants of this node, at most one per key.
#[derive(Debug)]
pub struct AdminStore {
    admins: Vec<SignedAdminGrant>,
}

impl View for AdminStore {
    type V = Seq<SignedAdminGrant>;

    closed spec fn view(&self) -> Seq<SignedAdminGrant> {
        self.admins@
    }
}

/// No two grants name the same key.
pub open spec fn distinct_admins(admins: Seq<SignedAdminGrant>) -> bool {
    forall|i: int, j: int|
        0 <= i < j < admins.len() ==> (#[trigger] admins[i]).grant.admin != (
        #[trigger] admins[j]).grant.admin
}

/// Position of the grant for `admin`.
pub open spec fn grant_at(admins: Seq<SignedAdminGrant>, admin: OperatorPubKey, i: int) -> bool {
    0 <= i < admins.len() && admins[i].grant.admin == admin
}

/// Some grant names `admin`.
pub open spec fn has_grant(admins: Seq<SignedAdminGrant>, admin: OperatorPubKey) -> bool {
    exists|i: int| #[trigger] grant_at(admins, admin, i)
}

/// The grants with the one for `admin` left out.
pub open spec fn without_admin(
    admins: Seq<SignedAdminGrant>,
    admin: OperatorPubKey,
) -> Seq<SignedAdminGrant> {
    admins.filter(|entry: SignedAdminGrant| entry.grant.admin != admin)
}

/// The grant for `admin` that holds at `now` gives `scope`.
pub open spec fn is_active(
    admins: Seq<SignedAdminGrant>,
    admin: OperatorPubKey,
    now: u64,
    scope: AdminScope,
) -> bool {
    exists|i: int| #[trigger]
        grant_at(admins, admin, i) && now <= admins[i].grant.expiry && admins[i].grant.scope
            == scope
}

/// The key has no grant that holds at `now`, in whatever scope.
pub open spec fn is_inactive(admins: Seq<SignedAdminGrant>, admin: OperatorPubKey, now: u64) -> bool {
    forall|scope: AdminScope| !#[trigger] is_active(admins, admin, now, scope)
}

impl AdminStore {
    /// No two grants name the same key.
    pub open spec fn wf(&self) -> bool {
        distinct_admins(self@)
    }

    /// No grants: nobody but the node's own operator has authority.
    pub fn empty() -> (r: AdminStore)
        ensures
            r@ == Seq::<SignedAdminGrant>::empty(),
            r.wf(),
    {
        AdminStore { admins: Vec::new() }
    }

    /// Take over a stored document; none is an empty store. The document is
    /// refused as a whole for the first thing that is wrong with it.
    pub fn load(
        stored: Option<AdminStoreDocument>,
        node_id: &String,
        operator: &OperatorPubKey,
    ) -> (r: Result<AdminStore, AdminStoreError>)
        ensures
            match stored {
                None => r matches Ok(store) && store.wf() && store@ == Seq::<
                    SignedAdminGrant,
                >::empty(),
                Some(doc) => if doc.version != ADMIN_STORE_VERSION {
                    r == Err::<AdminStore, AdminStoreError>(
                        AdminStoreError::UnsupportedVersion(doc.version),
                    )
                } else if doc.admins@.len() > MAX_ADMIN_ENTRIES {
                    r == Err::<AdminStore, AdminStoreError>(
                        AdminStoreError::TooManyEntries {
                            len: doc.admins@.len() as usize,
                            max: MAX_ADMIN_ENTRIES,
                        },
                    )
                } else {
                    match r {
                        Ok(store) => {
                            &&& store.wf()
                            &&& store@ == doc.admins@
                            &&& is_faultless(doc.admins@, *node_id, *operator)
                        },
                        Err(e) => is_refused(doc.admins@, *node_id, *operator, e),
                    }
                },
            },
    {
        let document: AdminStoreDocument = match stored {
            Some(document) => document,
            None => return Ok(AdminStore::empty()),
        };
        if document.version != ADMIN_STORE_VERSION {
            return Err(AdminStoreError::UnsupportedVersion(document.version));
        }
        let admins: Vec<SignedAdminGrant> = document.admins;
        if admins.len() > MAX_ADMIN_ENTRIES {
            return Err(
                AdminStoreError::TooManyEntries { len: admins.len(), max: MAX_ADMIN_ENTRIES },
            );
        }
        let mut i: usize = 0;
        while i < admins.len()
            invariant
                i <= admins@.len(),
                stored == Some(document),
                document.admins@ == admins@,
                document.version == ADMIN_STORE_VERSION,
                admins@.len() <= MAX_ADMIN_ENTRIES,
                forall|j: int|
                    0 <= j < i ==> (#[trigger] grant_fault(
                        admins@,
                        j,
                        *node_id,
                        *operator,
                    )) is None,
            decreases admins@.len() - i,
        {
            let entry: &SignedAdminGrant = &admins[i];
            match &entry.fault {
                Some(detail) => {
                    let e: AdminStoreError = AdminStoreError::InvalidGrant(detail.clone());
                    assert(first_grant_fault(admins@, i as int, *node_id, *operator, e));
                    return Err(e);
                },
                None => {},
            }
            if entry.grant.node != *node_id {
                let e: AdminStoreError = AdminStoreError::NodeMismatch {
                    found: entry.grant.node.clone(),
                    expected: node_id.clone(),
                };
                assert(first_grant_fault(admins@, i as int, *node_id, *operator, e));
                return Err(e);
            }
            if !entry.verifies(operator) {
                let e: AdminStoreError = AdminStoreError::InvalidSignature;
                assert(first_grant_fault(admins@, i as int, *node_id, *operator, e));
                return Err(e);
            }
            if repeats(&admins, i) {
                let e: AdminStoreError = AdminStoreError::DuplicateAdmin;
                assert(first_grant_fault(admins@, i as int, *node_id, *operator, e));
                return Err(e);
            }
            i = i + 1;
        }
        proof {
            assert forall|a: int, b: int| 0 <= a < b < admins@.len() implies (
            #[trigger] admins@[a]).grant.admin != (#[trigger] admins@[b]).grant.admin by {
                assert(grant_fault(admins@, a, *node_id, *operator) is None);
                assert(!is_repeated(admins@, a));
            }
        }
        Ok(AdminStore { admins })
    }

    /// Replace the grants with those of a fresh load. A load that failed is
    /// handed on and changes nothing: a caller that sees the error should empty
    /// the store rather than keep serving stale grants.
    pub fn reload(&mut self, loaded: Result<AdminStore, AdminStoreError>) -> (r: Result<
        (),
        AdminStoreError,
    >)
        requires
            old(self).wf(),
            loaded matches Ok(store) ==> store.wf(),
        ensures
            final(self).wf(),
            match loaded {
                Ok(store) => final(self)@ == store@ && r is Ok,
                Err(e) => *final(self) == *old(self) && r == Err::<(), AdminStoreError>(e),
            },
    {
        match loaded {
            Ok(store) => {
                self.admins = store.admins;
                Ok(())
            },
            Err(e) => Err(e),
        }
    }

    fn position(&self, admin: &OperatorPubKey) -> (r: Option<usize>)
        ensures
            match r {
                Some(i) => {
                    &&& grant_at(self@, *admin, i as int)
                    &&& forall|j: int|
                        0 <= j < i ==> (#[trigger] self@[j]).grant.admin != *admin
                },
                None => !has_grant(self@, *admin),
            },
    {
        let mut i: usize = 0;
        while i < self.admins.len()
            invariant
                i <= self.admins@.len(),
                self@ == self.admins@,
                forall|j: int|
                    0 <= j < i ==> (#[trigger] self.admins@[j]).grant.admin != *admin,
            decreases self.admins@.len() - i,
        {
            if text::same32(&self.admins[i].grant.admin, admin) {
                return Some(i);
            }
            i = i + 1;
        }
        None
    }

    /// Insert the grant, or replace the one for the same key in place.
    pub fn grant(&mut self, signed: SignedAdminGrant)
        requires
            old(self).wf(),
        ensures
            final(self).wf(),
            if has_grant(old(self)@, signed.grant.admin) {
                exists|i: int| #[trigger]
                    grant_at(old(self)@, signed.grant.admin, i) && final(self)@ == old(self)@.update(i, signed)
            } else {
                final(self)@ == old(self)@.push(signed)
            },
    {
        let ghost before = self@;
        match self.position(&signed.grant.admin) {
            Some(i) => {
                assert(grant_at(before, signed.grant.admin, i as int));
                self.admins.set(i, signed);
                assert(self@ =~= before.update(i as int, signed));
            },
            None => {
                proof {
                    assert forall|j: int| 0 <= j < before.len() implies (
                    #[trigger] before[j]).grant.admin != signed.grant.admin by {
                        assert(!grant_at(before, signed.grant.admin, j));
                    }
                }
                self.admins.push(signed);
            },
        }
    }

    /// Remove the grant for `admin` and say whether there was one.
    pub fn revoke(&mut self, admin: &OperatorPubKey) -> (r: bool)
        requires
            old(self).wf(),
        ensures
            final(self).wf(),
            r == has_grant(old(self)@, *admin),
            final(self)@ == without_admin(old(self)@, *admin),
    {
        let ghost before = self@;
        match self.position(admin) {
            Some(i) => {
                let _removed: SignedAdminGrant = self.admins.remove(i);
                proof {
                    lemma_one_removed(before, *admin, i as int);
                    assert(self@ =~= before.remove(i as int));
                    assert(distinct_admins(self@)) by {
                        let after = before.remove(i as int);
                        assert forall|a: int, b: int| 0 <= a < b < after.len() implies (
                        #[trigger] after[a]).grant.admin != (#[trigger] after[b]).grant.admin by {
                            let p = if a < i { a } else { a + 1 };
                            let q = if b < i { b } else { b + 1 };
                            assert(after[a] == before[p] && after[b] == before[q]);
                        }
                    }
                    assert(grant_at(before, *admin, i as int));
                }
                true
            },
            None => {
                proof {
                    lemma_none_removed(before, *admin);
                }
                false
            },
        }
    }

    /// The scope that `admin` holds at `now`.
    pub fn active_scope(&self, admin: &OperatorPubKey, now: u64) -> (r: Option<AdminScope>)
        requires
            self.wf(),
        ensures
            match r {
                Some(scope) => is_active(self@, *admin, now, scope),
                None => is_inactive(self@, *admin, now),
            },
    {
        match self.position(admin) {
            Some(i) => {
                let ghost at = i as int;
                assert(grant_at(self@, *admin, at));
                proof {
                    assert forall|j: int| #[trigger] grant_at(self@, *admin, j) implies j == at by {
                        if j < at {
                            assert(self@[j].grant.admin != self@[at].grant.admin);
                        } else if at < j {
                            assert(self@[at].grant.admin != self@[j].grant.admin);
                        }
                    }
                }
                if now <= self.admins[i].grant.expiry {
                    Some(self.admins[i].grant.scope)
                } else {
                    None
                }
            },
            None => None,
        }
    }

    /// All stored grants, oldest first, expired ones included.
    pub fn entries(&self) -> (r: &Vec<SignedAdminGrant>)
        ensures
            r@ == self@,
    {
        &self.admins
    }

    /// Number of stored grants, expired ones included.
    pub fn len(&self) -> (r: usize)
        ensures
            r == self@.len(),
    {
        self.admins.len()
    }

    /// Whether no grants are stored.
    pub fn is_empty(&self) -> (r: bool)
        ensures
            r == (self@.len() == 0),
    {
        self.admins.len() == 0
    }
}

pub(crate) proof fn lemma_none_removed(admins: Seq<SignedAdminGrant>, admin: OperatorPubKey)
    requires
        !has_grant(admins, admin),
    ensures
        without_admin(admins, admin) == admins,
    decreases admins.len(),
{
    reveal(Seq::filter);
    if admins.len() > 0 {
        assert forall|i: int| !#[trigger] grant_at(admins.drop_last(), admin, i) by {
            assert(!grant_at(admins, admin, i));
        }
        lemma_none_removed(admins.drop_last(), admin);
        assert(!grant_at(admins, admin, admins.len() - 1));
        assert(without_admin(admins, admin) =~= admins);
    } else {
        assert(without_admin(admins, admin) =~= admins);
    }
}

pub(crate) proof fn lemma_one_removed(admins: Seq<SignedAdminGrant>, admin: OperatorPubKey, i: int)
    requires
        distinct_admins(admins),
        grant_at(admins, admin, i),
    ensures
        without_admin(admins, admin) == admins.remove(i),
    decreases admins.len(),
{
    reveal(Seq::filter);
    let init = admins.drop_last();
    if i == admins.len() - 1 {
        assert forall|j: int| !#[trigger] grant_at(init, admin, j) by {
            if 0 <= j < init.len() {
                assert(admins[j].grant.admin != admins[i].grant.admin);
            }
        }
        lemma_none_removed(init, admin);
        assert(without_admin(admins, admin) =~= admins.remove(i));
    } else {
        assert forall|a: int, b: int| 0 <= a < b < init.len() implies (
        #[trigger] init[a]).grant.admin != (#[trigger] init[b]).grant.admin by {
            assert(init[a] == admins[a] && init[b] == admins[b]);
        }
        assert(grant_at(init, admin, i));
        lemma_one_removed(init, admin, i);
        assert(admins[i].grant.admin != admins[admins.len() - 1].grant.admin);
        assert(without_admin(admins, admin) =~= admins.remove(i));
    }
}

/// After a revocation the key has no authority, at any time, and every other
/// key keeps what it had.
pub proof fn law_revocation_is_final(
    admins: Seq<SignedAdminGrant>,
    admin: OperatorPubKey,
    other: OperatorPubKey,
    now: u64,
    scope: AdminScope,
)
    ensures
        !is_active(without_admin(admins, admin), admin, now, scope),
        other != admin ==> (is_active(without_admin(admins, admin), other, now, scope)
            <==> is_active(admins, other, now, scope)),
    decreases admins.len(),
{
    reveal(Seq::filter);
    let kept = without_admin(admins, admin);
    if admins.len() == 0 {
        assert(kept =~= admins);
        assert forall|i: int| !#[trigger] grant_at(kept, admin, i) by {}
    } else {
        let init = admins.drop_last();
        let kept_init = without_admin(init, admin);
        law_revocation_is_final(init, admin, other, now, scope);
        let last = admins.last();
        if last.grant.admin != admin {
            assert(kept =~= kept_init.push(last));
        } else {
            assert(kept =~= kept_init);
        }
        if is_active(kept, admin, now, scope) {
            let i = choose|i: int| #[trigger]
                grant_at(kept, admin, i) && now <= kept[i].grant.expiry && kept[i].grant.scope
                    == scope;
            assert(grant_at(kept_init, admin, i));
            assert(false);
        }
        if other != admin {
            if is_active(kept, other, now, scope) {
                let i = choose|i: int| #[trigger]
                    grant_at(kept, other, i) && now <= kept[i].grant.expiry && kept[i].grant.scope
                        == scope;
                if i < kept_init.len() {
                    assert(grant_at(kept_init, other, i));
                    assert(is_active(init, other, now, scope));
                    let k = choose|k: int| #[trigger]
                        grant_at(init, other, k) && now <= init[k].grant.expiry
                            && init[k].grant.scope == scope;
                    assert(grant_at(admins, other, k));
                } else {
                    assert(grant_at(admins, other, admins.len() - 1));
                }
            }
            if is_active(admins, other, now, scope) {
                let i = choose|i: int| #[trigger]
                    grant_at(admins, other, i) && now <= admins[i].grant.expiry
                        && admins[i].grant.scope == scope;
                if i < init.len() {
                    assert(grant_at(init, other, i));
                    assert(is_active(kept_init, other, now, scope));
                    let k = choose|k: int| #[trigger]
                        grant_at(kept_init, other, k) && now <= kept_init[k].grant.expiry
                            && kept_init[k].grant.scope == scope;
                    assert(grant_at(kept, other, k));
                } else {
                    assert(grant_at(kept, other, kept.len() - 1));
                }
            }
        }
    }
}

/// A grant holds up to and including its expiry and not after it.
pub proof fn law_expired_grants_are_inactive(
    admins: Seq<SignedAdminGrant>,
    admin: OperatorPubKey,
    i: int,
    now: u64,
    scope: AdminScope,
)
    requires
        distinct_admins(admins),
        grant_at(admins, admin, i),
    ensures
        is_active(admins, admin, now, scope) <==> now <= admins[i].grant.expiry
            && admins[i].grant.scope == scope,
{
    if is_active(admins, admin, now, scope) {
        let j = choose|j: int| #[trigger]
            grant_at(admins, admin, j) && now <= admins[j].grant.expiry && admins[j].grant.scope
                == scope;
        if i < j {
            assert(admins[i].grant.admin != admins[j].grant.admin);
        } else if j < i {
            assert(admins[j].grant.admin != admins[i].grant.admin);
        }
    }
}

/// A grant replaces the one of the same key where there is one and is otherwise
/// put behind the others; the other grants stay as they are, where they are. After
/// it the key is active in the grant's scope as long as the grant holds.
pub proof fn law_grants_replace_by_key(
    store: &mut AdminStore,
    signed: SignedAdminGrant,
    now: u64,
    i: int,
)
    requires
        old(store).wf(),
        call_ensures(AdminStore::grant, (store, signed), ()),
    ensures
        ({
            let before = old(store)@;
            let after = final(store)@;
            &&& 0 <= i < before.len() ==> i < after.len() && after[i] == (if before[i].grant.admin
                == signed.grant.admin {
                signed
            } else {
                before[i]
            })
            &&& before.len() <= i < after.len() ==> i == before.len() && after[i] == signed
            &&& is_active(after, signed.grant.admin, now, signed.grant.scope) <==> now
                <= signed.grant.expiry
        }),
{
    let before = old(store)@;
    let after = final(store)@;
    let key = signed.grant.admin;
    let at = if has_grant(before, key) {
        choose|k: int| #[trigger] grant_at(before, key, k) && after == before.update(k, signed)
    } else {
        before.len() as int
    };
    assert(grant_at(after, key, at));
    assert(after[at] == signed);
    assert forall|k: int| #[trigger] grant_at(after, key, k) implies k == at by {
        if k < at {
            assert(after[k].grant.admin != after[at].grant.admin);
        } else if at < k {
            assert(after[at].grant.admin != after[k].grant.admin);
        }
    }
    if 0 <= i < before.len() {
        if before[i].grant.admin == key {
            assert(grant_at(before, key, i));
            if i < at {
                assert(before[i].grant.admin != before[at].grant.admin);
            } else if at < i {
                assert(before[at].grant.admin != before[i].grant.admin);
            }
        }
    }
    if is_active(after, key, now, signed.grant.scope) {
        let k = choose|k: int| #[trigger]
            grant_at(after, key, k) && now <= after[k].grant.expiry && after[k].grant.scope
                == signed.grant.scope;
        assert(k == at);
    }
}

/// A revoked key is gone, whether it was there is told, and every other grant
/// stays in its order.
pub proof fn law_revocation_takes_out_one_key(
    store: &mut AdminStore,
    admin: OperatorPubKey,
    r: bool,
    i: int,
)
    requires
        old(store).wf(),
        call_ensures(AdminStore::revoke, (store, &admin), r),
    ensures
        ({
            let before = old(store)@;
            let after = final(store)@;
            &&& !r ==> after == before
            &&& r ==> after.len() + 1 == before.len()
            &&& 0 <= i < before.len() && before[i].grant.admin == admin ==> r && after
                == before.take(i) + before.skip(i + 1)
            &&& 0 <= i < after.len() ==> after[i].grant.admin != admin
        }),
{
    let before = old(store)@;
    let after = final(store)@;
    if has_grant(before, admin) {
        let k = choose|k: int| #[trigger] grant_at(before, admin, k);
        lemma_one_removed(before, admin, k);
        if 0 <= i < before.len() && before[i].grant.admin == admin {
            if i < k {
                assert(before[i].grant.admin != before[k].grant.admin);
            } else if k < i {
                assert(before[k].grant.admin != before[i].grant.admin);
            }
            assert(after =~= before.take(i) + before.skip(i + 1));
        }
        if 0 <= i < after.len() {
            let p = if i < k { i } else { i + 1 };
            assert(after[i] == before[p]);
            if p < k {
                assert(before[p].grant.admin != before[k].grant.admin);
            } else {
                assert(before[k].grant.admin != before[p].grant.admin);
            }
        }
    } else {
        lemma_none_removed(before, admin);
        if 0 <= i < before.len() {
            assert(!grant_at(before, admin, i));
        }
    }
}

/// A key acts in the scope of its own grant, up to and with the second at which it
/// ends. A key without a grant does not act.
pub proof fn law_scope_is_that_of_the_grant(
    store: AdminStore,
    admin: OperatorPubKey,
    now: u64,
    r: Option<AdminScope>,
    i: int,
)
    requires
        store.wf(),
        call_ensures(AdminStore::active_scope, (&store, &admin, now), r),
    ensures
        0 <= i < store@.len() && store@[i].grant.admin == admin ==> r == (if now
            <= store@[i].grant.expiry {
            Some(store@[i].grant.scope)
        } else {
            None
        }),
        r is Some ==> exists|k: int| #![trigger store@[k]]
            0 <= k < store@.len() && store@[k].grant.admin == admin,
{
    let admins = store@;
    if 0 <= i < admins.len() && admins[i].grant.admin == admin {
        assert(grant_at(admins, admin, i));
        assert forall|k: int| #[trigger] grant_at(admins, admin, k) implies k == i by {
            if k < i {
                assert(admins[k].grant.admin != admins[i].grant.admin);
            } else if i < k {
                assert(admins[i].grant.admin != admins[k].grant.admin);
            }
        }
        if now <= admins[i].grant.expiry {
            assert(is_active(admins, admin, now, admins[i].grant.scope));
        }
    }
    if r is Some {
        let k = choose|k: int| #[trigger]
            grant_at(admins, admin, k) && now <= admins[k].grant.expiry && admins[k].grant.scope
                == r->0;
        assert(admins[k].grant.admin == admin);
    }
}

/// A stored document is taken over whole or not at all: one of another version,
/// with too many grants, or with a grant that is malformed, of another node, not
/// signed by the operator or of a key that has another, is refused, and no other
/// is. No document is no grants.
pub proof fn law_documents_are_taken_over_whole(
    stored: Option<AdminStoreDocument>,
    node_id: String,
    operator: OperatorPubKey,
    r: Result<AdminStore, AdminStoreError>,
    i: int,
    j: int,
)
    requires
        call_ensures(AdminStore::load, (stored, &node_id, &operator), r),
    ensures
        stored is None ==> r is Ok && r->Ok_0@.len() == 0,
        stored matches Some(doc) ==> {
            let admins = doc.admins@;
            &&& doc.version != 1 || admins.len() > 256 ==> r is Err
            &&& r matches Ok(store) ==> store@ == admins
            &&& 0 <= i < admins.len() && (admins[i].fault is Some || admins[i].grant.node@
                != node_id@ || !admins[i].valid_under@.contains(operator)) ==> r is Err
            &&& 0 <= i < j < admins.len() && admins[i].grant.admin == admins[j].grant.admin ==> r
                is Err
            &&& r matches Err(e) ==> match e {
                AdminStoreError::UnsupportedVersion(version) => version == doc.version && version
                    != 1,
                AdminStoreError::TooManyEntries { len, max } => len == admins.len() as usize && max
                    == 256 && admins.len() > max,
                AdminStoreError::InvalidGrant(detail) => exists|k: int| #![trigger admins[k]]
                    0 <= k < admins.len() && admins[k].fault == Some(detail),
                AdminStoreError::NodeMismatch { found, expected } => expected == node_id && exists|
                    k: int,
                | #![trigger admins[k]]
                    0 <= k < admins.len() && admins[k].grant.node == found && found@ != node_id@,
                AdminStoreError::InvalidSignature => exists|k: int| #![trigger admins[k]]
                    0 <= k < admins.len() && !admins[k].valid_under@.contains(operator),
                AdminStoreError::DuplicateAdmin => exists|a: int, b: int|
                    #![trigger admins[a], admins[b]]
                    0 <= a < admins.len() && 0 <= b < admins.len() && a != b
                        && admins[a].grant.admin == admins[b].grant.admin,
            }
        },
{
    match stored {
        Some(doc) => {
            let admins = doc.admins@;
            if 0 <= i < admins.len() {
                assert(r is Ok ==> grant_fault(admins, i, node_id, operator) is None);
                if i < j < admins.len() && admins[i].grant.admin == admins[j].grant.admin {
                    assert(is_repeated(admins, i));
                }
            }
            if r is Err && doc.version == ADMIN_STORE_VERSION && admins.len()
                <= MAX_ADMIN_ENTRIES {
                let e = r->Err_0;
                let k = choose|k: int| #[trigger]
                    first_grant_fault(admins, k, node_id, operator, e);
                let entry = admins[k];
                if e is NodeMismatch {
                    assert(entry.grant.node == e->found);
                } else if e is DuplicateAdmin {
                    assert(is_repeated(admins, k));
                    let b = choose|b: int|
                        0 <= b < admins.len() && b != k && (#[trigger] admins[b]).grant.admin
                            == admins[k].grant.admin;
                    assert(entry.grant.admin == admins[b].grant.admin);
                }
            }
        },
        None => {},
    }
}

/// A reload takes over what was loaded; where loading failed, the grants stay and
/// the failure is passed on.
pub proof fn law_failed_reload_keeps_the_grants(
    store: &mut AdminStore,
    loaded: Result<AdminStore, AdminStoreError>,
    r: Result<(), AdminStoreError>,
)
    requires
        old(store).wf(),
        call_ensures(AdminStore::reload, (store, loaded), r),
    ensures
        r is Ok <==> loaded is Ok,
        loaded matches Ok(fresh) ==> final(store)@ == fresh@,
        loaded matches Err(e) ==> final(store)@ == old(store)@ && r->Err_0 == e,
{
}

/// A message on stored grants shows what was found and what was expected, each in
/// its own place.
pub proof fn law_grant_messages_tell_found_from_expected(e: AdminStoreError, m: String)
    requires
        call_ensures(AdminStoreError::text, (&e,), m),
    ensures
        e matches AdminStoreError::NodeMismatch { found, expected } ==> m@
            == "admin grant is scoped to node '"@ + found@ + "', expected '"@ + expected@ + "'"@,
        e matches AdminStoreError::TooManyEntries { len, max } ==> {
            &&& text::occurs(m@, "admin store holds "@ + text::decimal(len as nat))
            &&& text::occurs(m@, " grants, max "@ + text::decimal(max as nat))
        },
        e matches AdminStoreError::UnsupportedVersion(version) ==> text::occurs(
            m@,
            "version "@ + text::decimal(version as nat),
        ),
        e matches AdminStoreError::InvalidGrant(detail) ==> text::occurs(m@, detail@),
{
    let none = Seq::<char>::empty();
    match e {
        AdminStoreError::TooManyEntries { len, max } => {
            let label = "admin store holds "@;
            let first = label + text::decimal(len as nat);
            text::lemma_next_is_shown(none, label, text::decimal(len as nat), none);
            assert(none + label + text::decimal(len as nat) =~= first);
            text::lemma_still_shown(first, first, " grants, max "@, text::decimal(max as nat));
            text::lemma_next_is_shown(first, " grants, max "@, text::decimal(max as nat), none);
        },
        AdminStoreError::UnsupportedVersion(version) => {
            assert("unsupported admin store version "@ =~= "unsupported admin store "@
                + "version "@) by {
                reveal_strlit("unsupported admin store version ");
                reveal_strlit("unsupported admin store ");
                reveal_strlit("version ");
            }
            text::lemma_next_is_shown(
                "unsupported admin store "@,
                "version "@,
                text::decimal(version as nat),
                none,
            );
        },
        AdminStoreError::InvalidGrant(detail) => {
            text::lemma_occurs_between("stored admin grant is invalid: "@, detail@, none);
            assert("stored admin grant is invalid: "@ + detail@ + none
                =~= "stored admin grant is invalid: "@ + detail@);
        },
        _ => {},
    }
}

} // verus!
