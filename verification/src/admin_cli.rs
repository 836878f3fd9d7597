//! The operator's commands on admin grants.
use crate::admin_store;
use crate::admin_store::{
    AdminGrant, AdminScope, AdminStore, AdminStoreError, SignedAdminGrant,
};
use crate::text;
use crate::wire::OperatorPubKey;
use vstd::prelude::*;

verus! {

/// Errors that a command on admin grants can give.
#[derive(Debug, PartialEq, Eq)]
pub enum AdminCliError {
    /// The key is this node's own operator key.
    SelfAdmin,
    /// The grant is malformed.
    InvalidGrant(String),
    /// The stored grants could not be taken over.
    Store(AdminStoreError),
    /// No grant is stored for the key.
    UnknownAdmin(String),
}

impl AdminCliError {
    /// The message shown for the error.
    pub open spec fn spec_text(self) -> Seq<char> {
        match self {
            AdminCliError::SelfAdmin => {
                "admin key equals this node's own operator key; refusing to grant self-administration"@
            },
            AdminCliError::InvalidGrant(detail) => "invalid admin grant: "@ + detail@,
            AdminCliError::Store(err) => "admin store: "@ + err.spec_text(),
            AdminCliError::UnknownAdmin(admin) => "admin '"@ + admin@ + "' is not registered"@,
        }
    }

    /// The message shown for the error.
    pub fn text(&self) -> (r: String)
        ensures
            r@ == self.spec_text(),
    {
        match self {
            AdminCliError::SelfAdmin => {
                "admin key equals this node's own operator key; refusing to grant self-administration".to_owned()
            },
            AdminCliError::InvalidGrant(detail) => {
                let mut r: String = "invalid admin grant: ".to_owned();
                r.append(detail.as_str());
                r
            },
            AdminCliError::Store(err) => {
                let mut r: String = "admin store: ".to_owned();
                r.append(err.text().as_str());
                r
            },
            AdminCliError::UnknownAdmin(admin) => {
                text::between("admin '", admin.as_str(), "' is not registered")
            },
        }
    }
}

/// Draw up a grant for `admin`: for this node, from now on, until `expiry` or
/// for the usual time. This node's own key needs none.
pub fn grant(
    node_id: &String,
    operator: &OperatorPubKey,
    admin: OperatorPubKey,
    expiry: Option<u64>,
    label: Option<String>,
    now: u64,
    version: u32,
    default_ttl: u64,
) -> (r: Result<AdminGrant, AdminCliError>)
    ensures
        if admin == *operator {
            r == Err::<AdminGrant, AdminCliError>(AdminCliError::SelfAdmin)
        } else {
            r == Ok::<AdminGrant, AdminCliError>(
                AdminGrant {
                    version,
                    node: *node_id,
                    admin,
                    scope: AdminScope::Admin,
                    granted_at: now,
                    expiry: match expiry {
                        Some(expiry) => expiry,
                        None => if now + default_ttl > u64::MAX {
                            u64::MAX
                        } else {
                            (now + default_ttl) as u64
                        },
                    },
                    label,
                },
            )
        },
{
    if text::same32(&admin, operator) {
        return Err(AdminCliError::SelfAdmin);
    }
    let until: u64 = match expiry {
        Some(expiry) => expiry,
        None => now.saturating_add(default_ttl),
    };
    Ok(
        AdminGrant {
            version,
            node: node_id.clone(),
            admin,
            scope: AdminScope::Admin,
            granted_at: now,
            expiry: until,
            label,
        },
    )
}

/// Store a signed grant, unless it is malformed. Save the store afterwards.
pub fn store_grant(store: &mut AdminStore, signed: SignedAdminGrant) -> (r: Result<
    (),
    AdminCliError,
>)
    requires
        old(store).wf(),
    ensures
        final(store).wf(),
        match signed.fault {
            Some(detail) => r == Err::<(), AdminCliError>(AdminCliError::InvalidGrant(detail))
                && final(store)@ == old(store)@,
            None => r == Ok::<(), AdminCliError>(()) && if admin_store::has_grant(
                old(store)@,
                signed.grant.admin,
            ) {
                exists|i: int| #[trigger]
                    admin_store::grant_at(old(store)@, signed.grant.admin, i) && final(store)@
                        == old(store)@.update(i, signed)
            } else {
                final(store)@ == old(store)@.push(signed)
            },
        },
{
    match &signed.fault {
        Some(detail) => return Err(AdminCliError::InvalidGrant(detail.clone())),
        None => {},
    }
    store.grant(signed);
    Ok(())
}

/// Withdraw the grant of `admin`. Save the store afterwards.
pub fn revoke(store: &mut AdminStore, admin: &OperatorPubKey) -> (r: Result<(), AdminCliError>)
    requires
        old(store).wf(),
    ensures
        final(store).wf(),
        final(store)@ == admin_store::without_admin(old(store)@, *admin),
        match r {
            Ok(_) => admin_store::has_grant(old(store)@, *admin),
            Err(e) => !admin_store::has_grant(old(store)@, *admin) && (
            e matches AdminCliError::UnknownAdmin(shown) && shown@ == text::hex_lower(admin@)),
        },
{
    if !store.revoke(admin) {
        return Err(AdminCliError::UnknownAdmin(text::hex_text(admin.as_slice())));
    }
    Ok(())
}

/// One row of the list of grants.
#[derive(Debug)]
pub struct AdminListEntry {
    /// The key.
    pub admin: OperatorPubKey,
    /// What it may do.
    pub scope: AdminScope,
    /// Unix seconds when the grant was made.
    pub granted_at: u64,
    /// Unix seconds of the last moment at which it holds.
    pub expiry: u64,
    /// A free note.
    pub label: Option<String>,
}

/// The row shows the grant.
pub open spec fn is_row(grant: AdminGrant, row: AdminListEntry) -> bool {
    &&& row.admin == grant.admin
    &&& row.scope == grant.scope
    &&& row.granted_at == grant.granted_at
    &&& row.expiry == grant.expiry
    &&& row.label == grant.label
}

/// The label of a scope.
pub open spec fn spec_scope_label(scope: AdminScope) -> Seq<char> {
    match scope {
        AdminScope::Admin => "admin"@,
    }
}

/// The label of a scope.
pub fn scope_label(scope: AdminScope) -> (r: &'static str)
    ensures
        r@ == spec_scope_label(scope),
{
    match scope {
        AdminScope::Admin => "admin",
    }
}

impl AdminListEntry {
    /// The line for the row at the time `now`.
    pub fn render(&self, now: u64) -> (r: String)
        ensures
            r@ == text::hex_lower(self.admin@) + " scope="@ + spec_scope_label(self.scope)
                + " granted="@ + text::decimal(self.granted_at as nat) + " expires="@
                + text::decimal(self.expiry as nat) + " label="@ + (match self.label {
                Some(label) => label@,
                None => "-"@,
            }) + " status="@ + (if now <= self.expiry {
                "active"@
            } else {
                "expired"@
            }),
    {
        let mut r: String = text::hex_text(self.admin.as_slice());
        r.append(" scope=");
        r.append(scope_label(self.scope));
        r.append(" granted=");
        r.append(text::u64_text(self.granted_at).as_str());
        r.append(" expires=");
        r.append(text::u64_text(self.expiry).as_str());
        r.append(" label=");
        match &self.label {
            Some(label) => r.append(label.as_str()),
            None => r.append("-"),
        }
        r.append(" status=");
        if now <= self.expiry {
            r.append("active");
        } else {
            r.append("expired");
        }
        r
    }
}

/// The stored grants, oldest first, expired ones included.
pub fn list(store: &AdminStore) -> (r: Vec<AdminListEntry>)
    ensures
        r@.len() == store@.len(),
        forall|i: int| 0 <= i < r@.len() ==> is_row(store@[i].grant, #[trigger] r@[i]),
{
    let entries: &Vec<SignedAdminGrant> = store.entries();
    let mut r: Vec<AdminListEntry> = Vec::new();
    let mut i: usize = 0;
    while i < entries.len()
        invariant
            i <= entries@.len(),
            r@.len() == i,
            forall|j: int| 0 <= j < i ==> is_row(entries@[j].grant, #[trigger] r@[j]),
        decreases entries@.len() - i,
    {
        let grant: &AdminGrant = &entries[i].grant;
        r.push(
            AdminListEntry {
                admin: grant.admin,
                scope: grant.scope,
                granted_at: grant.granted_at,
                expiry: grant.expiry,
                label: match &grant.label {
                    Some(label) => Some(label.clone()),
                    None => None,
                },
            },
        );
        i = i + 1;
    }
    r
}

/// A grant is for the key that was named, for this node, in the one scope, from
/// now on; it ends when it was told to, or after the usual time. The operator's own
/// key is refused, and no other is.
pub proof fn law_grants_are_made_as_asked(
    node_id: String,
    operator: OperatorPubKey,
    admin: OperatorPubKey,
    expiry: Option<u64>,
    label: Option<String>,
    now: u64,
    version: u32,
    default_ttl: u64,
    r: Result<AdminGrant, AdminCliError>,
)
    requires
        call_ensures(
            grant,
            (&node_id, &operator, admin, expiry, label, now, version, default_ttl),
            r,
        ),
    ensures
        r is Err <==> admin == operator,
        r matches Err(e) ==> e is SelfAdmin,
        r matches Ok(made) ==> {
            &&& made.admin == admin
            &&& made.node@ == node_id@
            &&& made.granted_at == now
            &&& made.version == version
            &&& made.label == label
            &&& made.scope is Admin
            &&& expiry matches Some(until) ==> made.expiry == until
            &&& expiry is None ==> now <= made.expiry <= now + default_ttl && (made.expiry
                < u64::MAX ==> made.expiry == now + default_ttl)
        },
{
}

/// A grant that is stored takes the place of the key's former one, or the last
/// place, and every other grant stays. A malformed one changes nothing.
pub proof fn law_stored_grants_replace_by_key(
    store: &mut AdminStore,
    signed: SignedAdminGrant,
    r: Result<(), AdminCliError>,
    i: int,
)
    requires
        old(store).wf(),
        call_ensures(store_grant, (store, signed), r),
    ensures
        ({
            let before = old(store)@;
            let after = final(store)@;
            &&& r is Ok <==> signed.fault is None
            &&& r is Err ==> after == before
            &&& r is Ok && 0 <= i < before.len() ==> i < after.len() && after[i] == (
            if before[i].grant.admin == signed.grant.admin {
                signed
            } else {
                before[i]
            })
            &&& r is Ok && before.len() <= i < after.len() ==> i == before.len() && after[i]
                == signed
            &&& r is Ok ==> after.len() >= before.len() && exists|k: int| #![trigger after[k]]
                0 <= k < after.len() && after[k] == signed
        }),
{
    let before = old(store)@;
    let after = final(store)@;
    let key = signed.grant.admin;
    if r is Ok {
        if admin_store::has_grant(before, key) {
            let at = choose|k: int| #[trigger]
                admin_store::grant_at(before, key, k) && after == before.update(k, signed);
            assert(after[at] == signed);
            if 0 <= i < before.len() && before[i].grant.admin == key {
                if i < at {
                    assert(before[i].grant.admin != before[at].grant.admin);
                } else if at < i {
                    assert(before[at].grant.admin != before[i].grant.admin);
                }
            }
        } else {
            assert(after[before.len() as int] == signed);
            if 0 <= i < before.len() {
                assert(!admin_store::grant_at(before, key, i));
            }
        }
    }
}

/// A key is revoked exactly where it has a grant; after it no grant is the key's.
pub proof fn law_revoking_names_a_known_key(
    store: &mut AdminStore,
    admin: OperatorPubKey,
    r: Result<(), AdminCliError>,
    i: int,
)
    requires
        old(store).wf(),
        call_ensures(revoke, (store, &admin), r),
    ensures
        0 <= i < old(store)@.len() && old(store)@[i].grant.admin == admin ==> r is Ok,
        r matches Err(e) ==> e is UnknownAdmin && (0 <= i < old(store)@.len() ==> old(
            store,
        )@[i].grant.admin != admin),
        0 <= i < final(store)@.len() ==> final(store)@[i].grant.admin != admin && old(
            store,
        )@.contains(final(store)@[i]),
{
    let before = old(store)@;
    let after = final(store)@;
    if 0 <= i < before.len() && before[i].grant.admin == admin {
        assert(admin_store::grant_at(before, admin, i));
    }
    if admin_store::has_grant(before, admin) {
        let k = choose|k: int| #[trigger] admin_store::grant_at(before, admin, k);
        admin_store::lemma_one_removed(before, admin, k);
        if 0 <= i < after.len() {
            let p = if i < k { i } else { i + 1 };
            assert(after[i] == before[p]);
            if p < k {
                assert(before[p].grant.admin != before[k].grant.admin);
            } else {
                assert(before[k].grant.admin != before[p].grant.admin);
            }
        }
    } else {
        admin_store::lemma_none_removed(before, admin);
        if 0 <= i < before.len() {
            assert(!admin_store::grant_at(before, admin, i));
        }
    }
}

/// The list shows every grant in its order, as it was granted.
pub proof fn law_list_shows_every_grant(store: AdminStore, r: Vec<AdminListEntry>, i: int)
    requires
        call_ensures(list, (&store,), r),
    ensures
        r@.len() == store@.len(),
        0 <= i < r@.len() ==> {
            let grant = store@[i].grant;
            &&& r@[i].admin == grant.admin
            &&& r@[i].scope == grant.scope
            &&& r@[i].granted_at == grant.granted_at
            &&& r@[i].expiry == grant.expiry
            &&& r@[i].label == grant.label
        },
{
}

/// A line on a grant begins with its key and shows when it was granted and when it
/// ends; it is active up to and with that second and expired after it.
pub proof fn law_grant_lines_show_the_status(entry: AdminListEntry, now: u64, r: String)
    requires
        call_ensures(AdminListEntry::render, (&entry, now), r),
    ensures
        r@.take(text::hex_lower(entry.admin@).len() as int) == text::hex_lower(entry.admin@),
        text::occurs(r@, " granted="@ + text::decimal(entry.granted_at as nat) + " expires="@),
        text::occurs(r@, " expires="@ + text::decimal(entry.expiry as nat) + " label="@),
        now <= entry.expiry ==> text::occurs(r@, " status="@ + "active"@),
        now > entry.expiry ==> text::occurs(r@, " status="@ + "expired"@),
        entry.label matches Some(label) ==> text::occurs(r@, " label="@ + label@ + " status="@),
{
    let none = Seq::<char>::empty();
    let key = text::hex_lower(entry.admin@);
    let scope = spec_scope_label(entry.scope);
    let from = text::decimal(entry.granted_at as nat);
    let to = text::decimal(entry.expiry as nat);
    let name = match entry.label {
        Some(label) => label@,
        None => "-"@,
    };
    let status = if now <= entry.expiry { "active"@ } else { "expired"@ };
    let head = key + " scope="@ + scope;
    let a = " granted="@ + from + " expires="@;
    let b = " expires="@ + to + " label="@;
    let c = " label="@ + name + " status="@;
    let d = " status="@ + status;
    assert(r@.take(key.len() as int) =~= key);
    assert(r@ =~= head + a + (to + " label="@ + name + d));
    assert(r@ =~= (head + " granted="@ + from) + b + (name + d));
    assert(r@ =~= (head + a + to) + c + status);
    assert(r@ =~= (head + a + to + " label="@ + name) + d + none);
    text::lemma_occurs_between(head, a, to + " label="@ + name + d);
    text::lemma_occurs_between(head + " granted="@ + from, b, name + d);
    text::lemma_occurs_between(head + a + to, c, status);
    text::lemma_occurs_between(head + a + to + " label="@ + name, d, none);
}

} // verus!
