//! Evidence of a stranded claim, and where this node stands to its parent.
//!
//! A bundle proves the parent balance against the head of the commitment
//! chain, so the chain must reach the ledger's head before one is built. What
//! it shows is self-attested: the child keeps its own ledger.
use crate::endpoint;
use crate::ledger_commitments::{CommitmentLog, SignedCommitment};
use crate::record::NodeRecord;
use crate::text;
use vstd::prelude::*;

verus! {

/// The largest bundle file that is reviewed, in bytes.
pub const MAX_BUNDLE_FILE_BYTES: u64 = 1048576;

/// The most ancestor commitments that a bundle carries.
pub const MAX_BUNDLE_CHAIN: usize = 128;

/// Whether a commitment must be appended before a bundle is built: where there
/// is none, or where the ledger has grown past the last one. A chain that is
/// ahead of the ledger is an error.
pub fn needs_commit(log: &CommitmentLog, ledger_len: u64) -> (r: Result<bool, String>)
    ensures
        ({
            let chain = log.commitments();
            let height: u64 = if chain.len() == 0 {
                0
            } else {
                chain.last().height
            };
            match r {
                Ok(commit) => height <= ledger_len && commit == (chain.len() == 0 || ledger_len
                    > height),
                Err(m) => height > ledger_len && m@ == "commitment head height "@ + text::decimal(
                    height as nat,
                ) + " is ahead of the ledger's "@ + text::decimal(ledger_len as nat)
                    + " entries; the commitment log and ledger disagree"@,
            }
        }),
{
    let height: u64 = log.height();
    if height > ledger_len {
        let mut m: String = text::between(
            "commitment head height ",
            text::u64_text(height).as_str(),
            " is ahead of the ledger's ",
        );
        m.append(text::u64_text(ledger_len).as_str());
        m.append(" entries; the commitment log and ledger disagree");
        return Err(m);
    }
    Ok(log.is_empty() || ledger_len > height)
}

/// Which commitments a bundle carries beside the head: the ancestors from
/// `from` on, up to the head.
#[derive(Debug, Clone, Copy, PartialEq, Eq, Structural)]
pub struct ChainWindow {
    /// The first ancestor that is carried.
    pub from: usize,
    /// How many ancestors there are.
    pub total: usize,
    /// How many are carried.
    pub included: usize,
}

/// The ancestors that a bundle carries: all of them, or the most recent ones
/// where there are too many. There is no head in an empty chain.
pub fn chain_window(chain: &Vec<SignedCommitment>) -> (r: Option<ChainWindow>)
    ensures
        match r {
            None => chain@.len() == 0,
            Some(window) => {
                &&& chain@.len() > 0
                &&& window.total == chain@.len() - 1
                &&& window.included == (if window.total > MAX_BUNDLE_CHAIN {
                    MAX_BUNDLE_CHAIN
                } else {
                    window.total
                })
                &&& window.from + window.included == window.total
            },
        },
{
    if chain.len() == 0 {
        return None;
    }
    let total: usize = chain.len() - 1;
    let included: usize = if total > MAX_BUNDLE_CHAIN {
        MAX_BUNDLE_CHAIN
    } else {
        total
    };
    Some(ChainWindow { from: total - included, total, included })
}

/// What a verified bundle shows.
#[derive(Debug, Clone, Copy)]
pub struct VerifiedClaim {
    /// The parent balance that the committed head records.
    pub parent_balance: i128,
    /// The height of that head.
    pub commitment_height: u64,
}

/// How an export went.
#[derive(Debug, Clone, Copy)]
pub struct ExportOutcome {
    /// What the bundle shows.
    pub verified: VerifiedClaim,
    /// Whether a commitment was appended first.
    pub committed: bool,
    /// How many ancestors there are.
    pub chain_total: usize,
    /// How many the bundle carries.
    pub chain_included: usize,
}

/// The lines of the export summary.
pub open spec fn summary_lines(outcome: ExportOutcome) -> Seq<Seq<char>> {
    let base = seq![
        "state-proof-checked attested Parent balance: "@ + text::signed_decimal(
            outcome.verified.parent_balance as int,
        ),
        "commitment height: "@ + text::decimal(outcome.verified.commitment_height as nat),
        "chain: "@ + text::decimal(outcome.chain_included as nat) + " of "@ + text::decimal(
            outcome.chain_total as nat,
        ) + " ancestor commitment(s) included"@,
    ];
    let cut = if outcome.chain_included < outcome.chain_total {
        base.push(
            "note: chain truncated to the most recent suffix; genesis anchoring is unavailable, but continuity still verifies"@,
        )
    } else {
        base
    };
    let fresh = if outcome.committed {
        cut.push(
            "note: appended a fresh commitment so the state proof matches the ledger head"@,
        )
    } else {
        cut
    };
    fresh.push(
        "note: review evidence, not a guarantee — the child authors its own ledger, so the magnitude is self-attested"@,
    )
}

/// What an export shows and what it does not prove, as plain text.
pub fn export_summary(outcome: &ExportOutcome) -> (r: String)
    ensures
        r@ == text::joined(summary_lines(*outcome), "\n"@),
{
    let mut lines: Vec<String> = Vec::new();
    let mut balance: String = "state-proof-checked attested Parent balance: ".to_owned();
    balance.append(text::i128_text(outcome.verified.parent_balance).as_str());
    lines.push(balance);
    let mut height: String = "commitment height: ".to_owned();
    height.append(text::u64_text(outcome.verified.commitment_height).as_str());
    lines.push(height);
    let mut chain: String = text::between(
        "chain: ",
        text::u64_text(outcome.chain_included as u64).as_str(),
        " of ",
    );
    chain.append(text::u64_text(outcome.chain_total as u64).as_str());
    chain.append(" ancestor commitment(s) included");
    lines.push(chain);
    if outcome.chain_included < outcome.chain_total {
        lines.push(
            "note: chain truncated to the most recent suffix; genesis anchoring is unavailable, but continuity still verifies".to_owned(),
        );
    }
    if outcome.committed {
        lines.push(
            "note: appended a fresh commitment so the state proof matches the ledger head".to_owned(),
        );
    }
    lines.push(
        "note: review evidence, not a guarantee — the child authors its own ledger, so the magnitude is self-attested".to_owned(),
    );
    assert(text::views(lines@) =~= summary_lines(*outcome));
    text::join(&lines, "\n")
}

/// What a review cannot prove.
pub const NOT_PROVEN: &'static str = "not proven:\n  - the amount is self-attested: the presenter authors their own ledger, so the state proof shows only what the presenter's own committed head records\n  - the committed head may not be the presenter's latest state\n  - the edge/detached_from registry row is unverified context, not evidence that any old parent ever owed the amount\n  - nothing here compels payment or creates an obligation; recognising the balance is a discretionary operator decision";

/// The first part of a review: what funding the claim would come to.
pub open spec fn exposure(balance: i128) -> Seq<char> {
    if balance > 0 {
        "exposure: funding "@ + text::signed_decimal(balance as int)
            + " to match clears the hard UnbackedClaim on the new parent's books; not funding leaves the parent balance visible as a stranded claim"@
    } else {
        "exposure: parent balance is zero; no prefund is needed to clear an UnbackedClaim"@
    }
}

/// What a verified bundle means to the operator. What is not proven is always
/// said.
pub fn review_guidance(verified: &VerifiedClaim) -> (r: String)
    ensures
        r@ == exposure(verified.parent_balance) + "\n"@ + NOT_PROVEN@,
{
    let mut r: String = if verified.parent_balance > 0 {
        text::between(
            "exposure: funding ",
            text::i128_text(verified.parent_balance).as_str(),
            " to match clears the hard UnbackedClaim on the new parent's books; not funding leaves the parent balance visible as a stranded claim",
        )
    } else {
        "exposure: parent balance is zero; no prefund is needed to clear an UnbackedClaim".to_owned()
    };
    r.append("\n");
    r.append(NOT_PROVEN);
    r
}

/// Check the size of a bundle file of which at most one byte over the bound was
/// read. `reported` is its size on disk, where it could be had.
pub fn check_bundle_size(path: &str, read: u64, reported: Option<u64>) -> (r: Result<(), String>)
    ensures
        match r {
            Ok(_) => read <= MAX_BUNDLE_FILE_BYTES,
            Err(m) => read > MAX_BUNDLE_FILE_BYTES && m@ == "bundle file "@ + path@ + " is "@
                + text::decimal(
                (match reported {
                    Some(size) => size,
                    None => read,
                }) as nat,
            ) + " bytes, exceeding the 1048576-byte cap"@,
        },
{
    if read > MAX_BUNDLE_FILE_BYTES {
        let size: u64 = match reported {
            Some(size) => size,
            None => read,
        };
        let mut m: String = text::between("bundle file ", path, " is ");
        m.append(text::u64_text(size).as_str());
        m.append(" bytes, exceeding the 1048576-byte cap");
        return Err(m);
    }
    Ok(())
}

/// Where a node stands to a parent.
#[derive(Debug, Clone, Copy, PartialEq, Eq, Structural)]
pub enum Attachment {
    /// It has a parent.
    Parented,
    /// It has none, and is the root.
    Root,
    /// It has none, and is not the root.
    NoParent,
}

impl Attachment {
    /// The label of the state.
    pub open spec fn spec_label(self) -> Seq<char> {
        match self {
            Attachment::Parented => "parented"@,
            Attachment::Root => "root"@,
            Attachment::NoParent => "no parent"@,
        }
    }

    /// Human-readable label.
    pub fn label(self) -> (r: &'static str)
        ensures
            r@ == self.spec_label(),
    {
        match self {
            Attachment::Parented => "parented",
            Attachment::Root => "root",
            Attachment::NoParent => "no parent",
        }
    }
}

/// Where the node of a record stands to a parent.
pub fn attachment_state(record: &NodeRecord) -> (r: Attachment)
    ensures
        r == (if record.parent is Some {
            Attachment::Parented
        } else if record.address is Some && record.address->0 is Root {
            Attachment::Root
        } else {
            Attachment::NoParent
        }),
{
    if record.parent.is_some() {
        return Attachment::Parented;
    }
    match &record.address {
        Some(address) => {
            if address.is_root() {
                Attachment::Root
            } else {
                Attachment::NoParent
            }
        },
        None => Attachment::NoParent,
    }
}

/// What a probe of the parent came to.
#[derive(Debug, PartialEq, Eq)]
pub enum ParentReachability {
    /// There is no parent; nothing was dialed.
    NoParent,
    /// The parent answered, whatever it said.
    Reachable,
    /// The parent could not be reached.
    Unreachable(String),
}

/// Whom to dial for a probe: the parent, where there is one and the request
/// could be signed.
pub fn probe_target(record: &NodeRecord, signed: bool) -> (r: Result<Option<String>, String>)
    ensures
        match record.parent {
            None => r == Ok::<Option<String>, String>(None),
            Some(link) => if !signed {
                r == Ok::<Option<String>, String>(None)
            } else {
                match r {
                    Ok(target) => target is Some && endpoint::canonical(link.parent_id@) == Some(
                        target->0@,
                    ),
                    Err(m) => endpoint::endpoint_key(link.parent_id@) matches Err(detail) && m@
                        == "recorded parent '"@ + link.parent_id@ + "' is not an endpoint id: "@
                        + detail,
                }
            },
        },
{
    match &record.parent {
        None => Ok(None),
        Some(link) => {
            if !signed {
                return Ok(None);
            }
            match endpoint::parse_endpoint_id(&link.parent_id) {
                Ok(target) => Ok(Some(target)),
                Err(bad) => {
                    let mut m: String = text::between(
                        "recorded parent '",
                        link.parent_id.as_str(),
                        "' is not an endpoint id: ",
                    );
                    m.append(bad.detail.as_str());
                    Err(m)
                },
            }
        },
    }
}

/// What a probe came to: nothing was dialed, any answer counts, or the failure.
pub fn probe_result(dialed: Option<Result<(), String>>) -> (r: ParentReachability)
    ensures
        r == (match dialed {
            None => ParentReachability::NoParent,
            Some(Ok(_)) => ParentReachability::Reachable,
            Some(Err(detail)) => ParentReachability::Unreachable(detail),
        }),
{
    match dialed {
        None => ParentReachability::NoParent,
        Some(Ok(_)) => ParentReachability::Reachable,
        Some(Err(detail)) => ParentReachability::Unreachable(detail),
    }
}

/// A commitment is due exactly where none stands for the ledger's last entry, and
/// a chain that is ahead of the ledger is an error.
pub proof fn law_commitment_reaches_the_ledger_head(
    log: CommitmentLog,
    ledger_len: u64,
    r: Result<bool, String>,
)
    requires
        call_ensures(needs_commit, (&log, ledger_len), r),
    ensures
        log.commitments().len() == 0 ==> r == Ok::<bool, String>(true),
        log.commitments().len() > 0 ==> {
            let height = log.commitments().last().height;
            &&& r is Err <==> height > ledger_len
            &&& height < ledger_len ==> r == Ok::<bool, String>(true)
            &&& height == ledger_len ==> r == Ok::<bool, String>(false)
        },
{
}

/// A bundle takes in the commitments right below the head: all of them, or as many
/// of the most recent ones as it may hold.
pub proof fn law_bundle_holds_the_latest_ancestors(
    chain: Vec<SignedCommitment>,
    r: Option<ChainWindow>,
)
    requires
        call_ensures(chain_window, (&chain,), r),
    ensures
        r is None <==> chain@.len() == 0,
        r matches Some(window) ==> {
            &&& window.total + 1 == chain@.len()
            &&& window.from + window.included == window.total
            &&& window.included <= 128
            &&& window.from > 0 ==> window.included == 128
        },
{
}

/// A node with a parent is parented whatever its address is; without one it is a
/// root exactly at the root address.
pub proof fn law_attachment_goes_by_the_parent(record: NodeRecord, r: Attachment)
    requires
        call_ensures(attachment_state, (&record,), r),
    ensures
        r is Parented <==> record.parent is Some,
        r is Root <==> record.parent is None && (record.address matches Some(address) && address
            is Root),
{
}

/// The parent that is probed is the recorded one, and only where the probe can be
/// signed. What the dial brings back is what is reported.
pub proof fn law_recorded_parent_is_probed(
    record: NodeRecord,
    signed: bool,
    target: Result<Option<String>, String>,
    dialed: Option<Result<(), String>>,
    r: ParentReachability,
)
    requires
        call_ensures(probe_target, (&record, signed), target),
        call_ensures(probe_result, (dialed,), r),
    ensures
        record.parent is None || !signed ==> target == Ok::<Option<String>, String>(None),
        record.parent matches Some(link) ==> signed ==> match endpoint::endpoint_key(
            link.parent_id@,
        ) {
            Ok(key) => target matches Ok(Some(id)) && id@ == text::hex_lower(key@),
            Err(_) => target is Err,
        },
        r is NoParent <==> dialed is None,
        r is Reachable <==> dialed is Some && dialed->0 is Ok,
        r matches ParentReachability::Unreachable(detail) ==> dialed == Some(
            Err::<(), String>(detail),
        ),
{
}

/// A bundle file is taken up to the cap and refused above it, whatever size was
/// reported.
pub proof fn law_bundles_are_capped(
    path: &str,
    read: u64,
    reported: Option<u64>,
    r: Result<(), String>,
)
    requires
        call_ensures(check_bundle_size, (path, read, reported), r),
    ensures
        r is Ok <==> read <= 1048576,
{
}

/// A summary shows the balance, the height and how much of the chain went in, and
/// says so where the chain was cut or a commitment was added.
pub proof fn law_summary_shows_what_was_exported(outcome: ExportOutcome, r: String)
    requires
        call_ensures(export_summary, (&outcome,), r),
    ensures
        ({
            let lines = summary_lines(outcome);
            &&& r@ == text::joined(lines, "\n"@)
            &&& lines[0] == "state-proof-checked attested Parent balance: "@ + text::signed_decimal(
                outcome.verified.parent_balance as int,
            )
            &&& lines[1] == "commitment height: "@ + text::decimal(
                outcome.verified.commitment_height as nat,
            )
            &&& lines[2] == "chain: "@ + text::decimal(outcome.chain_included as nat) + " of "@
                + text::decimal(outcome.chain_total as nat) + " ancestor commitment(s) included"@
            &&& lines.len() == 4 + (if outcome.chain_included < outcome.chain_total {
                1int
            } else {
                0
            }) + (if outcome.committed { 1int } else { 0 })
        }),
{
}

/// What funding would clear is told exactly where there is a balance to fund, with
/// the balance in it; what is not proven is told in any case.
pub proof fn law_guidance_names_the_balance(verified: VerifiedClaim, r: String)
    requires
        call_ensures(review_guidance, (&verified,), r),
    ensures
        verified.parent_balance > 0 ==> text::occurs(
            r@,
            "exposure: funding "@ + text::signed_decimal(verified.parent_balance as int),
        ),
        verified.parent_balance <= 0 ==> text::occurs(
            r@,
            "exposure: parent balance is zero; no prefund is needed to clear an UnbackedClaim"@,
        ),
        text::occurs(r@, NOT_PROVEN@),
{
    let none = Seq::<char>::empty();
    let head = exposure(verified.parent_balance);
    assert(r@ =~= (head + "\n"@) + NOT_PROVEN@ + none);
    text::lemma_occurs_between(head + "\n"@, NOT_PROVEN@, none);
    if verified.parent_balance > 0 {
        let part = "exposure: funding "@ + text::signed_decimal(verified.parent_balance as int);
        let rest = " to match clears the hard UnbackedClaim on the new parent's books; not funding leaves the parent balance visible as a stranded claim"@
            + "\n"@ + NOT_PROVEN@;
        assert(r@ =~= none + part + rest);
        text::lemma_occurs_between(none, part, rest);
    } else {
        let rest = "\n"@ + NOT_PROVEN@;
        assert(r@ =~= none + head + rest);
        text::lemma_occurs_between(none, head, rest);
    }
}

} // verus!
