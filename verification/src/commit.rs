//! The commit gate every mutating admin op passes: attribution, then
//! authority re-derived from a delegation row this node holds, then a quorum of
//! distinct roots, then the re-run preview's hash. Each refusal is named, and
//! the order is fixed so an unattributed call is refused before any substrate
//! work happens.

use vstd::prelude::*;
use crate::prims::{concat3, owned, text_eq, trim, trim_spec};
use crate::selection::{views, Selection};
use crate::admin::{AdmissionStanding, OP_READER_DECLINE, OP_READER_HONOUR};

verus! {

/// The attestation type a delegation row carries.
pub const DELEGATES_TO: &'static str = "delegates_to";

/// The fields every mutating call carries.
#[derive(Debug)]
pub struct Commit {
    /// The selection this op runs over, byte for byte what was previewed.
    pub selection: Selection,
    /// The hash the preview returned.
    pub selection_hash: String,
    /// The `delegates_to` attestation id the actor acts under.
    pub delegation_id: String,
    /// Why: recorded, never interpreted.
    pub reason: String,
}

/// The delegation row a commit names, as the store holds it.
#[derive(Debug)]
pub struct DelegationRow {
    pub attestation_type: String,
    pub attesting_key_id: String,
    pub attested_key_id: String,
    /// The scopes the row's envelope declares.
    pub scopes: Vec<String>,
}

/// A delegation this node resolved and re-walked.
#[derive(Debug)]
pub struct AuthorityProof {
    pub delegation_id: String,
    /// The root the scoped chain was walked from.
    pub issuer_key_id: String,
}

/// Why a commit is refused.
#[derive(Debug, PartialEq, Eq)]
pub enum CommitRefusal {
    /// No reason was given.
    ReasonAbsent,
    /// The selection names no predicate: the whole corpus.
    SelectionUnpredicated,
    /// No delegation id was given.
    AttributionAbsent,
    /// The named delegation is not a row this node holds.
    AuthorityUnresolved,
    /// The row is not a `delegates_to` row.
    AuthorityNotADelegation,
    /// The row was not granted to this node.
    AuthorityNotToActor,
    /// The row does not itself carry the scope.
    AuthorityScopeAbsent,
    /// No live scoped chain reaches this node from the issuer.
    AuthorityScopeUnreachable,
    /// Too few distinct authority roots for an irreversible op.
    QuorumInsufficient { required: usize, distinct_roots: usize },
    /// The selection changed since the preview.
    PreviewHashMismatch { presented: String, current: String },
    /// This node has no responsible party.
    NodeUnowned,
    /// The delegation was not issued by this node's owner.
    AuthorityNotTheOwner,
    /// The named judgement is not a row this node holds.
    JudgementUnresolved,
    /// The named row is not a judgement.
    NotAJudgement,
    /// The judgement names no subject.
    JudgementSubjectless,
    /// A quarantine names no community to file it under.
    CommunityAbsent,
}

impl CommitRefusal {
    /// The refusal's stable token.
    pub open spec fn token_text(&self) -> Seq<char> {
        match self {
            CommitRefusal::ReasonAbsent => "attribution_absent"@,
            CommitRefusal::SelectionUnpredicated => "selection_unpredicated"@,
            CommitRefusal::AttributionAbsent => "attribution_absent"@,
            CommitRefusal::AuthorityUnresolved => "authority_unresolved"@,
            CommitRefusal::AuthorityNotADelegation => "authority_not_a_delegation"@,
            CommitRefusal::AuthorityNotToActor => "authority_not_to_actor"@,
            CommitRefusal::AuthorityScopeAbsent => "authority_scope_absent"@,
            CommitRefusal::AuthorityScopeUnreachable => "authority_scope_unreachable"@,
            CommitRefusal::QuorumInsufficient { .. } => "quorum_insufficient"@,
            CommitRefusal::PreviewHashMismatch { .. } => "preview_hash_mismatch"@,
            CommitRefusal::NodeUnowned => "node_unowned"@,
            CommitRefusal::AuthorityNotTheOwner => "authority_not_the_owner"@,
            CommitRefusal::JudgementUnresolved => "judgement_unresolved"@,
            CommitRefusal::NotAJudgement => "not_a_judgement"@,
            CommitRefusal::JudgementSubjectless => "judgement_subjectless"@,
            CommitRefusal::CommunityAbsent => "community_absent"@,
        }
    }

    /// The refusal's stable token.
    pub fn token(&self) -> (s: &'static str)
        ensures
            s@ == self.token_text(),
    {
        match self {
            CommitRefusal::ReasonAbsent => "attribution_absent",
            CommitRefusal::SelectionUnpredicated => "selection_unpredicated",
            CommitRefusal::AttributionAbsent => "attribution_absent",
            CommitRefusal::AuthorityUnresolved => "authority_unresolved",
            CommitRefusal::AuthorityNotADelegation => "authority_not_a_delegation",
            CommitRefusal::AuthorityNotToActor => "authority_not_to_actor",
            CommitRefusal::AuthorityScopeAbsent => "authority_scope_absent",
            CommitRefusal::AuthorityScopeUnreachable => "authority_scope_unreachable",
            CommitRefusal::QuorumInsufficient { .. } => "quorum_insufficient",
            CommitRefusal::PreviewHashMismatch { .. } => "preview_hash_mismatch",
            CommitRefusal::NodeUnowned => "node_unowned",
            CommitRefusal::AuthorityNotTheOwner => "authority_not_the_owner",
            CommitRefusal::JudgementUnresolved => "judgement_unresolved",
            CommitRefusal::NotAJudgement => "not_a_judgement",
            CommitRefusal::JudgementSubjectless => "judgement_subjectless",
            CommitRefusal::CommunityAbsent => "community_absent",
        }
    }

    /// The HTTP status the refusal is answered with.
    pub open spec fn status_code(&self) -> u16 {
        match self {
            CommitRefusal::ReasonAbsent => 400,
            CommitRefusal::SelectionUnpredicated => 400,
            CommitRefusal::AttributionAbsent => 400,
            CommitRefusal::PreviewHashMismatch { .. } => 409,
            CommitRefusal::JudgementUnresolved => 404,
            CommitRefusal::NotAJudgement => 400,
            CommitRefusal::JudgementSubjectless => 400,
            CommitRefusal::CommunityAbsent => 400,
            _ => 403,
        }
    }

    /// The HTTP status the refusal is answered with.
    pub fn status(&self) -> (c: u16)
        ensures
            c == self.status_code(),
    {
        match self {
            CommitRefusal::ReasonAbsent => 400,
            CommitRefusal::SelectionUnpredicated => 400,
            CommitRefusal::AttributionAbsent => 400,
            CommitRefusal::PreviewHashMismatch { .. } => 409,
            CommitRefusal::JudgementUnresolved => 404,
            CommitRefusal::NotAJudgement => 400,
            CommitRefusal::JudgementSubjectless => 400,
            CommitRefusal::CommunityAbsent => 400,
            _ => 403,
        }
    }

    /// The message key of the refusal's operator-facing sentence.
    pub open spec fn message_id_text(&self) -> Seq<char> {
        match self {
            CommitRefusal::ReasonAbsent => "admin.refusal.reason_absent"@,
            CommitRefusal::SelectionUnpredicated => "admin.refusal.selection_unpredicated"@,
            CommitRefusal::AttributionAbsent => "admin.refusal.attribution_absent"@,
            CommitRefusal::AuthorityUnresolved => "admin.refusal.authority_unresolved"@,
            CommitRefusal::AuthorityNotADelegation => "admin.refusal.authority_not_a_delegation"@,
            CommitRefusal::AuthorityNotToActor => "admin.refusal.authority_not_to_actor"@,
            CommitRefusal::AuthorityScopeAbsent => "admin.refusal.authority_scope_absent"@,
            CommitRefusal::AuthorityScopeUnreachable => "admin.refusal.authority_scope_unreachable"@,
            CommitRefusal::QuorumInsufficient { .. } => "admin.refusal.quorum_insufficient"@,
            CommitRefusal::PreviewHashMismatch { .. } => "admin.refusal.preview_hash_mismatch"@,
            CommitRefusal::NodeUnowned => "admin.refusal.node_unowned"@,
            CommitRefusal::AuthorityNotTheOwner => "admin.refusal.authority_not_the_owner"@,
            CommitRefusal::JudgementUnresolved => "admin.refusal.judgement_unresolved"@,
            CommitRefusal::NotAJudgement => "admin.refusal.not_a_judgement"@,
            CommitRefusal::JudgementSubjectless => "admin.refusal.judgement_subjectless"@,
            CommitRefusal::CommunityAbsent => "admin.refusal.community_absent"@,
        }
    }

    /// The message key of the refusal's operator-facing sentence.
    pub fn message_id(&self) -> (s: &'static str)
        ensures
            s@ == self.message_id_text(),
    {
        match self {
            CommitRefusal::ReasonAbsent => "admin.refusal.reason_absent",
            CommitRefusal::SelectionUnpredicated => "admin.refusal.selection_unpredicated",
            CommitRefusal::AttributionAbsent => "admin.refusal.attribution_absent",
            CommitRefusal::AuthorityUnresolved => "admin.refusal.authority_unresolved",
            CommitRefusal::AuthorityNotADelegation => "admin.refusal.authority_not_a_delegation",
            CommitRefusal::AuthorityNotToActor => "admin.refusal.authority_not_to_actor",
            CommitRefusal::AuthorityScopeAbsent => "admin.refusal.authority_scope_absent",
            CommitRefusal::AuthorityScopeUnreachable => "admin.refusal.authority_scope_unreachable",
            CommitRefusal::QuorumInsufficient { .. } => "admin.refusal.quorum_insufficient",
            CommitRefusal::PreviewHashMismatch { .. } => "admin.refusal.preview_hash_mismatch",
            CommitRefusal::NodeUnowned => "admin.refusal.node_unowned",
            CommitRefusal::AuthorityNotTheOwner => "admin.refusal.authority_not_the_owner",
            CommitRefusal::JudgementUnresolved => "admin.refusal.judgement_unresolved",
            CommitRefusal::NotAJudgement => "admin.refusal.not_a_judgement",
            CommitRefusal::JudgementSubjectless => "admin.refusal.judgement_subjectless",
            CommitRefusal::CommunityAbsent => "admin.refusal.community_absent",
        }
    }
}

/// The first gate, before any substrate work: a reason, then a predicate.
pub fn attribution_gate(c: &Commit) -> (r: Result<(), CommitRefusal>)
    ensures
        trim_spec(c.reason@).len() == 0 ==> r == Err::<(), CommitRefusal>(
            CommitRefusal::ReasonAbsent,
        ),
        trim_spec(c.reason@).len() > 0 && c.selection.unpredicated() ==> r == Err::<
            (),
            CommitRefusal,
        >(CommitRefusal::SelectionUnpredicated),
        trim_spec(c.reason@).len() > 0 && !c.selection.unpredicated() ==> r is Ok,
{
    if trim(c.reason.as_str()).unicode_len() == 0 {
        return Err(CommitRefusal::ReasonAbsent);
    }
    if c.selection.is_unpredicated() {
        return Err(CommitRefusal::SelectionUnpredicated);
    }
    Ok(())
}

/// The delegation id a commit acts under, trimmed; refused when blank.
pub fn named_delegation(delegation_id: &str) -> (r: Result<String, CommitRefusal>)
    ensures
        match r {
            Ok(id) => trim_spec(delegation_id@).len() > 0 && id@ == trim_spec(delegation_id@),
            Err(e) => trim_spec(delegation_id@).len() == 0 && e == CommitRefusal::AttributionAbsent,
        },
{
    let id = trim(delegation_id);
    if id.unicode_len() == 0 {
        Err(CommitRefusal::AttributionAbsent)
    } else {
        Ok(owned(id))
    }
}

/// The texts include `x`.
pub open spec fn holds_text(xs: Seq<String>, x: Seq<char>) -> bool {
    exists|i: int| 0 <= i < xs.len() && #[trigger] xs[i]@ == x
}

/// Does the list hold the text?
fn contains_text(xs: &Vec<String>, x: &str) -> (r: bool)
    ensures
        r == holds_text(xs@, x@),
{
    let n = xs.len();
    let mut i: usize = 0;
    while i < n
        invariant
            n == xs@.len(),
            0 <= i <= n,
            forall|j: int| 0 <= j < i ==> #[trigger] xs@[j]@ != x@,
        decreases n - i,
    {
        if text_eq(xs[i].as_str(), x) {
            return true;
        }
        i = i + 1;
    }
    false
}

/// What the row the commit names says of the authority, in the order the
/// checks run: the row must exist, be a `delegates_to` row, be granted to
/// `actor`, and itself carry `scope`. On success, the issuer the scoped chain
/// is walked from.
pub open spec fn row_verdict(row: Option<&DelegationRow>, actor: Seq<char>, scope: Seq<char>) -> Result<
    Seq<char>,
    CommitRefusal,
> {
    match row {
        None => Err(CommitRefusal::AuthorityUnresolved),
        Some(r) => if r.attestation_type@ != DELEGATES_TO@ {
            Err(CommitRefusal::AuthorityNotADelegation)
        } else if r.attested_key_id@ != actor {
            Err(CommitRefusal::AuthorityNotToActor)
        } else if !holds_text(r.scopes@, scope) {
            Err(CommitRefusal::AuthorityScopeAbsent)
        } else {
            Ok(r.attesting_key_id@)
        },
    }
}

/// Judge the delegation row a commit names against the acting node and the
/// scope the op requires; on success, the issuer to walk the chain from.
pub fn judge_delegation_row(row: Option<&DelegationRow>, actor: &str, scope: &str) -> (r: Result<
    String,
    CommitRefusal,
>)
    ensures
        match (r, row_verdict(row, actor@, scope@)) {
            (Ok(issuer), Ok(expected)) => issuer@ == expected,
            (Err(e), Err(expected)) => e == expected,
            _ => false,
        },
{
    match row {
        None => Err(CommitRefusal::AuthorityUnresolved),
        Some(r) => {
            if !text_eq(r.attestation_type.as_str(), DELEGATES_TO) {
                Err(CommitRefusal::AuthorityNotADelegation)
            } else if !text_eq(r.attested_key_id.as_str(), actor) {
                Err(CommitRefusal::AuthorityNotToActor)
            } else if !contains_text(&r.scopes, scope) {
                Err(CommitRefusal::AuthorityScopeAbsent)
            } else {
                Ok(r.attesting_key_id.clone())
            }
        },
    }
}

/// The authority a commit acts under, once the store has answered whether a
/// live scoped chain reaches this node from the issuer.
pub fn authority_reached(delegation_id: &str, issuer_key_id: &str, reachable: bool) -> (r: Result<
    AuthorityProof,
    CommitRefusal,
>)
    ensures
        reachable ==> (r matches Ok(p) && p.delegation_id@ == delegation_id@ && p.issuer_key_id@
            == issuer_key_id@),
        !reachable ==> r == Err::<AuthorityProof, CommitRefusal>(
            CommitRefusal::AuthorityScopeUnreachable,
        ),
{
    if reachable {
        Ok(AuthorityProof { delegation_id: owned(delegation_id), issuer_key_id: owned(issuer_key_id) })
    } else {
        Err(CommitRefusal::AuthorityScopeUnreachable)
    }
}

/// How many distinct texts a list holds.
pub open spec fn distinct_texts(xs: Seq<String>) -> nat {
    views(xs).to_set().len()
}

/// Count the distinct texts of a list.
pub fn distinct_text_count(xs: &[String]) -> (count: usize)
    ensures
        count == distinct_texts(xs@),
{
    let ghost all = views(xs@);
    let n = xs.len();
    let mut seen: Vec<String> = Vec::new();
    let mut i: usize = 0;
    while i < n
        invariant
            n == xs@.len(),
            all == views(xs@),
            0 <= i <= n,
            seen@.len() <= i,
            views(seen@).no_duplicates(),
            views(seen@).to_set() == all.take(i as int).to_set(),
        decreases n - i,
    {
        let root = xs[i].as_str();
        let had = contains_text(&seen, root);
        let ghost before = views(seen@);
        if !had {
            seen.push(owned(root));
            proof {
                assert(views(seen@) =~= before.push(root@));
                assert forall|a: int, b: int| 0 <= a < b < views(seen@).len() implies views(
                    seen@,
                )[a] != views(seen@)[b] by {
                    if b == views(seen@).len() - 1 {
                        assert(seen@[a]@ == before[a]);
                    }
                }
            }
        }
        proof {
            let pre = all.take(i as int);
            let post = all.take(i + 1);
            assert(post =~= pre.push(all[i as int]));
            assert(all[i as int] == root@);
            assert forall|y: Seq<char>| views(seen@).to_set().contains(y) <==> post.to_set().contains(y) by {
                if views(seen@).contains(y) {
                    let k = choose|k: int| 0 <= k < views(seen@).len() && views(seen@)[k] == y;
                    if !had && k == views(seen@).len() - 1 {
                        assert(post[i as int] == y);
                    } else {
                        assert(before[k] == y);
                        assert(before.contains(y));
                        assert(before.to_set().contains(y));
                        assert(pre.to_set().contains(y));
                        let j = choose|j: int| 0 <= j < pre.len() && pre[j] == y;
                        assert(post[j] == y);
                    }
                }
                if post.contains(y) {
                    let j = choose|j: int| 0 <= j < post.len() && post[j] == y;
                    if j == i {
                        if had {
                            let k = choose|k: int| 0 <= k < seen@.len() && #[trigger] seen@[k]@ == root@;
                            assert(views(seen@)[k] == y);
                        } else {
                            assert(views(seen@)[views(seen@).len() - 1] == y);
                        }
                    } else {
                        assert(pre[j] == y);
                        assert(pre.contains(y));
                        assert(before.to_set().contains(y));
                        let k = choose|k: int| 0 <= k < before.len() && before[k] == y;
                        assert(views(seen@)[k] == y);
                    }
                }
            }
            assert(views(seen@).to_set() =~= post.to_set());
        }
        i = i + 1;
    }
    proof {
        assert(all.take(n as int) =~= all);
        views(seen@).unique_seq_to_set();
    }
    seen.len()
}

/// The roots the authorities were walked from.
pub open spec fn roots_of(proofs: Seq<AuthorityProof>) -> Seq<String> {
    proofs.map_values(|p: AuthorityProof| p.issuer_key_id)
}

/// An irreversible op takes `quorum_min` distinct authority roots: two chains
/// from one root are one authority. On success, the distinct-root count.
pub fn quorum_gate(proofs: &[AuthorityProof], quorum_min: usize) -> (r: Result<usize, CommitRefusal>)
    ensures
        distinct_texts(roots_of(proofs@)) >= quorum_min ==> r == Ok::<usize, CommitRefusal>(
            distinct_texts(roots_of(proofs@)) as usize,
        ),
        distinct_texts(roots_of(proofs@)) < quorum_min ==> r == Err::<usize, CommitRefusal>(
            CommitRefusal::QuorumInsufficient {
                required: quorum_min,
                distinct_roots: distinct_texts(roots_of(proofs@)) as usize,
            },
        ),
        r matches Ok(k) ==> k >= quorum_min && k == distinct_texts(roots_of(proofs@)),
{
    let n = proofs.len();
    let mut roots: Vec<String> = Vec::new();
    let mut i: usize = 0;
    while i < n
        invariant
            n == proofs@.len(),
            0 <= i <= n,
            roots@ == roots_of(proofs@).take(i as int),
        decreases n - i,
    {
        roots.push(proofs[i].issuer_key_id.clone());
        proof {
            assert(roots_of(proofs@).take(i + 1) =~= roots_of(proofs@).take(i as int).push(
                proofs@[i as int].issuer_key_id,
            ));
        }
        i = i + 1;
    }
    proof {
        assert(roots_of(proofs@).take(n as int) =~= roots_of(proofs@));
    }
    let count = distinct_text_count(roots.as_slice());
    if count < quorum_min {
        Err(CommitRefusal::QuorumInsufficient { required: quorum_min, distinct_roots: count })
    } else {
        Ok(count)
    }
}

/// Two chains from one root are one authority: another delegation walked
/// from a root already counted adds nothing to the quorum.
pub proof fn one_root_is_one_authority(proofs: Seq<AuthorityProof>, extra: AuthorityProof)
    requires
        exists|i: int| 0 <= i < proofs.len() && #[trigger] proofs[i].issuer_key_id@ == extra.issuer_key_id@,
    ensures
        distinct_texts(roots_of(proofs.push(extra))) == distinct_texts(roots_of(proofs)),
{
    let i = choose|i: int| 0 <= i < proofs.len() && #[trigger] proofs[i].issuer_key_id@ == extra.issuer_key_id@;
    let a = views(roots_of(proofs));
    let b = views(roots_of(proofs.push(extra)));
    assert(b =~= a.push(extra.issuer_key_id@));
    assert(a[i] == extra.issuer_key_id@);
    assert(b.to_set() =~= a.to_set()) by {
        assert forall|y: Seq<char>| b.to_set().contains(y) <==> a.to_set().contains(y) by {
            if b.contains(y) {
                let k = choose|k: int| 0 <= k < b.len() && b[k] == y;
                if k < a.len() {
                    assert(a[k] == y);
                } else {
                    assert(a[i] == y);
                }
            }
            if a.contains(y) {
                let k = choose|k: int| 0 <= k < a.len() && a[k] == y;
                assert(b[k] == y);
            }
        }
    }
}

/// What was previewed must be what executes: the presented hash (trimmed)
/// against the re-run preview's.
pub fn preview_hash_gate(presented: &str, current: &str) -> (r: Result<(), CommitRefusal>)
    ensures
        trim_spec(presented@) == current@ ==> r is Ok,
        trim_spec(presented@) != current@ ==> (r matches Err(
            CommitRefusal::PreviewHashMismatch { presented: p, current: c },
        ) && p@ == trim_spec(presented@) && c@ == current@),
{
    let shown = trim(presented);
    if text_eq(current, shown) {
        Ok(())
    } else {
        Err(CommitRefusal::PreviewHashMismatch { presented: owned(shown), current: owned(current) })
    }
}

/// What the commit gate answers, for the authorities the node resolved and
/// the hash its re-run preview gave: attribution first, then a quorum of
/// distinct roots, then the previewed hash; on success, the distinct-root
/// count.
pub open spec fn commit_outcome(
    c: Commit,
    proofs: Seq<AuthorityProof>,
    quorum_min: usize,
    current_hash: Seq<char>,
    r: Result<usize, CommitRefusal>,
) -> bool {
    let roots = distinct_texts(roots_of(proofs));
    if trim_spec(c.reason@).len() == 0 {
        r == Err::<usize, CommitRefusal>(CommitRefusal::ReasonAbsent)
    } else if c.selection.unpredicated() {
        r == Err::<usize, CommitRefusal>(CommitRefusal::SelectionUnpredicated)
    } else if roots < quorum_min {
        r == Err::<usize, CommitRefusal>(
            CommitRefusal::QuorumInsufficient { required: quorum_min, distinct_roots: roots as usize },
        )
    } else if trim_spec(c.selection_hash@) != current_hash {
        r matches Err(CommitRefusal::PreviewHashMismatch { presented: p, current: q }) && p@
            == trim_spec(c.selection_hash@) && q@ == current_hash
    } else {
        r == Ok::<usize, CommitRefusal>(roots as usize)
    }
}

/// The commit gate over what the substrate gave: the authorities resolved
/// for the commit's delegation and the extra ones (their roots), and the
/// selection hash the re-run preview computed. An unattributed or
/// unpredicated commit is refused before either is looked at.
pub fn commit_verdict(c: &Commit, proofs: &[AuthorityProof], quorum_min: usize, current_hash: &str) -> (r:
    Result<usize, CommitRefusal>)
    ensures
        commit_outcome(*c, proofs@, quorum_min, current_hash@, r),
        r matches Ok(k) ==> trim_spec(c.reason@).len() > 0 && !c.selection.unpredicated() && k
            >= quorum_min && trim_spec(c.selection_hash@) == current_hash@,
{
    match attribution_gate(c) {
        Err(e) => return Err(e),
        Ok(()) => {},
    }
    let count = match quorum_gate(proofs, quorum_min) {
        Err(e) => return Err(e),
        Ok(k) => k,
    };
    match preview_hash_gate(c.selection_hash.as_str(), current_hash) {
        Err(e) => Err(e),
        Ok(()) => Ok(count),
    }
}

// ─── Per-target steps of the write door and the descent ─────────────────────

/// What the write door does for one target, given the standing it read first.
#[derive(Debug, Clone, Copy, PartialEq, Eq, Structural)]
pub enum DoorStep {
    /// Nothing to do: the target is already where the op would put it.
    Skip,
    /// Stop with an error: the standing could not be read.
    Stop,
    /// Write (the de-admission, or the withdrawals that lift it).
    Write,
}

/// The de-admitting step: a key already refused is skipped; an unreadable
/// standing does not stop the act (declining to sanction on a failed read would
/// fail open on the control that stops an abuser).
pub fn refuse_writes_step(before: AdmissionStanding) -> (step: DoorStep)
    ensures
        step == (if before == AdmissionStanding::Refused {
            DoorStep::Skip
        } else {
            DoorStep::Write
        }),
{
    match before {
        AdmissionStanding::Refused => DoorStep::Skip,
        _ => DoorStep::Write,
    }
}

/// The lifting step: a key not refused is skipped; an unreadable standing
/// stops (nothing is safe to withdraw without knowing which rows hold the
/// denial); only a refused key is lifted.
pub fn accept_writes_step(before: AdmissionStanding) -> (step: DoorStep)
    ensures
        step == (match before {
            AdmissionStanding::Admitted => DoorStep::Skip,
            AdmissionStanding::Unreadable => DoorStep::Stop,
            AdmissionStanding::Refused => DoorStep::Write,
        }),
{
    match before {
        AdmissionStanding::Admitted => DoorStep::Skip,
        AdmissionStanding::Unreadable => DoorStep::Stop,
        AdmissionStanding::Refused => DoorStep::Write,
    }
}

/// The skipped target's outcome token.
pub fn skip_outcome(lifting: bool) -> (s: &'static str)
    ensures
        s@ == (if lifting { "not_refused"@ } else { "already_refused"@ }),
{
    if lifting { "not_refused" } else { "already_refused" }
}

/// A descent bounded in time (`after` set) records its judgement and refuses
/// the payload leg: the only actor-keyed descent takes the whole corpus.
pub fn payload_descent_permitted(selection: &Selection) -> (ok: bool)
    ensures
        ok == (selection.after is None),
{
    selection.after.is_none()
}

// ─── The owner's own acts: tier S and tier R ────────────────────────────────

/// What a self-directed act carries.
#[derive(Debug)]
pub struct SelfCommit {
    /// The owner's `delegates_to` id this act is taken under.
    pub delegation_id: String,
    /// Why: recorded, never interpreted.
    pub reason: String,
    /// Who compels the act, where the operator may say.
    pub compelled_by: Option<String>,
}

/// What a reader decision carries.
#[derive(Debug)]
pub struct ReaderCommit {
    /// The `attestation_id` of the judgement being honoured or declined.
    pub judgement_id: String,
    /// The owner's `delegates_to` id this decision is taken under.
    pub delegation_id: String,
    /// Why: recorded, never interpreted.
    pub reason: String,
}

/// A self-directed or reader act needs a reason before anything is walked.
pub fn reason_gate(reason: &str) -> (r: Result<(), CommitRefusal>)
    ensures
        trim_spec(reason@).len() == 0 ==> r == Err::<(), CommitRefusal>(CommitRefusal::ReasonAbsent),
        trim_spec(reason@).len() > 0 ==> r is Ok,
{
    if trim(reason).unicode_len() == 0 {
        Err(CommitRefusal::ReasonAbsent)
    } else {
        Ok(())
    }
}

/// A self-directed act is the owner's own: the node must have a responsible
/// party, and the delegation's issuer must act for it.
pub fn owner_gate(owner_bound: bool, issuer_acts_for_owner: bool) -> (r: Result<(), CommitRefusal>)
    ensures
        !owner_bound ==> r == Err::<(), CommitRefusal>(CommitRefusal::NodeUnowned),
        owner_bound && !issuer_acts_for_owner ==> r == Err::<(), CommitRefusal>(
            CommitRefusal::AuthorityNotTheOwner,
        ),
        owner_bound && issuer_acts_for_owner ==> r is Ok,
{
    if !owner_bound {
        Err(CommitRefusal::NodeUnowned)
    } else if !issuer_acts_for_owner {
        Err(CommitRefusal::AuthorityNotTheOwner)
    } else {
        Ok(())
    }
}

/// The judgement row a reader decision names, as this node holds it.
#[derive(Debug)]
pub struct JudgementRow {
    /// The row's dimension is a judgement (quarantine-marker) dimension.
    pub is_marker_dimension: bool,
    /// The subject the judgement names, where it names one.
    pub subject: Option<String>,
}

/// A reader decides what it holds: the row must exist, be a judgement, and
/// name a (non-empty) subject, which is what the decision is about.
pub fn reader_target(row: Option<&JudgementRow>) -> (r: Result<String, CommitRefusal>)
    ensures
        row is None ==> r == Err::<String, CommitRefusal>(CommitRefusal::JudgementUnresolved),
        row matches Some(j) && !j.is_marker_dimension ==> r == Err::<String, CommitRefusal>(
            CommitRefusal::NotAJudgement,
        ),
        row matches Some(j) && j.is_marker_dimension && (j.subject is None || j.subject->0@.len()
            == 0) ==> r == Err::<String, CommitRefusal>(CommitRefusal::JudgementSubjectless),
        row matches Some(j) && j.is_marker_dimension && j.subject is Some && j.subject->0@.len() > 0
            ==> (r matches Ok(s) && s@ == row->0.subject->0@),
{
    match row {
        None => Err(CommitRefusal::JudgementUnresolved),
        Some(j) => {
            if !j.is_marker_dimension {
                return Err(CommitRefusal::NotAJudgement);
            }
            match &j.subject {
                Some(t) => if t.unicode_len() > 0 {
                    Ok(t.clone())
                } else {
                    Err(CommitRefusal::JudgementSubjectless)
                },
                None => Err(CommitRefusal::JudgementSubjectless),
            }
        },
    }
}

/// The reader decision's op and its outcome word.
pub fn reader_op(declining: bool) -> (r: (&'static str, &'static str))
    ensures
        r.0@ == (if declining { OP_READER_DECLINE@ } else { OP_READER_HONOUR@ }),
        r.1@ == (if declining { "declined"@ } else { "honoured"@ }),
{
    if declining {
        (OP_READER_DECLINE, "declined")
    } else {
        (OP_READER_HONOUR, "honoured")
    }
}

/// A reader decision's event id: the substrate's id joined with the
/// judgement's, so two decisions about two judgements of one subject in one
/// second stay two events.
pub fn reader_event_id(base: &str, judgement_id: &str) -> (s: String)
    ensures
        s@ == base@ + ":"@ + judgement_id@,
{
    concat3(base, ":", judgement_id)
}

// ─── Quarantine ─────────────────────────────────────────────────────────────

/// A quarantine is filed under a community's authority: the community id,
/// trimmed, refused when blank.
pub fn community_gate(community_id: &str) -> (r: Result<String, CommitRefusal>)
    ensures
        match r {
            Ok(c) => trim_spec(community_id@).len() > 0 && c@ == trim_spec(community_id@),
            Err(e) => trim_spec(community_id@).len() == 0 && e == CommitRefusal::CommunityAbsent,
        },
{
    let c = trim(community_id);
    if c.unicode_len() == 0 {
        Err(CommitRefusal::CommunityAbsent)
    } else {
        Ok(owned(c))
    }
}

/// This node's own fold of a target's quarantine: whether it withholds the
/// target, and the marker that does.
#[derive(Debug)]
pub struct QuarantineFold {
    pub withholds: bool,
    pub marker_id: Option<String>,
}

/// What a quarantine op does for one target.
#[derive(Debug, PartialEq, Eq)]
pub enum QuarantineStep {
    /// Withhold the target.
    Withhold,
    /// Release the withhold this marker holds.
    Release { marker_id: String },
    /// Nothing is withheld here, so there is nothing to release.
    NotWithheld,
}

/// A release must name the withhold it lifts, resolved from this node's own
/// fold: only a fold that withholds, through a named marker, is released.
pub fn quarantine_step(release: bool, fold: &QuarantineFold) -> (step: QuarantineStep)
    ensures
        !release ==> step == QuarantineStep::Withhold,
        release && fold.withholds && fold.marker_id is Some ==> (step matches QuarantineStep::Release {
            marker_id,
        } && marker_id@ == fold.marker_id->0@),
        release && !(fold.withholds && fold.marker_id is Some) ==> step == QuarantineStep::NotWithheld,
{
    if !release {
        return QuarantineStep::Withhold;
    }
    if fold.withholds {
        match &fold.marker_id {
            Some(m) => QuarantineStep::Release { marker_id: m.clone() },
            None => QuarantineStep::NotWithheld,
        }
    } else {
        QuarantineStep::NotWithheld
    }
}

} // verus!
