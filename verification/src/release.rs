//! The offline-verifiable release of an accord halt latch.
//!
//! A release token is an `accord:lifecycle:active` invocation whose
//! `payload_sha256` is the digest of a [`ReleaseBinding`] naming exactly which
//! latch on exactly which node it ends. The binding is always recomputed from the
//! LATCH; nothing the token says about its own binding is consulted.
//!
//! The hybrid cosignature check over the invocation's canonical bytes is made by
//! the caller with the accord verifier (it needs the verifier's preimage encoder
//! and threshold verifier); its outcome is handed in as a [`QuorumCheck`], and
//! everything else — which halt, which node, which latch instance, which window —
//! is decided and proved here.

use vstd::prelude::*;
use vstd::utf8::*;
use crate::prims::{
    concat2, concat3, earlier, is_earlier, text_eq, json_quoted, json_string, debug_quote, debug_quoted, clock_or_epoch, owned,
    parse_rfc3339, parsed_instant, sha256_hex, sha256_hex_of, Instant, decimal, render_rfc3339,
    rfc3339_text, usize_text, json_escaped, json_escaping_is_injective, lemma_left_cancel,
    lemma_right_cancel,
};
use crate::halt::HaltRecord;

verus! {

/// Domain tag inside the release payload.
pub const RELEASE_BINDING_PURPOSE: &'static str = "ciris.accord.halt_release.v1";

/// The file an operator drops into the node home to present a release token.
pub const RELEASE_TOKEN_FILE: &'static str = "HUMANITY_ACCORD_RELEASE.json";

/// Append-only JSONL journal of every release attempt.
pub const RELEASE_JOURNAL_FILE: &'static str = "HUMANITY_ACCORD_RELEASES.jsonl";

/// Cap on journal lines surfaced by a journal read (the file is never truncated).
pub const MAX_JOURNAL_LINES_READ: usize = 256;

/// Provenance string for the production authority.
pub const AUTHORITY_SOURCE_BAKED: &'static str = "baked-humanity-accord-genesis";

/// `home` joined with a relative file name, as `Path::join` does on a Unix path:
/// the name itself for an empty home, no extra separator after a trailing `/`.
pub open spec fn path_join(home: Seq<char>, name: Seq<char>) -> Seq<char> {
    if home.len() == 0 {
        name
    } else if home.last() == '/' {
        home + name
    } else {
        home + seq!['/'] + name
    }
}

/// `home` joined with `name` (a relative file name).
pub fn join_home(home: &str, name: &str) -> (p: String)
    ensures
        p@ == path_join(home@, name@),
{
    let n = home.unicode_len();
    if n == 0 {
        owned(name)
    } else if home.get_char(n - 1) == '/' {
        concat2(home, name)
    } else {
        proof {
            reveal_strlit("/");
        }
        concat3(home, "/", name)
    }
}

/// Where the boot gate looks for a presented token.
pub fn release_token_path(home: &str) -> (p: String)
    ensures
        p@ == path_join(home@, RELEASE_TOKEN_FILE@),
{
    join_home(home, RELEASE_TOKEN_FILE)
}

/// Where honoured and refused releases are journaled.
pub fn release_journal_path(home: &str) -> (p: String)
    ensures
        p@ == path_join(home@, RELEASE_JOURNAL_FILE@),
{
    join_home(home, RELEASE_JOURNAL_FILE)
}

// ─── The binding ────────────────────────────────────────────────────────────

/// What a release token must be bound to — derived from the halt latch, never
/// from the token.
#[derive(Debug)]
pub struct ReleaseBinding {
    /// The federation `key_id` of the node whose latch this releases.
    pub node_id: String,
    /// `invocation_id` of the halt being ended.
    pub halt_invocation_id: String,
    /// `payload_sha256` of that halt invocation.
    pub halt_payload_sha256: String,
    /// The id minted when THIS latch was written.
    pub latch_id: String,
}

/// Which binding field a latch lacks (the first missing one, in the order
/// `node_id`, `halt_payload_sha256`, `latch_id`).
#[derive(Debug, Clone, Copy, PartialEq, Eq, Structural)]
pub enum MissingBinding {
    NodeId,
    HaltPayloadSha256,
    LatchId,
}

/// A field that is present and non-empty.
pub open spec fn present(o: Option<String>) -> bool {
    o matches Some(s) && s@.len() > 0
}

/// The first binding field a latch lacks, if any.
pub open spec fn missing_binding(record: HaltRecord) -> Option<MissingBinding> {
    if !present(record.node_id) {
        Some(MissingBinding::NodeId)
    } else if !present(record.halt_payload_sha256) {
        Some(MissingBinding::HaltPayloadSha256)
    } else if !present(record.latch_id) {
        Some(MissingBinding::LatchId)
    } else {
        None
    }
}

/// The canonical (JCS) text of the release payload — the five members sorted by
/// name, each value a JSON string literal.
pub open spec fn release_payload_text(
    node_id: Seq<char>,
    halt_invocation_id: Seq<char>,
    halt_payload_sha256: Seq<char>,
    latch_id: Seq<char>,
) -> Seq<char> {
    "{\"halt_invocation_id\":"@ + json_quoted(halt_invocation_id) + ",\"halt_payload_sha256\":"@
        + json_quoted(halt_payload_sha256) + ",\"latch_id\":"@ + json_quoted(latch_id)
        + ",\"node_id\":"@ + json_quoted(node_id) + ",\"purpose\":"@ + json_quoted(
        RELEASE_BINDING_PURPOSE@,
    ) + "}"@
}

/// A JSON string literal gives back its text: equal literals quote equal texts.
proof fn lemma_json_quoted_injective(a: Seq<char>, b: Seq<char>)
    requires
        json_quoted(a) == json_quoted(b),
    ensures
        a == b,
{
    lemma_right_cancel(seq!['"'] + json_escaped(a), seq!['"'] + json_escaped(b), seq!['"']);
    lemma_left_cancel(seq!['"'], json_escaped(a), json_escaped(b));
    json_escaping_is_injective(a, b);
}

/// The release payload binds every one of its members: two latches that agree
/// on all but the halt payload digest, all but the latch id, or all but the
/// node demand different payload texts — so a token signed for one is not
/// bound to the other.
pub proof fn the_release_payload_binds_each_member(
    h: Seq<char>,
    p1: Seq<char>,
    p2: Seq<char>,
    l1: Seq<char>,
    l2: Seq<char>,
    n1: Seq<char>,
    n2: Seq<char>,
)
    ensures
        p1 != p2 ==> release_payload_text(n1, h, p1, l1) != release_payload_text(n1, h, p2, l1),
        l1 != l2 ==> release_payload_text(n1, h, p1, l1) != release_payload_text(n1, h, p1, l2),
        n1 != n2 ==> release_payload_text(n1, h, p1, l1) != release_payload_text(n2, h, p1, l1),
{
    let k_halt = "{\"halt_invocation_id\":"@;
    let k_payload = ",\"halt_payload_sha256\":"@;
    let k_latch = ",\"latch_id\":"@;
    let k_node = ",\"node_id\":"@;
    let k_purpose = ",\"purpose\":"@;
    let close = "}"@;
    let (qh, qu) = (json_quoted(h), json_quoted(RELEASE_BINDING_PURPOSE@));
    let (qp1, qp2, ql1, ql2, qn1, qn2) = (
        json_quoted(p1),
        json_quoted(p2),
        json_quoted(l1),
        json_quoted(l2),
        json_quoted(n1),
        json_quoted(n2),
    );
    if p1 != p2 && release_payload_text(n1, h, p1, l1) == release_payload_text(n1, h, p2, l1) {
        lemma_right_cancel(
            k_halt + qh + k_payload + qp1 + k_latch + ql1 + k_node + qn1 + k_purpose + qu,
            k_halt + qh + k_payload + qp2 + k_latch + ql1 + k_node + qn1 + k_purpose + qu,
            close,
        );
        lemma_right_cancel(
            k_halt + qh + k_payload + qp1 + k_latch + ql1 + k_node + qn1 + k_purpose,
            k_halt + qh + k_payload + qp2 + k_latch + ql1 + k_node + qn1 + k_purpose,
            qu,
        );
        lemma_right_cancel(
            k_halt + qh + k_payload + qp1 + k_latch + ql1 + k_node + qn1,
            k_halt + qh + k_payload + qp2 + k_latch + ql1 + k_node + qn1,
            k_purpose,
        );
        lemma_right_cancel(
            k_halt + qh + k_payload + qp1 + k_latch + ql1 + k_node,
            k_halt + qh + k_payload + qp2 + k_latch + ql1 + k_node,
            qn1,
        );
        lemma_right_cancel(
            k_halt + qh + k_payload + qp1 + k_latch + ql1,
            k_halt + qh + k_payload + qp2 + k_latch + ql1,
            k_node,
        );
        lemma_right_cancel(
            k_halt + qh + k_payload + qp1 + k_latch,
            k_halt + qh + k_payload + qp2 + k_latch,
            ql1,
        );
        lemma_right_cancel(
            k_halt + qh + k_payload + qp1,
            k_halt + qh + k_payload + qp2,
            k_latch,
        );
        lemma_left_cancel(k_halt + qh + k_payload, qp1, qp2);
        lemma_json_quoted_injective(p1, p2);
    }
    if l1 != l2 && release_payload_text(n1, h, p1, l1) == release_payload_text(n1, h, p1, l2) {
        lemma_right_cancel(
            k_halt + qh + k_payload + qp1 + k_latch + ql1 + k_node + qn1 + k_purpose + qu,
            k_halt + qh + k_payload + qp1 + k_latch + ql2 + k_node + qn1 + k_purpose + qu,
            close,
        );
        lemma_right_cancel(
            k_halt + qh + k_payload + qp1 + k_latch + ql1 + k_node + qn1 + k_purpose,
            k_halt + qh + k_payload + qp1 + k_latch + ql2 + k_node + qn1 + k_purpose,
            qu,
        );
        lemma_right_cancel(
            k_halt + qh + k_payload + qp1 + k_latch + ql1 + k_node + qn1,
            k_halt + qh + k_payload + qp1 + k_latch + ql2 + k_node + qn1,
            k_purpose,
        );
        lemma_right_cancel(
            k_halt + qh + k_payload + qp1 + k_latch + ql1 + k_node,
            k_halt + qh + k_payload + qp1 + k_latch + ql2 + k_node,
            qn1,
        );
        lemma_right_cancel(
            k_halt + qh + k_payload + qp1 + k_latch + ql1,
            k_halt + qh + k_payload + qp1 + k_latch + ql2,
            k_node,
        );
        lemma_left_cancel(k_halt + qh + k_payload + qp1 + k_latch, ql1, ql2);
        lemma_json_quoted_injective(l1, l2);
    }
    if n1 != n2 && release_payload_text(n1, h, p1, l1) == release_payload_text(n2, h, p1, l1) {
        lemma_right_cancel(
            k_halt + qh + k_payload + qp1 + k_latch + ql1 + k_node + qn1 + k_purpose + qu,
            k_halt + qh + k_payload + qp1 + k_latch + ql1 + k_node + qn2 + k_purpose + qu,
            close,
        );
        lemma_right_cancel(
            k_halt + qh + k_payload + qp1 + k_latch + ql1 + k_node + qn1 + k_purpose,
            k_halt + qh + k_payload + qp1 + k_latch + ql1 + k_node + qn2 + k_purpose,
            qu,
        );
        lemma_right_cancel(
            k_halt + qh + k_payload + qp1 + k_latch + ql1 + k_node + qn1,
            k_halt + qh + k_payload + qp1 + k_latch + ql1 + k_node + qn2,
            k_purpose,
        );
        lemma_left_cancel(k_halt + qh + k_payload + qp1 + k_latch + ql1 + k_node, qn1, qn2);
        lemma_json_quoted_injective(n1, n2);
    }
}

/// The release digest: lowercase-hex SHA-256 of the UTF-8 payload text.
pub open spec fn release_digest(
    node_id: Seq<char>,
    halt_invocation_id: Seq<char>,
    halt_payload_sha256: Seq<char>,
    latch_id: Seq<char>,
) -> Seq<char> {
    sha256_hex(
        encode_utf8(
            release_payload_text(node_id, halt_invocation_id, halt_payload_sha256, latch_id),
        ),
    )
}

/// The digest a latch demands of a release token (meaningful when the latch
/// carries a binding).
pub open spec fn latch_release_digest(record: HaltRecord) -> Seq<char> {
    release_digest(
        record.node_id->0@,
        record.invocation_id@,
        record.halt_payload_sha256->0@,
        record.latch_id->0@,
    )
}

impl ReleaseBinding {
    /// The binding's own digest.
    pub open spec fn digest(self) -> Seq<char> {
        release_digest(
            self.node_id@,
            self.halt_invocation_id@,
            self.halt_payload_sha256@,
            self.latch_id@,
        )
    }

    /// Read the binding a latched record demands; fails closed on a latch that
    /// names no node, no halt digest or no latch id.
    pub fn from_halt_record(record: &HaltRecord) -> (r: Result<Self, MissingBinding>)
        ensures
            match missing_binding(*record) {
                Some(m) => r == Err::<Self, MissingBinding>(m),
                None => r matches Ok(b) && b.node_id == record.node_id->0
                    && b.halt_invocation_id == record.invocation_id && b.halt_payload_sha256
                    == record.halt_payload_sha256->0 && b.latch_id == record.latch_id->0,
            },
    {
        let node_id = match &record.node_id {
            Some(s) if s.unicode_len() > 0 => s.clone(),
            _ => return Err(MissingBinding::NodeId),
        };
        let halt_payload_sha256 = match &record.halt_payload_sha256 {
            Some(s) if s.unicode_len() > 0 => s.clone(),
            _ => return Err(MissingBinding::HaltPayloadSha256),
        };
        let latch_id = match &record.latch_id {
            Some(s) if s.unicode_len() > 0 => s.clone(),
            _ => return Err(MissingBinding::LatchId),
        };
        Ok(ReleaseBinding {
            node_id,
            halt_invocation_id: record.invocation_id.clone(),
            halt_payload_sha256,
            latch_id,
        })
    }

    /// The canonical payload text the accord signs the digest of.
    pub fn canonical_payload(&self) -> (s: String)
        ensures
            s@ == release_payload_text(
                self.node_id@,
                self.halt_invocation_id@,
                self.halt_payload_sha256@,
                self.latch_id@,
            ),
    {
        let mut s = owned("{\"halt_invocation_id\":");
        s.append(json_string(self.halt_invocation_id.as_str()).as_str());
        s.append(",\"halt_payload_sha256\":");
        s.append(json_string(self.halt_payload_sha256.as_str()).as_str());
        s.append(",\"latch_id\":");
        s.append(json_string(self.latch_id.as_str()).as_str());
        s.append(",\"node_id\":");
        s.append(json_string(self.node_id.as_str()).as_str());
        s.append(",\"purpose\":");
        s.append(json_string(RELEASE_BINDING_PURPOSE).as_str());
        s.append("}");
        s
    }

    /// `sha256(JCS(payload))`, lowercase hex — the value a conformant release
    /// token carries in `invocation.payload_sha256`.
    pub fn payload_sha256(&self) -> (d: String)
        ensures
            d@ == self.digest(),
    {
        let text = self.canonical_payload();
        sha256_hex_of(text.as_str().as_bytes())
    }
}

impl MissingBinding {
    /// The field's name.
    pub open spec fn field_text(self) -> Seq<char> {
        match self {
            MissingBinding::NodeId => "node_id"@,
            MissingBinding::HaltPayloadSha256 => "halt_payload_sha256"@,
            MissingBinding::LatchId => "latch_id"@,
        }
    }

    /// The refusal sentence for a latch without this field.
    pub open spec fn message_text(self) -> Seq<char> {
        "this halt latch carries no "@ + self.field_text()
            + ": it was written before the offline release token existed, so there is nothing a token could bind to. Use `ciris-server accord reactivate --proof <lifecycle-active.json>` (which reads the live family from persist) to clear it."@
    }

    /// The refusal sentence, as text.
    pub fn message(&self) -> (s: String)
        ensures
            s@ == self.message_text(),
    {
        let field = match self {
            MissingBinding::NodeId => "node_id",
            MissingBinding::HaltPayloadSha256 => "halt_payload_sha256",
            MissingBinding::LatchId => "latch_id",
        };
        concat3(
            "this halt latch carries no ",
            field,
            ": it was written before the offline release token existed, so there is nothing a token could bind to. Use `ciris-server accord reactivate --proof <lifecycle-active.json>` (which reads the live family from persist) to clear it.",
        )
    }
}

// ─── The invocation and the token ───────────────────────────────────────────

/// The accord invocation kinds this node handles.
#[derive(Debug, Clone, Copy, PartialEq, Eq, Structural)]
pub enum InvocationKind {
    /// The 2-of-3 kill switch: a full halt.
    Constitutional,
    /// `accord:lifecycle:active` — the resumption domain.
    LifecycleActive,
    /// A rehearsal of the kill-switch delivery path.
    Drill,
    /// A single-holder announcement.
    Notify,
}

impl InvocationKind {
    /// The wire name of the kind.
    pub open spec fn wire_text(self) -> Seq<char> {
        match self {
            InvocationKind::Constitutional => "CONSTITUTIONAL"@,
            InvocationKind::LifecycleActive => "lifecycle:active"@,
            InvocationKind::Drill => "drill"@,
            InvocationKind::Notify => "notify"@,
        }
    }

    /// The wire name of the kind.
    pub fn wire_name(self) -> (s: &'static str)
        ensures
            s@ == self.wire_text(),
    {
        match self {
            InvocationKind::Constitutional => "CONSTITUTIONAL",
            InvocationKind::LifecycleActive => "lifecycle:active",
            InvocationKind::Drill => "drill",
            InvocationKind::Notify => "notify",
        }
    }
}

/// An accord invocation, as the release logic reads it.
#[derive(Debug)]
pub struct Invocation {
    pub invocation_kind: InvocationKind,
    pub invocation_id: String,
    pub resumes_halt_id: Option<String>,
    pub nonce: String,
    pub asserted_at: String,
    pub valid_until: String,
    pub payload_sha256: String,
}

/// One accord seat's hybrid cosignature (base64 halves).
#[derive(Debug)]
pub struct ThresholdSignature {
    pub member_id: String,
    pub ed25519_signature_base64: String,
    pub mldsa65_signature_base64: Option<String>,
}

/// One accord seat: its id and its hybrid public keys (base64).
#[derive(Debug)]
pub struct ThresholdMember {
    pub member_id: String,
    pub ed25519_public_key_base64: String,
    pub mldsa65_public_key_base64: Option<String>,
}

/// The artifact an operator presents to a halted node.
#[derive(Debug)]
pub struct ReleaseToken {
    /// The `accord:lifecycle:active` invocation.
    pub invocation: Invocation,
    /// The accord-holder cosignatures over the invocation's canonical bytes.
    pub signatures: Vec<ThresholdSignature>,
    /// The binding in the clear, for a human. Advisory only: never consulted.
    pub binding: Option<ReleaseBinding>,
}

/// Who may authorize a release, and at what threshold.
#[derive(Debug)]
pub struct ReleaseAuthority {
    /// The seats whose cosignatures count.
    pub roster: Vec<ThresholdMember>,
    /// M — distinct valid hybrid cosignatures required.
    pub threshold: usize,
    /// Provenance of the two above.
    pub source: String,
}

/// The outcome of the hybrid-cosignature quorum check over the token: the count
/// of distinct valid seats, or the verifier's reason for refusing.
pub type QuorumCheck = Result<usize, String>;

/// What a verified release proved.
#[derive(Debug)]
pub struct ReleaseVerdict {
    pub release_invocation_id: String,
    pub valid_signers: usize,
    pub threshold: usize,
    pub roster_size: usize,
    pub authority_source: String,
    pub bound_payload_sha256: String,
    pub latch_id: String,
    pub node_id: String,
}

/// Why a release token was refused — the first failed check.
#[derive(Debug)]
pub enum ReleaseRefusal {
    /// The latch names nothing a token could bind to.
    Unbound(MissingBinding),
    /// The token is not `accord:lifecycle:active`.
    NotLifecycle(InvocationKind),
    /// The token resumes another halt.
    WrongHalt { resumes: String, latched: String },
    /// The token names no halt it resumes.
    NoResumesHaltId,
    /// The token's digest is not the one this latch demands.
    NotBoundToLatch { expected: String, carried: String, binding_text: String },
    /// The token's `valid_until` is not an RFC-3339 instant.
    BadValidUntil { valid_until: String },
    /// The token's window closed before the reference instant.
    Expired { valid_until: String, reference: Instant, now: String, latched_at: String },
    /// The hybrid cosignatures do not meet the threshold.
    QuorumNotMet { threshold: usize, roster_size: usize, source: String, detail: String },
}

impl InvocationKind {
    /// The kind's variant name, as `{:?}` prints it.
    pub open spec fn debug_text(self) -> Seq<char> {
        match self {
            InvocationKind::Constitutional => "Constitutional"@,
            InvocationKind::LifecycleActive => "LifecycleActive"@,
            InvocationKind::Drill => "Drill"@,
            InvocationKind::Notify => "Notify"@,
        }
    }

    /// The kind's variant name, as `{:?}` prints it.
    pub fn debug_name(self) -> (s: &'static str)
        ensures
            s@ == self.debug_text(),
    {
        match self {
            InvocationKind::Constitutional => "Constitutional",
            InvocationKind::LifecycleActive => "LifecycleActive",
            InvocationKind::Drill => "Drill",
            InvocationKind::Notify => "Notify",
        }
    }
}

/// An instant's `to_rfc3339()` text, or nothing where chrono cannot render it.
pub open spec fn instant_text(t: Instant) -> Seq<char> {
    match rfc3339_text(t.secs, t.nanos) {
        Some(s) => s,
        None => Seq::empty(),
    }
}

impl ReleaseRefusal {
    /// The refusal, as the sentence an operator reads.
    pub open spec fn text(self) -> Seq<char> {
        match self {
            ReleaseRefusal::Unbound(m) => m.message_text(),
            ReleaseRefusal::NotLifecycle(k) => "a release token must be an accord:lifecycle:active invocation, got "@
                + k.debug_text()
                + " — a halt (CONSTITUTIONAL) signature signs a different canonical domain and can never release"@,
            ReleaseRefusal::WrongHalt { resumes, latched } => "the release token resumes halt "@
                + debug_quoted(resumes@) + " but this node is latched on halt "@ + debug_quoted(
                latched@,
            ) + " — a token is valid against exactly the halt it names"@,
            ReleaseRefusal::NoResumesHaltId => "the release token carries no resumes_halt_id — CC 4.2.1.3 makes it mandatory for accord:lifecycle:active, and it is what binds a resumption to the one halt it ends"@,
            ReleaseRefusal::NotBoundToLatch { expected, carried, binding_text } => "the release token is not bound to THIS halt latch.\n  latch demands payload_sha256 = "@
                + expected@ + "\n  token carries     payload_sha256 = "@ + carried@
                + "\n  latch binding = "@ + binding_text@
                + "\nA token minted for another node, another halt, or an earlier latch of this halt cannot release this one."@,
            ReleaseRefusal::BadValidUntil { valid_until } => "release token valid_until "@
                + debug_quoted(valid_until@) + " is not a canonical RFC-3339 instant"@,
            ReleaseRefusal::Expired { valid_until, reference, now, latched_at } => "the release token expired at "@
                + valid_until@ + " (judged against "@ + instant_text(reference)
                + ", the later of this node's clock "@ + now@ + " and the latch's own latched_at "@
                + latched_at@
                + ") — mint a fresh one. A window that closed before this latch even existed cannot be a release for it, whatever the clock says."@,
            ReleaseRefusal::QuorumNotMet { threshold, roster_size, source, detail } => "release quorum NOT met ("@
                + decimal(threshold as nat) + " of "@ + decimal(roster_size as nat)
                + " seats required, authority = "@ + source@ + "): "@ + detail@,
        }
    }

    /// The refusal, as the sentence an operator reads.
    pub fn message(&self) -> (s: String)
        ensures
            s@ == self.text(),
    {
        match self {
            ReleaseRefusal::Unbound(m) => m.message(),
            ReleaseRefusal::NotLifecycle(k) => concat3(
                "a release token must be an accord:lifecycle:active invocation, got ",
                k.debug_name(),
                " — a halt (CONSTITUTIONAL) signature signs a different canonical domain and can never release",
            ),
            ReleaseRefusal::WrongHalt { resumes, latched } => {
                let mut s = owned("the release token resumes halt ");
                s.append(debug_quote(resumes.as_str()).as_str());
                s.append(" but this node is latched on halt ");
                s.append(debug_quote(latched.as_str()).as_str());
                s.append(" — a token is valid against exactly the halt it names");
                s
            },
            ReleaseRefusal::NoResumesHaltId => owned(
                "the release token carries no resumes_halt_id — CC 4.2.1.3 makes it mandatory for accord:lifecycle:active, and it is what binds a resumption to the one halt it ends",
            ),
            ReleaseRefusal::NotBoundToLatch { expected, carried, binding_text } => {
                let mut s = owned(
                    "the release token is not bound to THIS halt latch.\n  latch demands payload_sha256 = ",
                );
                s.append(expected.as_str());
                s.append("\n  token carries     payload_sha256 = ");
                s.append(carried.as_str());
                s.append("\n  latch binding = ");
                s.append(binding_text.as_str());
                s.append(
                    "\nA token minted for another node, another halt, or an earlier latch of this halt cannot release this one.",
                );
                s
            },
            ReleaseRefusal::BadValidUntil { valid_until } => concat3(
                "release token valid_until ",
                debug_quote(valid_until.as_str()).as_str(),
                " is not a canonical RFC-3339 instant",
            ),
            ReleaseRefusal::Expired { valid_until, reference, now, latched_at } => {
                let rendered = match render_rfc3339(*reference) {
                    Some(t) => t,
                    None => String::new(),
                };
                let mut s = owned("the release token expired at ");
                s.append(valid_until.as_str());
                s.append(" (judged against ");
                s.append(rendered.as_str());
                s.append(", the later of this node's clock ");
                s.append(now.as_str());
                s.append(" and the latch's own latched_at ");
                s.append(latched_at.as_str());
                s.append(
                    ") — mint a fresh one. A window that closed before this latch even existed cannot be a release for it, whatever the clock says.",
                );
                s
            },
            ReleaseRefusal::QuorumNotMet { threshold, roster_size, source, detail } => {
                let mut s = owned("release quorum NOT met (");
                s.append(usize_text(*threshold).as_str());
                s.append(" of ");
                s.append(usize_text(*roster_size).as_str());
                s.append(" seats required, authority = ");
                s.append(source.as_str());
                s.append("): ");
                s.append(detail.as_str());
                s
            },
        }
    }
}

/// The checks a release token passes or fails, in the order they run.
#[derive(Debug, Clone, Copy, PartialEq, Eq, Structural)]
pub enum ReleaseStage {
    Unbound(MissingBinding),
    NotLifecycle,
    NoResumesHaltId,
    WrongHalt,
    NotBoundToLatch,
    BadValidUntil,
    Expired,
    /// Every check but the quorum passed.
    Bound,
}

/// The instant expiry is judged against: the wall clock (`now`, or `clock` when
/// `now` does not parse), floored at the latch's own `latched_at` when that
/// parses.
pub open spec fn reference_instant(latched_at: Seq<char>, now: Seq<char>, clock: Instant) -> Instant {
    let n = match parsed_instant(now) {
        Some(t) => t,
        None => clock,
    };
    match parsed_instant(latched_at) {
        Some(l) => if earlier(n, l) { l } else { n },
        None => n,
    }
}

/// How far a token gets against a latch (everything but the quorum).
pub open spec fn release_stage(
    record: HaltRecord,
    inv: Invocation,
    now: Seq<char>,
    clock: Instant,
) -> ReleaseStage {
    if missing_binding(record) is Some {
        ReleaseStage::Unbound(missing_binding(record)->0)
    } else if inv.invocation_kind != InvocationKind::LifecycleActive {
        ReleaseStage::NotLifecycle
    } else if inv.resumes_halt_id is None {
        ReleaseStage::NoResumesHaltId
    } else if inv.resumes_halt_id->0@ != record.invocation_id@ {
        ReleaseStage::WrongHalt
    } else if inv.payload_sha256@ != latch_release_digest(record) {
        ReleaseStage::NotBoundToLatch
    } else if parsed_instant(inv.valid_until@) is None {
        ReleaseStage::BadValidUntil
    } else if earlier(
        parsed_instant(inv.valid_until@)->0,
        reference_instant(record.latched_at@, now, clock),
    ) {
        ReleaseStage::Expired
    } else {
        ReleaseStage::Bound
    }
}

/// Why a count of valid seats short of the threshold is refused.
pub open spec fn short_of_threshold_text(valid: usize, threshold: usize) -> Seq<char> {
    decimal(valid as nat) + " valid hybrid signature(s), "@ + decimal(threshold as nat) + " required"@
}

/// `r` is what verification owes for this latch, token, authority, clock reading
/// and quorum outcome.
pub open spec fn release_outcome(
    r: Result<ReleaseVerdict, ReleaseRefusal>,
    record: HaltRecord,
    token: ReleaseToken,
    authority: ReleaseAuthority,
    now: Seq<char>,
    clock: Instant,
    quorum: QuorumCheck,
) -> bool {
    let inv = token.invocation;
    match release_stage(record, inv, now, clock) {
        ReleaseStage::Unbound(m) => r matches Err(ReleaseRefusal::Unbound(x)) && x == m,
        ReleaseStage::NotLifecycle => r matches Err(ReleaseRefusal::NotLifecycle(k)) && k
            == inv.invocation_kind,
        ReleaseStage::NoResumesHaltId => r matches Err(ReleaseRefusal::NoResumesHaltId),
        ReleaseStage::WrongHalt => r matches Err(ReleaseRefusal::WrongHalt { resumes, latched })
            && resumes@ == inv.resumes_halt_id->0@ && latched@ == record.invocation_id@,
        ReleaseStage::NotBoundToLatch => r matches Err(
            ReleaseRefusal::NotBoundToLatch { expected, carried, binding_text },
        ) && expected@ == latch_release_digest(record) && carried@ == inv.payload_sha256@
            && binding_text@ == release_payload_text(
            record.node_id->0@,
            record.invocation_id@,
            record.halt_payload_sha256->0@,
            record.latch_id->0@,
        ),
        ReleaseStage::BadValidUntil => r matches Err(ReleaseRefusal::BadValidUntil { valid_until })
            && valid_until@ == inv.valid_until@,
        ReleaseStage::Expired => r matches Err(
            ReleaseRefusal::Expired { valid_until, reference, now: n, latched_at },
        ) && valid_until@ == inv.valid_until@ && reference == reference_instant(
            record.latched_at@,
            now,
            clock,
        ) && n@ == now && latched_at@ == record.latched_at@,
        ReleaseStage::Bound => match quorum {
            Ok(valid) => if valid < authority.threshold {
                r matches Err(ReleaseRefusal::QuorumNotMet { threshold, roster_size, source, detail: d })
                    && threshold == authority.threshold && roster_size == authority.roster.len()
                    && source@ == authority.source@ && d@ == short_of_threshold_text(valid, authority.threshold)
            } else {
                r matches Ok(v) && v.release_invocation_id@ == inv.invocation_id@
                && v.valid_signers == valid && v.threshold == authority.threshold && v.roster_size
                == authority.roster.len() && v.authority_source@ == authority.source@
                && v.bound_payload_sha256@ == latch_release_digest(record) && v.latch_id@
                == record.latch_id->0@ && v.node_id@ == record.node_id->0@
            },
            Err(detail) => r matches Err(
                ReleaseRefusal::QuorumNotMet { threshold, roster_size, source, detail: d },
            ) && threshold == authority.threshold && roster_size == authority.roster.len()
                && source@ == authority.source@ && d@ == detail@,
        },
    }
}

/// The reference instant for a latch and a clock reading, with `clock` standing
/// in for `now` when `now` does not parse.
pub fn release_reference_time_at(record: &HaltRecord, now_rfc3339: &str, clock: Instant) -> (t:
    Instant)
    ensures
        t == reference_instant(record.latched_at@, now_rfc3339@, clock),
{
    let now = match parse_rfc3339(now_rfc3339) {
        Some(t) => t,
        None => clock,
    };
    match parse_rfc3339(record.latched_at.as_str()) {
        Some(latched) => if is_earlier(now, latched) {
            latched
        } else {
            now
        },
        None => now,
    }
}

/// The instant expiry is judged against: `max(now, latched_at)` — the wall
/// clock, floored at the halt already on disk. The machine clock is read only
/// when `now_rfc3339` does not parse.
pub fn release_reference_time(record: &HaltRecord, now_rfc3339: &str) -> (t: Instant)
    ensures
        parsed_instant(now_rfc3339@) is Some ==> t == reference_instant(
            record.latched_at@,
            now_rfc3339@,
            Instant { secs: 0, nanos: 0 },
        ),
        exists|clock: Instant| t == reference_instant(record.latched_at@, now_rfc3339@, clock),
{
    let clock = match parse_rfc3339(now_rfc3339) {
        Some(t) => t,
        None => clock_or_epoch(),
    };
    let t = release_reference_time_at(record, now_rfc3339, clock);
    assert(t == reference_instant(record.latched_at@, now_rfc3339@, clock));
    t
}

/// Verify a release token against a latched halt with an explicit clock reading
/// (used only when `now_rfc3339` does not parse) and the cosignature quorum's
/// outcome. Checks, in order: the latch carries a binding; the token is
/// `lifecycle:active`; it resumes THIS latch's halt; its digest is the one
/// recomputed from the latch; it has not expired; the quorum is met.
pub fn verify_release_token_at(
    record: &HaltRecord,
    token: &ReleaseToken,
    authority: &ReleaseAuthority,
    now_rfc3339: &str,
    clock: Instant,
    quorum: QuorumCheck,
) -> (r: Result<ReleaseVerdict, ReleaseRefusal>)
    ensures
        release_outcome(r, *record, *token, *authority, now_rfc3339@, clock, quorum),
{
    let binding = match ReleaseBinding::from_halt_record(record) {
        Ok(b) => b,
        Err(m) => return Err(ReleaseRefusal::Unbound(m)),
    };
    let expected = binding.payload_sha256();
    let inv = &token.invocation;
    if inv.invocation_kind != InvocationKind::LifecycleActive {
        return Err(ReleaseRefusal::NotLifecycle(inv.invocation_kind));
    }
    match &inv.resumes_halt_id {
        None => return Err(ReleaseRefusal::NoResumesHaltId),
        Some(id) => {
            if !(*id == binding.halt_invocation_id) {
                return Err(
                    ReleaseRefusal::WrongHalt {
                        resumes: id.clone(),
                        latched: binding.halt_invocation_id.clone(),
                    },
                );
            }
        },
    }
    if !(inv.payload_sha256 == expected) {
        return Err(
            ReleaseRefusal::NotBoundToLatch {
                expected,
                carried: inv.payload_sha256.clone(),
                binding_text: binding.canonical_payload(),
            },
        );
    }
    let reference = release_reference_time_at(record, now_rfc3339, clock);
    let valid_until = match parse_rfc3339(inv.valid_until.as_str()) {
        Some(t) => t,
        None => return Err(ReleaseRefusal::BadValidUntil { valid_until: inv.valid_until.clone() }),
    };
    if is_earlier(valid_until, reference) {
        return Err(
            ReleaseRefusal::Expired {
                valid_until: inv.valid_until.clone(),
                reference,
                now: owned(now_rfc3339),
                latched_at: record.latched_at.clone(),
            },
        );
    }
    match quorum {
        Err(detail) => Err(
            ReleaseRefusal::QuorumNotMet {
                threshold: authority.threshold,
                roster_size: authority.roster.len(),
                source: authority.source.clone(),
                detail,
            },
        ),
        Ok(valid) => if valid < authority.threshold {
            let mut detail = usize_text(valid);
            detail.append(" valid hybrid signature(s), ");
            detail.append(usize_text(authority.threshold).as_str());
            detail.append(" required");
            Err(
                ReleaseRefusal::QuorumNotMet {
                    threshold: authority.threshold,
                    roster_size: authority.roster.len(),
                    source: authority.source.clone(),
                    detail,
                },
            )
        } else {
            Ok(
            ReleaseVerdict {
                release_invocation_id: inv.invocation_id.clone(),
                valid_signers: valid,
                threshold: authority.threshold,
                roster_size: authority.roster.len(),
                authority_source: authority.source.clone(),
                bound_payload_sha256: expected,
                latch_id: binding.latch_id,
                node_id: binding.node_id,
            },
        )
        },
    }
}

/// Verify a release token against a latched halt — the whole gate, offline. The
/// machine clock is read only when `now_rfc3339` does not parse.
pub fn verify_release_token(
    record: &HaltRecord,
    token: &ReleaseToken,
    authority: &ReleaseAuthority,
    now_rfc3339: &str,
    quorum: QuorumCheck,
) -> (r: Result<ReleaseVerdict, ReleaseRefusal>)
    ensures
        parsed_instant(now_rfc3339@) is Some ==> release_outcome(
            r,
            *record,
            *token,
            *authority,
            now_rfc3339@,
            Instant { secs: 0, nanos: 0 },
            quorum,
        ),
        exists|clock: Instant|
            release_outcome(r, *record, *token, *authority, now_rfc3339@, clock, quorum),
{
    let clock = match parse_rfc3339(now_rfc3339) {
        Some(t) => t,
        None => clock_or_epoch(),
    };
    let r = verify_release_token_at(record, token, authority, now_rfc3339, clock, quorum);
    assert(release_outcome(r, *record, *token, *authority, now_rfc3339@, clock, quorum));
    r
}

/// Producer side: the unsigned `lifecycle:active` invocation the accord seats
/// cosign to release the latch a binding names.
pub fn build_release_invocation(
    binding: &ReleaseBinding,
    invocation_id: &str,
    nonce: &str,
    asserted_at: &str,
    valid_until: &str,
) -> (inv: Invocation)
    ensures
        inv.invocation_kind == InvocationKind::LifecycleActive,
        inv.invocation_id@ == invocation_id@,
        inv.resumes_halt_id matches Some(h) && h == binding.halt_invocation_id,
        inv.nonce@ == nonce@,
        inv.asserted_at@ == asserted_at@,
        inv.valid_until@ == valid_until@,
        inv.payload_sha256@ == binding.digest(),
{
    Invocation {
        invocation_kind: InvocationKind::LifecycleActive,
        invocation_id: owned(invocation_id),
        resumes_halt_id: Some(binding.halt_invocation_id.clone()),
        nonce: owned(nonce),
        asserted_at: owned(asserted_at),
        valid_until: owned(valid_until),
        payload_sha256: binding.payload_sha256(),
    }
}

// ─── The journal ────────────────────────────────────────────────────────────

/// What the journal's last line says, as far as the refusal guard reads it.
#[derive(Debug)]
pub struct JournalLast {
    pub outcome: Option<String>,
    pub token_sha256: Option<String>,
    pub reason: Option<String>,
}

/// The last line records this very refusal (same token, same reason).
pub open spec fn repeats_refusal(last: Option<JournalLast>, token_sha256: Seq<char>, reason: Seq<char>) -> bool {
    match last {
        Some(l) => {
            &&& l.outcome matches Some(o)
            &&& o@ == "refused"@
            &&& l.token_sha256 matches Some(t)
            &&& t@ == token_sha256
            &&& l.reason matches Some(x)
            &&& x@ == reason
        },
        None => false,
    }
}

/// Should a refusal be journaled? Not when the previous line is the identical
/// refusal — a supervisor restart-looping a halted node must not grow the
/// journal without bound.
pub fn should_journal_refusal(last: &Option<JournalLast>, token_sha256: &str, reason: &str) -> (b:
    bool)
    ensures
        b == !repeats_refusal(*last, token_sha256@, reason@),
{
    match last {
        None => true,
        Some(l) => {
            let same_outcome = match &l.outcome {
                Some(o) => text_eq(o.as_str(), "refused"),
                None => false,
            };
            let same_token = match &l.token_sha256 {
                Some(t) => text_eq(t.as_str(), token_sha256),
                None => false,
            };
            let same_reason = match &l.reason {
                Some(x) => text_eq(x.as_str(), reason),
                None => false,
            };
            !(same_outcome && same_token && same_reason)
        },
    }
}

/// The journal's last line, if it has one.
pub open spec fn last_line(journal: Seq<JournalLast>) -> Option<JournalLast> {
    if journal.len() == 0 {
        None
    } else {
        Some(journal.last())
    }
}

/// The journal after the same refusal (`line`, for the token digest and the
/// reason) has been met `k` times, each time appended only where the refusal
/// guard says so.
pub open spec fn journal_after_refusals(
    journal: Seq<JournalLast>,
    line: JournalLast,
    token_sha256: Seq<char>,
    reason: Seq<char>,
    k: nat,
) -> Seq<JournalLast>
    decreases k,
{
    if k == 0 {
        journal
    } else {
        let before = journal_after_refusals(journal, line, token_sha256, reason, (k - 1) as nat);
        if repeats_refusal(last_line(before), token_sha256, reason) {
            before
        } else {
            before.push(line)
        }
    }
}

/// A refusal met again and again (a supervisor restart-looping a halted node
/// on the same bad token) is journaled once: after any number of attempts the
/// journal is what it was after the first, at most one line longer than
/// before, and its last line records the refusal.
pub proof fn a_repeated_refusal_is_journaled_once(
    journal: Seq<JournalLast>,
    line: JournalLast,
    token_sha256: Seq<char>,
    reason: Seq<char>,
    k: nat,
)
    requires
        repeats_refusal(Some(line), token_sha256, reason),
        k >= 1,
    ensures
        journal_after_refusals(journal, line, token_sha256, reason, k) == journal_after_refusals(
            journal,
            line,
            token_sha256,
            reason,
            1,
        ),
        journal_after_refusals(journal, line, token_sha256, reason, k).len() <= journal.len() + 1,
        repeats_refusal(
            last_line(journal_after_refusals(journal, line, token_sha256, reason, k)),
            token_sha256,
            reason,
        ),
    decreases k,
{
    let first = journal_after_refusals(journal, line, token_sha256, reason, 1);
    assert(journal_after_refusals(journal, line, token_sha256, reason, 0) == journal);
    if !repeats_refusal(last_line(journal), token_sha256, reason) {
        assert(first == journal.push(line));
        assert(last_line(first) == Some(line));
    }
    if k > 1 {
        a_repeated_refusal_is_journaled_once(journal, line, token_sha256, reason, (k - 1) as nat);
    }
}

/// The journal lines a read surfaces: the last [`MAX_JOURNAL_LINES_READ`],
/// oldest first.
pub fn journal_tail<T>(all: Vec<T>) -> (out: Vec<T>)
    ensures
        out@ == all@.subrange(
            if all@.len() > MAX_JOURNAL_LINES_READ { all@.len() - MAX_JOURNAL_LINES_READ } else { 0 },
            all@.len() as int,
        ),
{
    let n = all.len();
    let skip: usize = if n > MAX_JOURNAL_LINES_READ { n - MAX_JOURNAL_LINES_READ } else { 0 };
    let mut head = all;
    let out = head.split_off(skip);
    out
}

} // verus!

verus! {

// ─── Laws ───────────────────────────────────────────────────────────────────

/// The reference instant is never more lenient than either input: it is not
/// earlier than the clock reading used, nor than the latch's own `latched_at`.
pub proof fn reference_is_floored_at_latch_and_clock(latched_at: Seq<char>, now: Seq<char>, clock: Instant)
    ensures
        parsed_instant(now) matches Some(n) ==> !earlier(
            reference_instant(latched_at, now, clock),
            n,
        ),
        parsed_instant(now) is None ==> !earlier(reference_instant(latched_at, now, clock), clock),
        parsed_instant(latched_at) matches Some(l) ==> !earlier(
            reference_instant(latched_at, now, clock),
            l,
        ),
{
}

/// Producer and verifier agree: an invocation built from the binding a latch
/// demands, with a window that is still open at the reference instant, passes
/// every check but the quorum.
pub proof fn release_round_trip(
    record: HaltRecord,
    binding: ReleaseBinding,
    inv: Invocation,
    now: Seq<char>,
    clock: Instant,
)
    requires
        missing_binding(record) is None,
        binding.node_id == record.node_id->0,
        binding.halt_invocation_id == record.invocation_id,
        binding.halt_payload_sha256 == record.halt_payload_sha256->0,
        binding.latch_id == record.latch_id->0,
        inv.invocation_kind == InvocationKind::LifecycleActive,
        inv.resumes_halt_id matches Some(h) && h == binding.halt_invocation_id,
        inv.payload_sha256@ == binding.digest(),
        parsed_instant(inv.valid_until@) matches Some(vu) && !earlier(
            vu,
            reference_instant(record.latched_at@, now, clock),
        ),
    ensures
        release_stage(record, inv, now, clock) == ReleaseStage::Bound,
{
}

/// What a latch stores as documentation (`release_payload_sha256`,
/// `release_binding`) and what a token says of its own binding are never
/// authority: two latches and two tokens that differ only there are judged
/// alike.
pub proof fn advisory_fields_are_not_authority(
    r: Result<ReleaseVerdict, ReleaseRefusal>,
    record1: HaltRecord,
    record2: HaltRecord,
    token1: ReleaseToken,
    token2: ReleaseToken,
    authority: ReleaseAuthority,
    now: Seq<char>,
    clock: Instant,
    quorum: QuorumCheck,
)
    requires
        record1.invocation_id == record2.invocation_id,
        record1.latched_at == record2.latched_at,
        record1.node_id == record2.node_id,
        record1.halt_payload_sha256 == record2.halt_payload_sha256,
        record1.latch_id == record2.latch_id,
        token1.invocation == token2.invocation,
    ensures
        release_stage(record1, token1.invocation, now, clock) == release_stage(
            record2,
            token2.invocation,
            now,
            clock,
        ),
        release_outcome(r, record1, token1, authority, now, clock, quorum) == release_outcome(
            r,
            record2,
            token2,
            authority,
            now,
            clock,
            quorum,
        ),
{
}

/// Two verdicts say the same thing, field by field.
pub open spec fn same_verdict(a: ReleaseVerdict, b: ReleaseVerdict) -> bool {
    &&& a.release_invocation_id@ == b.release_invocation_id@
    &&& a.valid_signers == b.valid_signers
    &&& a.threshold == b.threshold
    &&& a.roster_size == b.roster_size
    &&& a.authority_source@ == b.authority_source@
    &&& a.bound_payload_sha256@ == b.bound_payload_sha256@
    &&& a.latch_id@ == b.latch_id@
    &&& a.node_id@ == b.node_id@
}

/// Two verifications, with a `now` that parses, of latches and tokens that
/// differ only in their advisory copies (the latch's stored digest and
/// binding, the token's binding block) both release with the same verdict or
/// both refuse: whatever clock either call might have read.
pub proof fn advisory_fields_change_no_verdict(
    r1: Result<ReleaseVerdict, ReleaseRefusal>,
    r2: Result<ReleaseVerdict, ReleaseRefusal>,
    record1: HaltRecord,
    record2: HaltRecord,
    token1: ReleaseToken,
    token2: ReleaseToken,
    authority: ReleaseAuthority,
    now: Seq<char>,
    clock1: Instant,
    clock2: Instant,
    quorum: QuorumCheck,
)
    requires
        parsed_instant(now) is Some,
        record1.invocation_id == record2.invocation_id,
        record1.latched_at == record2.latched_at,
        record1.node_id == record2.node_id,
        record1.halt_payload_sha256 == record2.halt_payload_sha256,
        record1.latch_id == record2.latch_id,
        token1.invocation == token2.invocation,
        release_outcome(r1, record1, token1, authority, now, clock1, quorum),
        release_outcome(r2, record2, token2, authority, now, clock2, quorum),
    ensures
        r1 is Ok <==> r2 is Ok,
        r1 matches Ok(v1) ==> (r2 matches Ok(v2) && same_verdict(v1, v2)),
{
    assert(reference_instant(record1.latched_at@, now, clock1) == reference_instant(
        record2.latched_at@,
        now,
        clock2,
    ));
    assert(release_stage(record1, token1.invocation, now, clock1) == release_stage(
        record2,
        token2.invocation,
        now,
        clock2,
    ));
}

/// A release that verifies is an `accord:lifecycle:active` resumption of THIS
/// latch's halt, carrying THIS latch's digest, inside its window, with the
/// threshold met by the valid seats — and its verdict names this latch's
/// node and latch instance.
pub proof fn a_verified_release_is_bound_to_its_latch(
    r: Result<ReleaseVerdict, ReleaseRefusal>,
    record: HaltRecord,
    token: ReleaseToken,
    authority: ReleaseAuthority,
    now: Seq<char>,
    clock: Instant,
    quorum: QuorumCheck,
)
    requires
        release_outcome(r, record, token, authority, now, clock, quorum),
        r is Ok,
    ensures
        missing_binding(record) is None,
        token.invocation.invocation_kind == InvocationKind::LifecycleActive,
        token.invocation.resumes_halt_id matches Some(h) && h@ == record.invocation_id@,
        token.invocation.payload_sha256@ == latch_release_digest(record),
        parsed_instant(token.invocation.valid_until@) matches Some(vu) && !earlier(
            vu,
            reference_instant(record.latched_at@, now, clock),
        ),
        quorum is Ok,
        r->Ok_0.node_id@ == record.node_id->0@,
        r->Ok_0.latch_id@ == record.latch_id->0@,
        r->Ok_0.valid_signers == quorum->Ok_0,
        r->Ok_0.valid_signers >= authority.threshold,
        r->Ok_0.threshold == authority.threshold,
{
}

/// A halt signature cannot be replayed as a release: against a latch that
/// carries a binding, any invocation kind other than `lifecycle:active` is
/// refused as such, whatever its signatures.
pub proof fn only_a_lifecycle_invocation_releases(
    r: Result<ReleaseVerdict, ReleaseRefusal>,
    record: HaltRecord,
    token: ReleaseToken,
    authority: ReleaseAuthority,
    now: Seq<char>,
    clock: Instant,
    quorum: QuorumCheck,
)
    requires
        release_outcome(r, record, token, authority, now, clock, quorum),
        missing_binding(record) is None,
        token.invocation.invocation_kind != InvocationKind::LifecycleActive,
    ensures
        r matches Err(ReleaseRefusal::NotLifecycle(k)) && k == token.invocation.invocation_kind,
{
}

/// A latch that names no binding can never be released by any token.
pub proof fn an_unbound_latch_is_never_released(
    r: Result<ReleaseVerdict, ReleaseRefusal>,
    record: HaltRecord,
    token: ReleaseToken,
    authority: ReleaseAuthority,
    now: Seq<char>,
    clock: Instant,
    quorum: QuorumCheck,
)
    requires
        release_outcome(r, record, token, authority, now, clock, quorum),
        missing_binding(record) is Some,
    ensures
        r matches Err(ReleaseRefusal::Unbound(m)) && missing_binding(record) == Some(m),
{
}

// ─── Live-roster reactivation: what is checked before any store is opened ────

/// Why a live-roster reactivation is refused before the roster is read.
#[derive(Debug)]
pub enum ReactivationRefusal {
    /// There is no latch at this path: nothing to reactivate.
    NotHalted { latch_path: String },
    /// The proof is not an `accord:lifecycle:active` invocation.
    NotLifecycle(InvocationKind),
}

impl ReactivationRefusal {
    /// The refusal's text.
    pub open spec fn text(&self) -> Seq<char> {
        match self {
            ReactivationRefusal::NotHalted { latch_path } => "no HUMANITY_ACCORD halt latch at "@
                + latch_path@ + " — the node is not halted; nothing to reactivate"@,
            ReactivationRefusal::NotLifecycle(k) => "the reactivation proof must be an accord:lifecycle:active invocation, got "@
                + k.debug_text(),
        }
    }

    /// The refusal's text.
    pub fn message(&self) -> (s: String)
        ensures
            s@ == self.text(),
    {
        match self {
            ReactivationRefusal::NotHalted { latch_path } => concat3(
                "no HUMANITY_ACCORD halt latch at ",
                latch_path.as_str(),
                " — the node is not halted; nothing to reactivate",
            ),
            ReactivationRefusal::NotLifecycle(k) => concat2(
                "the reactivation proof must be an accord:lifecycle:active invocation, got ",
                k.debug_name(),
            ),
        }
    }
}

/// A reactivation needs a latch to clear and a lifecycle proof, checked in
/// that order.
pub fn reactivation_precheck(latch_present: bool, latch_path: &str, proof_kind: InvocationKind) -> (r:
    Result<(), ReactivationRefusal>)
    ensures
        !latch_present ==> (r matches Err(ReactivationRefusal::NotHalted { latch_path: p }) && p@
            == latch_path@),
        latch_present && proof_kind != InvocationKind::LifecycleActive ==> (r matches Err(
            ReactivationRefusal::NotLifecycle(k),
        ) && k == proof_kind),
        latch_present && proof_kind == InvocationKind::LifecycleActive ==> r is Ok,
{
    if !latch_present {
        return Err(ReactivationRefusal::NotHalted { latch_path: owned(latch_path) });
    }
    if proof_kind != InvocationKind::LifecycleActive {
        return Err(ReactivationRefusal::NotLifecycle(proof_kind));
    }
    Ok(())
}

} // verus!
