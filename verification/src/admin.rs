//! The graded admin-op ladder's own rules: the vocabulary, the standings and
//! their sentences, the tier S self-standing fold, the tier R reader policy,
//! and the preview selection with its hash.
//!
//! Every operator-facing sentence is a `{id, text}` [`Message`]: a stable key
//! plus its English source. Every standing that can be a "zero" says which zero
//! it is: never declared, lifted, nothing held and unreadable never render
//! alike.

use vstd::prelude::*;
use crate::prims::{
    decimal, earlier, is_earlier, owned, text_eq, text_less, text_lt, trim, trim_spec, usize_text, Instant,
};

verus! {

// ─── Vocabulary ─────────────────────────────────────────────────────────────

/// The delegation scope of review duty.
pub const DELEGATION_SCOPE_REVIEW: &'static str = "review";
/// The delegation scope of moderation duty.
pub const DELEGATION_SCOPE_MODERATE: &'static str = "moderate";
/// The delegation scope of the harshest acts.
pub const DELEGATION_SCOPE_SLASH: &'static str = "slash";
/// The owner-binding's serving scope.
pub const INFRA_SERVE: &'static str = "infra:serve";

/// Tier 0 (`annotate`) scope.
pub const REQUIRED_SCOPE_ANNOTATE: &'static str = DELEGATION_SCOPE_REVIEW;
/// Tier 1 (`throttle` / `un_throttle`) scope.
pub const REQUIRED_SCOPE_THROTTLE: &'static str = DELEGATION_SCOPE_MODERATE;
/// Tier 2 (`quarantine` / `un_quarantine`) scope: `slash`, as the substrate's
/// own door requires.
pub const REQUIRED_SCOPE_QUARANTINE: &'static str = DELEGATION_SCOPE_SLASH;
/// Tier 3 (`descend`) scope, of every quorum member.
pub const REQUIRED_SCOPE_DESCEND: &'static str = DELEGATION_SCOPE_SLASH;
/// Tier 4 (`deadmit` / `re_admit`) scope.
pub const REQUIRED_SCOPE_DEADMIT: &'static str = DELEGATION_SCOPE_SLASH;
/// Tier 4 write-door (`refuse_writes` / `accept_writes`) scope.
pub const REQUIRED_SCOPE_REFUSE_WRITES: &'static str = DELEGATION_SCOPE_SLASH;
/// The scope every tier S and tier R op requires.
pub const REQUIRED_SCOPE_SELF_DIRECTED: &'static str = INFRA_SERVE;

/// Tier 3 quorum floor: distinct authority roots.
pub const DESCEND_QUORUM_MIN: usize = 2;

/// `admin_action:{op}` suffixes.
pub const OP_ANNOTATE: &'static str = "annotate";
pub const OP_THROTTLE: &'static str = "throttle";
pub const OP_THROTTLE_RELEASE: &'static str = "throttle_release";
pub const OP_DESCEND: &'static str = "descend";
pub const OP_RE_ADMISSION: &'static str = "re_admission";
pub const OP_REFUSE_WRITES: &'static str = "refuse_writes";
pub const OP_ACCEPT_WRITES: &'static str = "accept_writes";
pub const OP_SELF_SHED: &'static str = "self_shed";
pub const OP_SELF_SHED_RELEASE: &'static str = "self_shed_release";
pub const OP_SELF_STOP_ACCEPTING: &'static str = "self_stop_accepting";
pub const OP_SELF_ACCEPTING_RESUMED: &'static str = "self_accepting_resumed";
pub const OP_SELF_COMPELLED: &'static str = "self_compelled";
pub const OP_SELF_COMPULSION_LIFTED: &'static str = "self_compulsion_lifted";
pub const OP_READER_HONOUR: &'static str = "reader_honour";
pub const OP_READER_DECLINE: &'static str = "reader_decline";

/// The `detail` key naming which judgement a reader decision is about.
pub const READER_JUDGEMENT_FIELD: &'static str = "judgement_id";

/// Hard ceiling on the judgement set one tier R fold reads.
pub const MAX_JUDGEMENT_PAGE: usize = 2000;

/// Default page size for a preview.
pub const DEFAULT_PREVIEW_LIMIT: i64 = 500;

/// Hard ceiling on a preview page.
pub const MAX_PREVIEW_LIMIT: i64 = 2000;

/// Version tag inside the selection-hash preimage.
pub const SELECTION_HASH_VERSION: &'static str = "ciris-admin-selection:v1";

/// The locale the `text` half of every message is written in.
pub const SOURCE_LOCALE: &'static str = "en";

/// One localizable string: a stable key plus its English source.
#[derive(Debug, Clone, Copy)]
pub struct Message {
    pub id: &'static str,
    pub text: &'static str,
}

// ─── Where a window was enforced ────────────────────────────────────────────

/// Where the preview's time window was enforced — measured, not asserted.
#[derive(Debug, Clone, Copy, PartialEq, Eq, Structural)]
pub enum WindowEnforcement {
    /// No window was asked for.
    NotRequested,
    /// Asked for, and every row the substrate returned already satisfied it.
    Substrate,
    /// Asked for, and this node had to drop at least one returned row.
    Application,
}

impl WindowEnforcement {
    /// The stable program token.
    pub fn token(self) -> (t: &'static str)
        ensures
            t@ == match self {
                WindowEnforcement::NotRequested => "none"@,
                WindowEnforcement::Substrate => "substrate"@,
                WindowEnforcement::Application => "application"@,
            },
    {
        match self {
            WindowEnforcement::NotRequested => "none",
            WindowEnforcement::Substrate => "substrate",
            WindowEnforcement::Application => "application",
        }
    }
}

// ─── How far a reversal reaches ─────────────────────────────────────────────

/// How far a reversal op actually reaches.
#[derive(Debug, Clone, Copy, PartialEq, Eq, Structural)]
pub enum ReversalReach {
    /// The substrate state flips (`un_quarantine`).
    Substrate,
    /// Nothing in the substrate enforced the original either (`un_throttle`).
    Symmetric,
    /// The original row survives; the reversal is evidence only (`re_admit`).
    EvidenceOnly,
}

impl ReversalReach {
    /// The stable program token.
    pub fn token(self) -> (t: &'static str)
        ensures
            t@ == match self {
                ReversalReach::Substrate => "substrate"@,
                ReversalReach::Symmetric => "symmetric"@,
                ReversalReach::EvidenceOnly => "evidence_only"@,
            },
    {
        match self {
            ReversalReach::Substrate => "substrate",
            ReversalReach::Symmetric => "symmetric",
            ReversalReach::EvidenceOnly => "evidence_only",
        }
    }

    /// The stable message key of [`Self::note`].
    pub open spec fn note_id(self) -> Seq<char> {
        match self {
            ReversalReach::Substrate => "admin.reversal.substrate"@,
            ReversalReach::Symmetric => "admin.reversal.symmetric"@,
            ReversalReach::EvidenceOnly => "admin.reversal.evidence_only"@,
        }
    }

    /// The English source of [`Self::note`].
    pub open spec fn note_text(self) -> Seq<char> {
        match self {
            ReversalReach::Substrate => "The substrate state is reversed: this node stops withholding the key's rows."@,
            ReversalReach::Symmetric => "Nothing in the substrate is reversed because nothing in the substrate enforced the original judgement. Both acts are recorded evidence."@,
            ReversalReach::EvidenceOnly => "The original row survives and is still folded by every reader. This reversal is recorded evidence, not an undo — the substrate exposes no un-revoke."@,
        }
    }

    /// The localizable sentence for this value.
    pub fn note(self) -> (m: Message)
        ensures
            m.id@ == self.note_id(),
            m.text@ == self.note_text(),
    {
        match self {
            ReversalReach::Substrate => Message { id: "admin.reversal.substrate", text: "The substrate state is reversed: this node stops withholding the key's rows." },
            ReversalReach::Symmetric => Message { id: "admin.reversal.symmetric", text: "Nothing in the substrate is reversed because nothing in the substrate enforced the original judgement. Both acts are recorded evidence." },
            ReversalReach::EvidenceOnly => Message { id: "admin.reversal.evidence_only", text: "The original row survives and is still folded by every reader. This reversal is recorded evidence, not an undo — the substrate exposes no un-revoke." },
        }
    }

}

// ─── The write door ─────────────────────────────────────────────────────────

/// Does this node refuse that key's writes right now — and is that knowable?
#[derive(Debug, Clone, Copy, PartialEq, Eq, Structural)]
pub enum AdmissionStanding {
    /// A live de-admission this node authored names the key.
    Refused,
    /// No live de-admission this node authored names the key.
    Admitted,
    /// The corpus could not be read: this node does not know.
    Unreadable,
}

impl AdmissionStanding {
    /// The stable program token a caller branches on.
    pub fn token(self) -> (t: &'static str)
        ensures
            t@ == match self {
                AdmissionStanding::Refused => "refused"@,
                AdmissionStanding::Admitted => "admitted"@,
                AdmissionStanding::Unreadable => "unreadable"@,
            },
    {
        match self {
            AdmissionStanding::Refused => "refused",
            AdmissionStanding::Admitted => "admitted",
            AdmissionStanding::Unreadable => "unreadable",
        }
    }

    /// The stable message key of [`Self::note`].
    pub open spec fn note_id(self) -> Seq<char> {
        match self {
            AdmissionStanding::Refused => "admin.admission.standing.refused"@,
            AdmissionStanding::Admitted => "admin.admission.standing.admitted"@,
            AdmissionStanding::Unreadable => "admin.admission.standing.unreadable"@,
        }
    }

    /// The English source of [`Self::note`].
    pub open spec fn note_text(self) -> Seq<char> {
        match self {
            AdmissionStanding::Refused => "This node holds a live de-admission of this key that it authored itself, so the key's next write into this node's corpus is refused at the substrate's own door."@,
            AdmissionStanding::Admitted => "No live de-admission authored by this node names this key, so its writes are admitted here. This says nothing about any other node: de-admission is local to the corpus that emits it."@,
            AdmissionStanding::Unreadable => "This node could not read its own admission state for this key, so it does not know whether that key's writes are refused. This is NOT 'admitted' — do not render it as one."@,
        }
    }

    /// The localizable sentence for this value.
    pub fn note(self) -> (m: Message)
        ensures
            m.id@ == self.note_id(),
            m.text@ == self.note_text(),
    {
        match self {
            AdmissionStanding::Refused => Message { id: "admin.admission.standing.refused", text: "This node holds a live de-admission of this key that it authored itself, so the key's next write into this node's corpus is refused at the substrate's own door." },
            AdmissionStanding::Admitted => Message { id: "admin.admission.standing.admitted", text: "No live de-admission authored by this node names this key, so its writes are admitted here. This says nothing about any other node: de-admission is local to the corpus that emits it." },
            AdmissionStanding::Unreadable => Message { id: "admin.admission.standing.unreadable", text: "This node could not read its own admission state for this key, so it does not know whether that key's writes are refused. This is NOT 'admitted' — do not render it as one." },
        }
    }

}

/// Is the substrate consulting this node's de-admissions at all?
#[derive(Debug, PartialEq, Eq)]
pub enum DeadmissionGate {
    /// Declared, and it is the identity this node signs as.
    Armed,
    /// No identity declared: de-admission is not enforced here.
    Dormant,
    /// A different identity is declared.
    ForeignIdentity(String),
}

impl DeadmissionGate {
    /// The stable program token.
    pub fn token(&self) -> (t: &'static str)
        ensures
            t@ == match *self {
                DeadmissionGate::Armed => "armed"@,
                DeadmissionGate::Dormant => "dormant"@,
                DeadmissionGate::ForeignIdentity(_) => "foreign_identity"@,
            },
    {
        match self {
            DeadmissionGate::Armed => "armed",
            DeadmissionGate::Dormant => "dormant",
            DeadmissionGate::ForeignIdentity(_) => "foreign_identity",
        }
    }
}

/// Resolve the de-admission enforcement axis: compare the identity the substrate declares with the
/// identity this node signs as.
pub fn deadmission_gate(declared: Option<String>, node_key_id: &str) -> (g: DeadmissionGate)
    ensures
        declared is None ==> g == DeadmissionGate::Dormant,
        declared matches Some(d) ==> (d@ == node_key_id@ ==> g == DeadmissionGate::Armed),
        declared matches Some(d) ==> (d@ != node_key_id@ ==> g == DeadmissionGate::ForeignIdentity(
            d,
        )),
{
    match declared {
        None => DeadmissionGate::Dormant,
        Some(d) => if text_eq(d.as_str(), node_key_id) {
            DeadmissionGate::Armed
        } else {
            DeadmissionGate::ForeignIdentity(d)
        },
    }
}

/// What a throttle reaches: an attributed judgement only.
pub fn throttle_enforcement() -> (m: Message)
    ensures
        m.id@ == "admin.enforcement.throttle"@,
        m.text@ == "Recorded as an attributed judgement only. This substrate has no recipient-authored per-key admission budget: the peer write quota is a fixed runaway-loop backstop, not a policy surface a throttle can key on. Nothing changes what this node accepts from the named keys."@,
{
    Message { id: "admin.enforcement.throttle", text: "Recorded as an attributed judgement only. This substrate has no recipient-authored per-key admission budget: the peer write quota is a fixed runaway-loop backstop, not a policy surface a throttle can key on. Nothing changes what this node accepts from the named keys." }
}

/// What refuse-writes reaches: the next write of the named keys into this corpus.
pub fn refuse_writes_enforcement() -> (m: Message)
    ensures
        m.id@ == "admin.enforcement.refuse_writes"@,
        m.text@ == "This node refuses the named keys' next write into its own corpus, at the substrate's own door and before any other gate runs. It is LOCAL by design: no node decrees another node's admission set, because a globally-effective de-admission would itself be a censorship weapon. Isolation of a genuine abuser is emergent — it arrives when many nodes independently reach the same conclusion — and is never decreed from here."@,
{
    Message { id: "admin.enforcement.refuse_writes", text: "This node refuses the named keys' next write into its own corpus, at the substrate's own door and before any other gate runs. It is LOCAL by design: no node decrees another node's admission set, because a globally-effective de-admission would itself be a censorship weapon. Isolation of a genuine abuser is emergent — it arrives when many nodes independently reach the same conclusion — and is never decreed from here." }
}

/// What refuse-writes does not reach.
pub fn refuse_writes_not_reached() -> (m: Message)
    ensures
        m.id@ == "admin.refuse_writes.not_reached"@,
        m.text@ == "It unwrites nothing. Rows these keys already wrote here are untouched and still served — quarantine is the op that stops serving them. Rows that already replicated to peers are not recalled and cannot be. The keys are not removed, their signatures still verify, and they go on writing to every other node, including this node's peers, from which those rows may arrive here again by replication. One exemption survives on purpose so that a node can always lift its own denial, and it does not ask who is writing: a de-admitted key may still write de-admission rows here (CIRISPersist#608)."@,
{
    Message { id: "admin.refuse_writes.not_reached", text: "It unwrites nothing. Rows these keys already wrote here are untouched and still served — quarantine is the op that stops serving them. Rows that already replicated to peers are not recalled and cannot be. The keys are not removed, their signatures still verify, and they go on writing to every other node, including this node's peers, from which those rows may arrive here again by replication. One exemption survives on purpose so that a node can always lift its own denial, and it does not ask who is writing: a de-admitted key may still write de-admission rows here (CIRISPersist#608)." }
}

/// How refuse-writes is reversed.
pub fn refuse_writes_reversal() -> (m: Message)
    ensures
        m.id@ == "admin.refuse_writes.reversal"@,
        m.text@ == "Reversible, and the reversal reaches the substrate rather than merely recording a change of mind: POST /v1/admin/accept-writes withdraws the de-admission and the key's writes are admitted here again. Two of this ladder's reversals reach the substrate — releasing a quarantine, which restores what this node SERVES, and this one, which restores what it ACCEPTS. Both rows survive and stay readable: 'refused and then re-admitted' is not the same fact as 'never refused'."@,
{
    Message { id: "admin.refuse_writes.reversal", text: "Reversible, and the reversal reaches the substrate rather than merely recording a change of mind: POST /v1/admin/accept-writes withdraws the de-admission and the key's writes are admitted here again. Two of this ladder's reversals reach the substrate — releasing a quarantine, which restores what this node SERVES, and this one, which restores what it ACCEPTS. Both rows survive and stay readable: 'refused and then re-admitted' is not the same fact as 'never refused'." }
}

/// Why the self-directed rung exists: it is the only one available under partition.
pub fn partition_note() -> (m: Message)
    ensures
        m.id@ == "admin.self.partition"@,
        m.text@ == "Every act on this rung is local: the owner-binding walk, the ledger write and this read all touch this node's own database and nothing else. It is the only rung available while partitioned — every other rung has to reach someone."@,
{
    Message { id: "admin.self.partition", text: "Every act on this rung is local: the owner-binding walk, the ledger write and this read all touch this node's own database and nothing else. It is the only rung available while partitioned — every other rung has to reach someone." }
}

/// The note a preview carries when this node, not the substrate, narrowed the window.
pub fn window_in_application_note() -> (m: Message)
    ensures
        m.id@ == "admin.preview.window_in_application"@,
        m.text@ == "The time window is applied by this node, not by the substrate query: the general attestation read does not honour the window axis. The page bound is applied first, so a windowed selection can come back short."@,
{
    Message { id: "admin.preview.window_in_application", text: "The time window is applied by this node, not by the substrate query: the general attestation read does not honour the window axis. The page bound is applied first, so a windowed selection can come back short." }
}


// ─── The order a ledger is folded in ────────────────────────────────────────

/// A fold key: the act's instant, its rank (the rank-`true` act wins a tie at
/// one instant), and its `event_id`.
pub type FoldKey = (Instant, bool, Seq<char>);

/// Ascending fold order: instant, then rank, then `event_id`.
pub open spec fn key_less(a: FoldKey, b: FoldKey) -> bool {
    earlier(a.0, b.0) || (a.0 == b.0 && ((!a.1 && b.1) || (a.1 == b.1 && text_less(a.2, b.2))))
}

/// `text_less` is irreflexive.
pub proof fn lemma_text_less_irreflexive(a: Seq<char>)
    ensures
        !text_less(a, a),
    decreases a.len(),
{
    if a.len() > 0 {
        lemma_text_less_irreflexive(a.drop_first());
    }
}

/// `text_less` is transitive.
pub proof fn lemma_text_less_transitive(a: Seq<char>, b: Seq<char>, c: Seq<char>)
    requires
        text_less(a, b),
        text_less(b, c),
    ensures
        text_less(a, c),
    decreases a.len(),
{
    if a.len() > 0 && b.len() > 0 && c.len() > 0 {
        if (a[0] as u32) == (b[0] as u32) && (b[0] as u32) == (c[0] as u32) {
            lemma_text_less_transitive(a.drop_first(), b.drop_first(), c.drop_first());
        }
    }
}

/// Any two texts are ordered one way or the other, or equal.
pub proof fn lemma_text_less_total(a: Seq<char>, b: Seq<char>)
    ensures
        text_less(a, b) || text_less(b, a) || a == b,
    decreases a.len(),
{
    if a.len() > 0 && b.len() > 0 && (a[0] as u32) == (b[0] as u32) {
        lemma_text_less_total(a.drop_first(), b.drop_first());
        if a.drop_first() == b.drop_first() {
            vstd::utf8::char_u32_cast(a[0], a[0] as u32);
            vstd::utf8::char_u32_cast(b[0], b[0] as u32);
            assert(a[0] == b[0]);
            assert(a.len() == a.drop_first().len() + 1 && b.len() == b.drop_first().len() + 1);
            assert(a =~= b) by {
                assert forall|i: int| 0 <= i < a.len() implies a[i] == b[i] by {
                    if i > 0 {
                        assert(a[i] == a.drop_first()[i - 1]);
                        assert(b[i] == b.drop_first()[i - 1]);
                    }
                }
            }
        }
    } else if a.len() == 0 && b.len() == 0 {
        assert(a =~= b);
    }
}

/// The fold order is a strict total order on keys.
pub proof fn lemma_key_order(a: FoldKey, b: FoldKey, c: FoldKey)
    ensures
        !key_less(a, a),
        key_less(a, b) && key_less(b, c) ==> key_less(a, c),
        key_less(a, b) || key_less(b, a) || a == b,
{
    lemma_text_less_irreflexive(a.2);
    if key_less(a, b) && key_less(b, c) {
        if a.0 == b.0 && b.0 == c.0 && a.1 == b.1 && b.1 == c.1 {
            lemma_text_less_transitive(a.2, b.2, c.2);
        }
    }
    lemma_text_less_total(a.2, b.2);
}

/// Exec comparison of two fold keys.
fn key_lt(at: Instant, ar: bool, aid: &str, bt: Instant, br: bool, bid: &str) -> (r: bool)
    ensures
        r == key_less((at, ar, aid@), (bt, br, bid@)),
{
    if is_earlier(at, bt) {
        true
    } else if !(at.secs == bt.secs && at.nanos == bt.nanos) {
        false
    } else if !ar && br {
        true
    } else if ar != br {
        false
    } else {
        text_lt(aid, bid)
    }
}

/// One admin-action ledger event, as the folds read it: the op suffix of its
/// kind, its target, its instant, its id, and the `detail` fields the folds
/// use (raw, as stored).
#[derive(Debug)]
pub struct LedgerEvent {
    pub op: String,
    pub target_key_id: Option<String>,
    pub emitted_at: Instant,
    pub event_id: String,
    pub delegation_id: Option<String>,
    pub reason: Option<String>,
    pub judgement_id: Option<String>,
}

/// A `detail` string that is present and not blank.
pub open spec fn nonblank(o: Option<String>) -> Option<String> {
    match o {
        Some(s) => if trim_spec(s@).len() > 0 { Some(s) } else { None },
        None => None,
    }
}

/// A `detail` string, when present and not blank.
pub fn detail_str(o: &Option<String>) -> (r: Option<String>)
    ensures
        r == nonblank(*o),
{
    match o {
        Some(s) => if trim(s.as_str()).unicode_len() > 0 {
            Some(s.clone())
        } else {
            None
        },
        None => None,
    }
}

/// `g` is the event that governs the events `sel` selects under `key`: it is
/// selected, no earlier selected event sorts after it, and every later selected
/// event sorts strictly before it — the last element of a stable ascending sort.
pub open spec fn governs(
    events: Seq<LedgerEvent>,
    sel: spec_fn(LedgerEvent) -> bool,
    key: spec_fn(LedgerEvent) -> FoldKey,
    g: int,
) -> bool {
    &&& 0 <= g < events.len()
    &&& sel(events[g])
    &&& forall|j: int|
        0 <= j < events.len() && j != g && #[trigger] sel(events[j]) ==> (j < g ==> !key_less(
            key(events[g]),
            key(events[j]),
        )) && (j > g ==> key_less(key(events[j]), key(events[g])))
}

/// At most one event governs.
pub proof fn lemma_governing_is_unique(
    events: Seq<LedgerEvent>,
    sel: spec_fn(LedgerEvent) -> bool,
    key: spec_fn(LedgerEvent) -> FoldKey,
    g1: int,
    g2: int,
)
    requires
        governs(events, sel, key, g1),
        governs(events, sel, key, g2),
    ensures
        g1 == g2,
{
    if g1 < g2 {
        assert(sel(events[g2]));
        assert(key_less(key(events[g2]), key(events[g1])));
    } else if g2 < g1 {
        assert(sel(events[g1]));
        assert(key_less(key(events[g1]), key(events[g2])));
    }
}

/// Some selected event exists.
pub open spec fn any_selected(events: Seq<LedgerEvent>, sel: spec_fn(LedgerEvent) -> bool) -> bool {
    exists|i: int| 0 <= i < events.len() && #[trigger] sel(events[i])
}

/// The governing event's index (meaningful when one is selected).
pub open spec fn governing(
    events: Seq<LedgerEvent>,
    sel: spec_fn(LedgerEvent) -> bool,
    key: spec_fn(LedgerEvent) -> FoldKey,
) -> int {
    choose|g: int| governs(events, sel, key, g)
}

/// How many events `sel` selects.
pub open spec fn count_selected(events: Seq<LedgerEvent>, sel: spec_fn(LedgerEvent) -> bool) -> nat
    decreases events.len(),
{
    if events.len() == 0 {
        0
    } else {
        count_selected(events.drop_last(), sel) + if sel(events.last()) {
            1nat
        } else {
            0nat
        }
    }
}

/// Keeping the running best over a prefix extends to the next event.
proof fn lemma_best_step(
    events: Seq<LedgerEvent>,
    sel: spec_fn(LedgerEvent) -> bool,
    key: spec_fn(LedgerEvent) -> FoldKey,
    b: int,
    k: int,
)
    requires
        0 <= b < k < events.len(),
        sel(events[b]),
        sel(events[k]),
        forall|j: int|
            0 <= j < k && j != b && #[trigger] sel(events[j]) ==> (j < b ==> !key_less(
                key(events[b]),
                key(events[j]),
            )) && (j > b ==> key_less(key(events[j]), key(events[b]))),
    ensures
        key_less(key(events[k]), key(events[b])) ==> forall|j: int|
            0 <= j < k + 1 && j != b && #[trigger] sel(events[j]) ==> (j < b ==> !key_less(
                key(events[b]),
                key(events[j]),
            )) && (j > b ==> key_less(key(events[j]), key(events[b]))),
        !key_less(key(events[k]), key(events[b])) ==> forall|j: int|
            0 <= j < k + 1 && j != k && #[trigger] sel(events[j]) ==> (j < k ==> !key_less(
                key(events[k]),
                key(events[j]),
            )) && (j > k ==> key_less(key(events[j]), key(events[k]))),
{
    let kb = key(events[b]);
    let kk = key(events[k]);
    if !key_less(kk, kb) {
        assert forall|j: int|
            0 <= j < k + 1 && j != k && #[trigger] sel(events[j]) implies (j < k ==> !key_less(
                kk,
                key(events[j]),
            )) && (j > k ==> key_less(key(events[j]), kk)) by {
            let kj = key(events[j]);
            lemma_key_order(kb, kk, kj);
            lemma_key_order(kk, kj, kb);
            lemma_key_order(kj, kb, kk);
            lemma_key_order(kb, kj, kk);
            lemma_key_order(kk, kb, kj);
        }
    }
}

// ─── Tier S — self-directed ─────────────────────────────────────────────────

/// One of the three self-directed acts; three axes, never folded together.
#[derive(Debug, Clone, Copy, PartialEq, Eq, Structural)]
pub enum SelfAct {
    /// Shed my own load.
    ShedLoad,
    /// Stop accepting — a choice this node made.
    StopAccepting,
    /// Under legal compulsion — force applied from outside the mesh.
    LegalCompulsion,
}

impl SelfAct {
    /// The standing axis this act moves.
    pub open spec fn axis_text(self) -> Seq<char> {
        match self {
            SelfAct::ShedLoad => "load_shed"@,
            SelfAct::StopAccepting => "accepting"@,
            SelfAct::LegalCompulsion => "legal_compulsion"@,
        }
    }

    /// The op suffix of the declaration.
    pub open spec fn assert_text(self) -> Seq<char> {
        match self {
            SelfAct::ShedLoad => OP_SELF_SHED@,
            SelfAct::StopAccepting => OP_SELF_STOP_ACCEPTING@,
            SelfAct::LegalCompulsion => OP_SELF_COMPELLED@,
        }
    }

    /// The op suffix of the lift.
    pub open spec fn lift_text(self) -> Seq<char> {
        match self {
            SelfAct::ShedLoad => OP_SELF_SHED_RELEASE@,
            SelfAct::StopAccepting => OP_SELF_ACCEPTING_RESUMED@,
            SelfAct::LegalCompulsion => OP_SELF_COMPULSION_LIFTED@,
        }
    }

    /// The standing axis this act moves. Stable program token.
    pub fn axis(self) -> (t: &'static str)
        ensures
            t@ == self.axis_text(),
    {
        match self {
            SelfAct::ShedLoad => "load_shed",
            SelfAct::StopAccepting => "accepting",
            SelfAct::LegalCompulsion => "legal_compulsion",
        }
    }

    /// The `admin_action:{op}` suffix of the declaration.
    pub fn assert_op(self) -> (t: &'static str)
        ensures
            t@ == self.assert_text(),
    {
        match self {
            SelfAct::ShedLoad => OP_SELF_SHED,
            SelfAct::StopAccepting => OP_SELF_STOP_ACCEPTING,
            SelfAct::LegalCompulsion => OP_SELF_COMPELLED,
        }
    }

    /// The `admin_action:{op}` suffix of the lift.
    pub fn lift_op(self) -> (t: &'static str)
        ensures
            t@ == self.lift_text(),
    {
        match self {
            SelfAct::ShedLoad => OP_SELF_SHED_RELEASE,
            SelfAct::StopAccepting => OP_SELF_ACCEPTING_RESUMED,
            SelfAct::LegalCompulsion => OP_SELF_COMPULSION_LIFTED,
        }
    }

    /// The three, in declaration order — the closed set.
    pub fn all() -> (v: Vec<SelfAct>)
        ensures
            v@ == seq![SelfAct::ShedLoad, SelfAct::StopAccepting, SelfAct::LegalCompulsion],
    {
        vec![SelfAct::ShedLoad, SelfAct::StopAccepting, SelfAct::LegalCompulsion]
    }

    /// The stable message key of [`Self::enforcement`].
    pub open spec fn enforcement_id(self) -> Seq<char> {
        match self {
            SelfAct::ShedLoad => "admin.self.enforcement.shed"@,
            SelfAct::StopAccepting => "admin.self.enforcement.stop_accepting"@,
            SelfAct::LegalCompulsion => "admin.self.enforcement.compelled"@,
        }
    }

    /// The English source of [`Self::enforcement`].
    pub open spec fn enforcement_text(self) -> Seq<char> {
        match self {
            SelfAct::ShedLoad => "Recorded as this node's own attributed declaration, and nothing more. The mesh-config plane that would carry a load ceiling is authored by trust roots, and this node runs no consumer of the folded values yet, so no loop changes what it carries. What changes is the record: an operator, a peer or a later audit can tell that this node chose to carry less, under whose authority, and when."@,
            SelfAct::StopAccepting => "Recorded as this node's own attributed declaration that it is taking on nothing new. Nothing in this substrate enforces it: the receive plane is peer-blind and the per-peer write quota is a fixed runaway-loop backstop, not a policy surface a stop can key on. The declaration is the artifact — and it is the one a peer reads to stop offering."@,
            SelfAct::LegalCompulsion => "Recorded on its own axis, as its own act. This is a statement about force applied from OUTSIDE the mesh, and by itself it changes nothing this node does — deliberately. A compelled node may be made to keep serving, to stop, or to hand something over; folding any of those into 'this node stopped accepting' would destroy the only signal a downstream party has for telling a choice from a compulsion."@,
        }
    }

    /// What this act actually reaches.
    pub fn enforcement(self) -> (m: Message)
        ensures
            m.id@ == self.enforcement_id(),
            m.text@ == self.enforcement_text(),
    {
        match self {
            SelfAct::ShedLoad => Message { id: "admin.self.enforcement.shed", text: "Recorded as this node's own attributed declaration, and nothing more. The mesh-config plane that would carry a load ceiling is authored by trust roots, and this node runs no consumer of the folded values yet, so no loop changes what it carries. What changes is the record: an operator, a peer or a later audit can tell that this node chose to carry less, under whose authority, and when." },
            SelfAct::StopAccepting => Message { id: "admin.self.enforcement.stop_accepting", text: "Recorded as this node's own attributed declaration that it is taking on nothing new. Nothing in this substrate enforces it: the receive plane is peer-blind and the per-peer write quota is a fixed runaway-loop backstop, not a policy surface a stop can key on. The declaration is the artifact — and it is the one a peer reads to stop offering." },
            SelfAct::LegalCompulsion => Message { id: "admin.self.enforcement.compelled", text: "Recorded on its own axis, as its own act. This is a statement about force applied from OUTSIDE the mesh, and by itself it changes nothing this node does — deliberately. A compelled node may be made to keep serving, to stop, or to hand something over; folding any of those into 'this node stopped accepting' would destroy the only signal a downstream party has for telling a choice from a compulsion." },
        }
    }

    /// The stable message key of [`Self::lift_note`].
    pub open spec fn lift_note_id(self) -> Seq<char> {
        match self {
            SelfAct::ShedLoad => "admin.self.lift.voluntary"@,
            SelfAct::StopAccepting => "admin.self.lift.voluntary"@,
            SelfAct::LegalCompulsion => "admin.self.lift.compelled"@,
        }
    }

    /// The English source of [`Self::lift_note`].
    pub open spec fn lift_note_text(self) -> Seq<char> {
        match self {
            SelfAct::ShedLoad => "Recorded as a distinct act. The declaration it lifts survives, and both remain readable — 'declared and lifted' is not 'never declared'."@,
            SelfAct::StopAccepting => "Recorded as a distinct act. The declaration it lifts survives, and both remain readable — 'declared and lifted' is not 'never declared'."@,
            SelfAct::LegalCompulsion => "Recorded as a distinct act: a compulsion that ENDED is not a compulsion that never happened. The declaration it lifts survives, and both remain readable."@,
        }
    }

    /// The reversal's note.
    pub fn lift_note(self) -> (m: Message)
        ensures
            m.id@ == self.lift_note_id(),
            m.text@ == self.lift_note_text(),
    {
        match self {
            SelfAct::ShedLoad => Message { id: "admin.self.lift.voluntary", text: "Recorded as a distinct act. The declaration it lifts survives, and both remain readable — 'declared and lifted' is not 'never declared'." },
            SelfAct::StopAccepting => Message { id: "admin.self.lift.voluntary", text: "Recorded as a distinct act. The declaration it lifts survives, and both remain readable — 'declared and lifted' is not 'never declared'." },
            SelfAct::LegalCompulsion => Message { id: "admin.self.lift.compelled", text: "Recorded as a distinct act: a compulsion that ENDED is not a compulsion that never happened. The declaration it lifts survives, and both remain readable." },
        }
    }

}

/// The standing on one tier S axis: four values, three of them zeroes that must
/// never render alike.
#[derive(Debug, Clone, Copy, PartialEq, Eq, Structural)]
pub enum SelfStanding {
    /// Declared, not lifted.
    InForce,
    /// Declared and then lifted.
    Lifted,
    /// No act on this axis has ever been recorded here.
    NeverDeclared,
    /// The ledger read failed. Not a zero.
    Unreadable,
}

impl SelfStanding {
    /// The stable program token.
    pub open spec fn token_text(self) -> Seq<char> {
        match self {
            SelfStanding::InForce => "in_force"@,
            SelfStanding::Lifted => "lifted"@,
            SelfStanding::NeverDeclared => "never_declared"@,
            SelfStanding::Unreadable => "unreadable"@,
        }
    }

    /// The stable program token a caller branches on.
    pub fn token(self) -> (t: &'static str)
        ensures
            t@ == self.token_text(),
    {
        match self {
            SelfStanding::InForce => "in_force",
            SelfStanding::Lifted => "lifted",
            SelfStanding::NeverDeclared => "never_declared",
            SelfStanding::Unreadable => "unreadable",
        }
    }

    /// The stable message key of [`Self::note`].
    pub open spec fn note_id(self) -> Seq<char> {
        match self {
            SelfStanding::InForce => "admin.self.standing.in_force"@,
            SelfStanding::Lifted => "admin.self.standing.lifted"@,
            SelfStanding::NeverDeclared => "admin.self.standing.never_declared"@,
            SelfStanding::Unreadable => "admin.self.standing.unreadable"@,
        }
    }

    /// The English source of [`Self::note`].
    pub open spec fn note_text(self) -> Seq<char> {
        match self {
            SelfStanding::InForce => "This node declared this and has not lifted it."@,
            SelfStanding::Lifted => "This node declared this and lifted it again. That is not the same fact as never having declared it."@,
            SelfStanding::NeverDeclared => "This node has never declared this. That is not the same fact as having declared and lifted it, and not the same fact as being unable to read."@,
            SelfStanding::Unreadable => "The record could not be read, so this node does not know its own standing on this axis. This is NOT 'nothing in force' — do not render it as one."@,
        }
    }

    /// The localizable sentence for this value.
    pub fn note(self) -> (m: Message)
        ensures
            m.id@ == self.note_id(),
            m.text@ == self.note_text(),
    {
        match self {
            SelfStanding::InForce => Message { id: "admin.self.standing.in_force", text: "This node declared this and has not lifted it." },
            SelfStanding::Lifted => Message { id: "admin.self.standing.lifted", text: "This node declared this and lifted it again. That is not the same fact as never having declared it." },
            SelfStanding::NeverDeclared => Message { id: "admin.self.standing.never_declared", text: "This node has never declared this. That is not the same fact as having declared and lifted it, and not the same fact as being unable to read." },
            SelfStanding::Unreadable => Message { id: "admin.self.standing.unreadable", text: "The record could not be read, so this node does not know its own standing on this axis. This is NOT 'nothing in force' — do not render it as one." },
        }
    }

}

/// One axis's folded standing, with the evidence that produced it.
#[derive(Debug)]
pub struct SelfFold {
    pub axis: &'static str,
    pub standing: SelfStanding,
    /// The governing act's `event_id`.
    pub event_id: Option<String>,
    /// The governing act's instant.
    pub since: Option<Instant>,
    pub delegation_id: Option<String>,
    pub reason: Option<String>,
    /// How many times this axis has been declared here, ever.
    pub declarations: usize,
    /// How many times it has been lifted here, ever.
    pub lifts: usize,
}

/// The event names this node as its target.
pub open spec fn targets(e: LedgerEvent, node: Seq<char>) -> bool {
    e.target_key_id matches Some(t) && t@ == node
}

/// The event is one of this node's own acts on this axis, already in effect.
pub open spec fn self_act_event(act: SelfAct, node: Seq<char>, now: Instant, e: LedgerEvent) -> bool {
    (e.op@ == act.assert_text() || e.op@ == act.lift_text()) && targets(e, node) && !earlier(
        now,
        e.emitted_at,
    )
}

/// The selector of this node's acts on this axis.
pub open spec fn self_sel(act: SelfAct, node: Seq<char>, now: Instant) -> spec_fn(LedgerEvent) -> bool {
    |e: LedgerEvent| self_act_event(act, node, now, e)
}

/// The selector of this node's declarations on this axis.
pub open spec fn self_decl_sel(act: SelfAct, node: Seq<char>, now: Instant) -> spec_fn(LedgerEvent) -> bool {
    |e: LedgerEvent| self_act_event(act, node, now, e) && e.op@ == act.assert_text()
}

/// The selector of this node's lifts on this axis.
pub open spec fn self_lift_sel(act: SelfAct, node: Seq<char>, now: Instant) -> spec_fn(LedgerEvent) -> bool {
    |e: LedgerEvent| self_act_event(act, node, now, e) && e.op@ != act.assert_text()
}

/// The self fold's key: a declaration wins a tie at one instant.
pub open spec fn self_key(act: SelfAct) -> spec_fn(LedgerEvent) -> FoldKey {
    |e: LedgerEvent| (e.emitted_at, e.op@ == act.assert_text(), e.event_id@)
}

/// The fold owed for these events.
pub open spec fn self_fold_holds(
    f: SelfFold,
    act: SelfAct,
    node: Seq<char>,
    events: Seq<LedgerEvent>,
    now: Instant,
) -> bool {
    let sel = self_sel(act, node, now);
    &&& f.axis@ == act.axis_text()
    &&& f.declarations == count_selected(events, self_decl_sel(act, node, now))
    &&& f.lifts == count_selected(events, self_lift_sel(act, node, now))
    &&& !any_selected(events, sel) ==> {
        &&& f.standing == SelfStanding::NeverDeclared
        &&& f.event_id is None
        &&& f.since is None
        &&& f.delegation_id is None
        &&& f.reason is None
    }
    &&& any_selected(events, sel) ==> {
        let g = governing(events, sel, self_key(act));
        let e = events[g];
        &&& governs(events, sel, self_key(act), g)
        &&& f.standing == (if e.op@ == act.assert_text() {
            SelfStanding::InForce
        } else {
            SelfStanding::Lifted
        })
        &&& f.event_id == Some(e.event_id)
        &&& f.since == Some(e.emitted_at)
        &&& f.delegation_id == nonblank(e.delegation_id)
        &&& f.reason == nonblank(e.reason)
    }
}

/// A declaration on an axis, then that axis's own lift at a later instant
/// (`self_shed` then `self_shed_release`; `self_stop_accepting` then
/// `self_accepting_resumed`; `self_compelled` then `self_compulsion_lifted`),
/// both of this node and both in effect: the axis reads lifted since the
/// lift, once declared and once lifted.
pub proof fn an_axis_is_lifted_by_its_own_lift(
    f: SelfFold,
    act: SelfAct,
    node: Seq<char>,
    decl: LedgerEvent,
    lift: LedgerEvent,
    now: Instant,
)
    requires
        (act == SelfAct::ShedLoad && decl.op@ == OP_SELF_SHED@ && lift.op@ == OP_SELF_SHED_RELEASE@)
            || (act == SelfAct::StopAccepting && decl.op@ == OP_SELF_STOP_ACCEPTING@ && lift.op@
            == OP_SELF_ACCEPTING_RESUMED@) || (act == SelfAct::LegalCompulsion && decl.op@
            == OP_SELF_COMPELLED@ && lift.op@ == OP_SELF_COMPULSION_LIFTED@),
        targets(decl, node),
        targets(lift, node),
        earlier(decl.emitted_at, lift.emitted_at),
        !earlier(now, lift.emitted_at),
        self_fold_holds(f, act, node, seq![decl, lift], now),
    ensures
        f.standing == SelfStanding::Lifted,
        f.since == Some(lift.emitted_at),
        f.event_id == Some(lift.event_id),
        f.declarations == 1,
        f.lifts == 1,
{
    reveal_strlit("self_shed");
    reveal_strlit("self_shed_release");
    reveal_strlit("self_stop_accepting");
    reveal_strlit("self_accepting_resumed");
    reveal_strlit("self_compelled");
    reveal_strlit("self_compulsion_lifted");
    let events = seq![decl, lift];
    let sel = self_sel(act, node, now);
    let key = self_key(act);
    assert(OP_SELF_SHED@.len() != OP_SELF_SHED_RELEASE@.len());
    assert(OP_SELF_STOP_ACCEPTING@.len() != OP_SELF_ACCEPTING_RESUMED@.len());
    assert(OP_SELF_COMPELLED@.len() != OP_SELF_COMPULSION_LIFTED@.len());
    assert(decl.op@ != lift.op@);
    assert(sel(events[0]) && sel(events[1]));
    assert(governs(events, sel, key, 1));
    assert(any_selected(events, sel));
    lemma_governing_is_unique(events, sel, key, governing(events, sel, key), 1);
    assert(events.drop_last() =~= seq![decl]);
    assert(events.drop_last().drop_last() =~= Seq::<LedgerEvent>::empty());
    reveal_with_fuel(count_selected, 3);
    assert(count_selected(seq![decl], self_decl_sel(act, node, now)) == 1);
    assert(count_selected(seq![decl], self_lift_sel(act, node, now)) == 0);
}

/// The pure fold over one axis — a function of `(act, node_key_id, events, now)`
/// and nothing else. Newest wins by `(emitted_at, declaration-beats-lift,
/// event_id)`; acts dated after `now` and other nodes' acts do not count.
pub fn fold_self_standing(act: SelfAct, node_key_id: &str, events: &[LedgerEvent], now: Instant) -> (f:
    SelfFold)
    ensures
        self_fold_holds(f, act, node_key_id@, events@, now),
{
    let ghost sel = self_sel(act, node_key_id@, now);
    let ghost dsel = self_decl_sel(act, node_key_id@, now);
    let ghost lsel = self_lift_sel(act, node_key_id@, now);
    let ghost key = self_key(act);
    let assert_op = act.assert_op();
    let lift_op = act.lift_op();
    let n = events.len();
    let mut best: Option<usize> = None;
    let mut declarations: usize = 0;
    let mut lifts: usize = 0;
    let mut i: usize = 0;
    while i < n
        invariant
            n == events@.len(),
            0 <= i <= n,
            assert_op@ == act.assert_text(),
            lift_op@ == act.lift_text(),
            sel == self_sel(act, node_key_id@, now),
            dsel == self_decl_sel(act, node_key_id@, now),
            lsel == self_lift_sel(act, node_key_id@, now),
            key == self_key(act),
            declarations == count_selected(events@.take(i as int), dsel),
            lifts == count_selected(events@.take(i as int), lsel),
            declarations + lifts <= i,
            best is None ==> forall|j: int| 0 <= j < i ==> !#[trigger] sel(events@[j]),
            best matches Some(b) ==> {
                &&& b < i
                &&& sel(events@[b as int])
                &&& forall|j: int|
                    0 <= j < i && j != b && #[trigger] sel(events@[j]) ==> (j < b ==> !key_less(
                        key(events@[b as int]),
                        key(events@[j]),
                    )) && (j > b ==> key_less(key(events@[j]), key(events@[b as int])))
            },
        decreases n - i,
    {
        let e = &events[i];
        let is_decl = text_eq(e.op.as_str(), assert_op);
        let is_lift = text_eq(e.op.as_str(), lift_op);
        let is_target = match &e.target_key_id {
            Some(t) => text_eq(t.as_str(), node_key_id),
            None => false,
        };
        let in_effect = !is_earlier(now, e.emitted_at);
        let mine = (is_decl || is_lift) && is_target && in_effect;
        assert(events@.take(i + 1).drop_last() =~= events@.take(i as int));
        assert(mine == sel(events@[i as int]));
        if mine {
            if is_decl {
                declarations = declarations + 1;
            } else {
                lifts = lifts + 1;
            }
            match best {
                None => {
                    best = Some(i);
                },
                Some(b) => {
                    let eb = &events[b];
                    let eb_decl = text_eq(eb.op.as_str(), assert_op);
                    proof {
                        lemma_best_step(events@, sel, key, b as int, i as int);
                    }
                    if !key_lt(
                        e.emitted_at,
                        is_decl,
                        e.event_id.as_str(),
                        eb.emitted_at,
                        eb_decl,
                        eb.event_id.as_str(),
                    ) {
                        best = Some(i);
                    }
                },
            }
        }
        i = i + 1;
    }
    assert(events@.take(n as int) =~= events@);
    let axis = act.axis();
    match best {
        None => {
            SelfFold {
                axis,
                standing: SelfStanding::NeverDeclared,
                event_id: None,
                since: None,
                delegation_id: None,
                reason: None,
                declarations,
                lifts,
            }
        },
        Some(b) => {
            let e = &events[b];
            proof {
                assert(governs(events@, sel, key, b as int));
                let g = governing(events@, sel, key);
                lemma_governing_is_unique(events@, sel, key, g, b as int);
            }
            let standing = if text_eq(e.op.as_str(), assert_op) {
                SelfStanding::InForce
            } else {
                SelfStanding::Lifted
            };
            SelfFold {
                axis,
                standing,
                event_id: Some(e.event_id.clone()),
                since: Some(e.emitted_at),
                delegation_id: detail_str(&e.delegation_id),
                reason: detail_str(&e.reason),
                declarations,
                lifts,
            }
        },
    }
}

/// The unreadable standing for one axis — built explicitly, because the
/// default of a standing is a zero and this is not one.
pub fn self_axis_unreadable(act: SelfAct) -> (f: SelfFold)
    ensures
        f.axis@ == act.axis_text(),
        f.standing == SelfStanding::Unreadable,
        f.event_id is None && f.since is None && f.delegation_id is None && f.reason is None,
        f.declarations == 0 && f.lifts == 0,
{
    SelfFold {
        axis: act.axis(),
        standing: SelfStanding::Unreadable,
        event_id: None,
        since: None,
        delegation_id: None,
        reason: None,
        declarations: 0,
        lifts: 0,
    }
}

// ─── Tier R — the reader's own policy ───────────────────────────────────────

/// What this reader does with one judgement.
#[derive(Debug, Clone, Copy, PartialEq, Eq, Structural)]
pub enum ReaderDecision {
    /// This reader decided to honour it.
    HonouredExplicit,
    /// No explicit decision; the signer is subscribed.
    HonouredBySubscription,
    /// No explicit decision and the signer is not subscribed: nobody decided.
    UndecidedUnsubscribed,
    /// This reader refused it — a normal outcome.
    Declined,
}

impl ReaderDecision {
    /// The stable program token.
    pub open spec fn token_text(self) -> Seq<char> {
        match self {
            ReaderDecision::HonouredExplicit => "honoured_explicit"@,
            ReaderDecision::HonouredBySubscription => "honoured_by_subscription"@,
            ReaderDecision::UndecidedUnsubscribed => "undecided_unsubscribed"@,
            ReaderDecision::Declined => "declined"@,
        }
    }

    /// The stable program token.
    pub fn token(self) -> (t: &'static str)
        ensures
            t@ == self.token_text(),
    {
        match self {
            ReaderDecision::HonouredExplicit => "honoured_explicit",
            ReaderDecision::HonouredBySubscription => "honoured_by_subscription",
            ReaderDecision::UndecidedUnsubscribed => "undecided_unsubscribed",
            ReaderDecision::Declined => "declined",
        }
    }

    /// Does this judgement enter this reader's fold?
    pub open spec fn is_honoured(self) -> bool {
        self == ReaderDecision::HonouredExplicit || self == ReaderDecision::HonouredBySubscription
    }

    /// Does this judgement enter this reader's fold?
    pub fn honoured(self) -> (b: bool)
        ensures
            b == self.is_honoured(),
    {
        match self {
            ReaderDecision::HonouredExplicit => true,
            ReaderDecision::HonouredBySubscription => true,
            _ => false,
        }
    }

    /// The stable message key of [`Self::note`].
    pub open spec fn note_id(self) -> Seq<char> {
        match self {
            ReaderDecision::HonouredExplicit => "admin.reader.decision.honoured_explicit"@,
            ReaderDecision::HonouredBySubscription => "admin.reader.decision.honoured_by_subscription"@,
            ReaderDecision::UndecidedUnsubscribed => "admin.reader.decision.undecided_unsubscribed"@,
            ReaderDecision::Declined => "admin.reader.decision.declined"@,
        }
    }

    /// The English source of [`Self::note`].
    pub open spec fn note_text(self) -> Seq<char> {
        match self {
            ReaderDecision::HonouredExplicit => "This reader adopted this judgement deliberately."@,
            ReaderDecision::HonouredBySubscription => "No explicit decision was recorded; this reader subscribes to the signer, so the judgement is honoured by policy."@,
            ReaderDecision::UndecidedUnsubscribed => "This reader does not subscribe to the signer and has recorded no decision. The judgement is not honoured, and that is nobody's decision yet — which is a different fact from having refused it."@,
            ReaderDecision::Declined => "This reader refused this judgement. A normal outcome: an issued judgement is advisory to each reader, and refusing one is the property the whole rung exists for."@,
        }
    }

    /// The localizable sentence for this value.
    pub fn note(self) -> (m: Message)
        ensures
            m.id@ == self.note_id(),
            m.text@ == self.note_text(),
    {
        match self {
            ReaderDecision::HonouredExplicit => Message { id: "admin.reader.decision.honoured_explicit", text: "This reader adopted this judgement deliberately." },
            ReaderDecision::HonouredBySubscription => Message { id: "admin.reader.decision.honoured_by_subscription", text: "No explicit decision was recorded; this reader subscribes to the signer, so the judgement is honoured by policy." },
            ReaderDecision::UndecidedUnsubscribed => Message { id: "admin.reader.decision.undecided_unsubscribed", text: "This reader does not subscribe to the signer and has recorded no decision. The judgement is not honoured, and that is nobody's decision yet — which is a different fact from having refused it." },
            ReaderDecision::Declined => Message { id: "admin.reader.decision.declined", text: "This reader refused this judgement. A normal outcome: an issued judgement is advisory to each reader, and refusing one is the property the whole rung exists for." },
        }
    }

}

/// The standing of a whole tier R read.
#[derive(Debug, Clone, Copy, PartialEq, Eq, Structural)]
pub enum ReaderStanding {
    /// Judgements were held and classified.
    Decided,
    /// This node holds no judgement about that subject at all.
    NoJudgementsHeld,
    /// A read failed: this reader does not know what it holds.
    Unreadable,
}

impl ReaderStanding {
    /// The stable program token.
    pub open spec fn token_text(self) -> Seq<char> {
        match self {
            ReaderStanding::Decided => "decided"@,
            ReaderStanding::NoJudgementsHeld => "no_judgements_held"@,
            ReaderStanding::Unreadable => "unreadable"@,
        }
    }

    /// The stable program token.
    pub fn token(self) -> (t: &'static str)
        ensures
            t@ == self.token_text(),
    {
        match self {
            ReaderStanding::Decided => "decided",
            ReaderStanding::NoJudgementsHeld => "no_judgements_held",
            ReaderStanding::Unreadable => "unreadable",
        }
    }

    /// The stable message key of [`Self::note`].
    pub open spec fn note_id(self) -> Seq<char> {
        match self {
            ReaderStanding::Decided => "admin.reader.standing.decided"@,
            ReaderStanding::NoJudgementsHeld => "admin.reader.standing.none_held"@,
            ReaderStanding::Unreadable => "admin.reader.standing.unreadable"@,
        }
    }

    /// The English source of [`Self::note`].
    pub open spec fn note_text(self) -> Seq<char> {
        match self {
            ReaderStanding::Decided => "Every judgement this node holds about that subject is listed with what this reader does about it."@,
            ReaderStanding::NoJudgementsHeld => "This node holds no judgement about that subject. Nobody has judged it here — which is not the same as this node being unable to say."@,
            ReaderStanding::Unreadable => "This reader could not read its own state, so it cannot say what it honours. This is NOT 'no judgements' and NOT 'nothing withheld' — an unreadable policy rendered as an empty one silently drops every restriction it carried."@,
        }
    }

    /// The localizable sentence for this value.
    pub fn note(self) -> (m: Message)
        ensures
            m.id@ == self.note_id(),
            m.text@ == self.note_text(),
    {
        match self {
            ReaderStanding::Decided => Message { id: "admin.reader.standing.decided", text: "Every judgement this node holds about that subject is listed with what this reader does about it." },
            ReaderStanding::NoJudgementsHeld => Message { id: "admin.reader.standing.none_held", text: "This node holds no judgement about that subject. Nobody has judged it here — which is not the same as this node being unable to say." },
            ReaderStanding::Unreadable => Message { id: "admin.reader.standing.unreadable", text: "This reader could not read its own state, so it cannot say what it honours. This is NOT 'no judgements' and NOT 'nothing withheld' — an unreadable policy rendered as an empty one silently drops every restriction it carried." },
        }
    }

}

/// The standing of a read that succeeded: nothing held is its own answer.
pub fn reader_standing(held: usize) -> (s: ReaderStanding)
    ensures
        held == 0 ==> s == ReaderStanding::NoJudgementsHeld,
        held > 0 ==> s == ReaderStanding::Decided,
{
    if held == 0 {
        ReaderStanding::NoJudgementsHeld
    } else {
        ReaderStanding::Decided
    }
}

/// Is this judgement set too large to fold? Refuses (naming the ceiling); never
/// truncates.
pub fn judgement_page_refusal(held: usize) -> (r: Option<usize>)
    ensures
        held > MAX_JUDGEMENT_PAGE ==> r == Some(MAX_JUDGEMENT_PAGE),
        held <= MAX_JUDGEMENT_PAGE ==> r is None,
{
    if held > MAX_JUDGEMENT_PAGE {
        Some(MAX_JUDGEMENT_PAGE)
    } else {
        None
    }
}

/// The classification rule: an explicit decision beats the subscription default
/// in both directions (`Some(true)` is a decline, `Some(false)` an honour).
pub open spec fn classify_spec(explicit: Option<bool>, subscribed: bool) -> ReaderDecision {
    match explicit {
        Some(true) => ReaderDecision::Declined,
        Some(false) => ReaderDecision::HonouredExplicit,
        None => if subscribed {
            ReaderDecision::HonouredBySubscription
        } else {
            ReaderDecision::UndecidedUnsubscribed
        },
    }
}

/// The classification rule, alone and pure.
pub fn classify_judgement(explicit: Option<bool>, subscribed: bool) -> (d: ReaderDecision)
    ensures
        d == classify_spec(explicit, subscribed),
{
    match explicit {
        Some(true) => ReaderDecision::Declined,
        Some(false) => ReaderDecision::HonouredExplicit,
        None => if subscribed {
            ReaderDecision::HonouredBySubscription
        } else {
            ReaderDecision::UndecidedUnsubscribed
        },
    }
}

/// The event is this reader's decision about judgement `j`.
pub open spec fn decides(e: LedgerEvent, j: Seq<char>) -> bool {
    &&& (e.op@ == OP_READER_HONOUR@ || e.op@ == OP_READER_DECLINE@)
    &&& nonblank(e.judgement_id) matches Some(x)
    &&& x@ == j
}

/// The selector of this reader's decisions about judgement `j`.
pub open spec fn decision_sel(j: Seq<char>) -> spec_fn(LedgerEvent) -> bool {
    |e: LedgerEvent| decides(e, j)
}

/// The reader fold's key: an honour wins a tie at one instant.
pub open spec fn decision_key() -> spec_fn(LedgerEvent) -> FoldKey {
    |e: LedgerEvent| (e.emitted_at, e.op@ == OP_READER_HONOUR@, e.event_id@)
}

/// This reader's explicit decision about judgement `j` (`true` = declined):
/// the governing decision's, or none.
pub open spec fn explicit_decision(events: Seq<LedgerEvent>, j: Seq<char>) -> Option<bool> {
    if any_selected(events, decision_sel(j)) {
        Some(events[governing(events, decision_sel(j), decision_key())].op@ == OP_READER_DECLINE@)
    } else {
        None
    }
}

/// This reader's explicit decision about one judgement: newest wins; at a tie
/// the honour wins.
pub fn reader_decision_for(events: &[LedgerEvent], judgement_id: &str) -> (r: Option<bool>)
    ensures
        r == explicit_decision(events@, judgement_id@),
{
    let ghost sel = decision_sel(judgement_id@);
    let ghost key = decision_key();
    let n = events.len();
    let mut best: Option<usize> = None;
    let mut i: usize = 0;
    while i < n
        invariant
            n == events@.len(),
            0 <= i <= n,
            sel == decision_sel(judgement_id@),
            key == decision_key(),
            best is None ==> forall|j: int| 0 <= j < i ==> !#[trigger] sel(events@[j]),
            best matches Some(b) ==> {
                &&& b < i
                &&& sel(events@[b as int])
                &&& forall|j: int|
                    0 <= j < i && j != b && #[trigger] sel(events@[j]) ==> (j < b ==> !key_less(
                        key(events@[b as int]),
                        key(events@[j]),
                    )) && (j > b ==> key_less(key(events@[j]), key(events@[b as int])))
            },
        decreases n - i,
    {
        let e = &events[i];
        let is_honour = text_eq(e.op.as_str(), OP_READER_HONOUR);
        let is_decline = text_eq(e.op.as_str(), OP_READER_DECLINE);
        let about = match detail_str(&e.judgement_id) {
            Some(x) => text_eq(x.as_str(), judgement_id),
            None => false,
        };
        let mine = (is_honour || is_decline) && about;
        assert(mine == sel(events@[i as int]));
        if mine {
            match best {
                None => {
                    best = Some(i);
                },
                Some(b) => {
                    let eb = &events[b];
                    let eb_honour = text_eq(eb.op.as_str(), OP_READER_HONOUR);
                    proof {
                        lemma_best_step(events@, sel, key, b as int, i as int);
                    }
                    if !key_lt(
                        e.emitted_at,
                        is_honour,
                        e.event_id.as_str(),
                        eb.emitted_at,
                        eb_honour,
                        eb.event_id.as_str(),
                    ) {
                        best = Some(i);
                    }
                },
            }
        }
        i = i + 1;
    }
    match best {
        None => None,
        Some(b) => {
            proof {
                assert(governs(events@, sel, key, b as int));
                let g = governing(events@, sel, key);
                lemma_governing_is_unique(events@, sel, key, g, b as int);
            }
            Some(text_eq(events[b].op.as_str(), OP_READER_DECLINE))
        },
    }
}

/// One judgement this node holds about a subject.
#[derive(Debug)]
pub struct HeldJudgement {
    /// The judgement's `attestation_id`.
    pub judgement_id: String,
    /// Who signed it.
    pub signer_key_id: String,
}

/// The signer is in this reader's subscription set.
pub open spec fn subscribes(subscribed: Seq<String>, signer: Seq<char>) -> bool {
    exists|k: int| 0 <= k < subscribed.len() && #[trigger] subscribed[k]@ == signer
}

/// Is `signer` among `subscribed`?
pub fn is_subscribed(subscribed: &[String], signer: &str) -> (b: bool)
    ensures
        b == subscribes(subscribed@, signer@),
{
    let n = subscribed.len();
    let mut k: usize = 0;
    while k < n
        invariant
            n == subscribed@.len(),
            0 <= k <= n,
            forall|q: int| 0 <= q < k ==> #[trigger] subscribed@[q]@ != signer@,
        decreases n - k,
    {
        if text_eq(subscribed[k].as_str(), signer) {
            return true;
        }
        k = k + 1;
    }
    false
}

/// What this reader does with each judgement it holds: its explicit decision,
/// else its subscription to the signer.
pub fn classify_held(held: &[HeldJudgement], events: &[LedgerEvent], subscribed: &[String]) -> (d:
    Vec<ReaderDecision>)
    ensures
        d@.len() == held@.len(),
        forall|i: int|
            0 <= i < held@.len() ==> #[trigger] d@[i] == classify_spec(
                explicit_decision(events@, held@[i].judgement_id@),
                subscribes(subscribed@, held@[i].signer_key_id@),
            ),
{
    let n = held.len();
    let mut out: Vec<ReaderDecision> = Vec::new();
    let mut i: usize = 0;
    while i < n
        invariant
            n == held@.len(),
            0 <= i <= n,
            out@.len() == i,
            forall|q: int|
                0 <= q < i ==> #[trigger] out@[q] == classify_spec(
                    explicit_decision(events@, held@[q].judgement_id@),
                    subscribes(subscribed@, held@[q].signer_key_id@),
                ),
        decreases n - i,
    {
        let explicit = reader_decision_for(events, held[i].judgement_id.as_str());
        let sub = is_subscribed(subscribed, held[i].signer_key_id.as_str());
        out.push(classify_judgement(explicit, sub));
        i = i + 1;
    }
    out
}

/// What one reader read makes of the judgements held about a subject.
#[derive(Debug)]
pub struct ReaderRead {
    /// `NoJudgementsHeld` when nothing is held, else `Decided`.
    pub standing: ReaderStanding,
    /// What the reader does with each held judgement, in the order held.
    pub decisions: Vec<ReaderDecision>,
    /// The ids of the honoured judgements, in the order held: the rows the
    /// reader's own fold runs over.
    pub honoured: Vec<String>,
}

/// The ids of the honoured judgements among the first `n` held, in order.
pub open spec fn honoured_ids(held: Seq<HeldJudgement>, decisions: Seq<ReaderDecision>, n: int) -> Seq<
    Seq<char>,
>
    decreases n,
{
    if n <= 0 {
        Seq::empty()
    } else {
        let before = honoured_ids(held, decisions, n - 1);
        if decisions[n - 1].is_honoured() {
            before.push(held[n - 1].judgement_id@)
        } else {
            before
        }
    }
}

/// Why a reader read refuses a judgement set larger than one fold reads.
pub open spec fn oversized_read_text(held: nat) -> Seq<char> {
    "this node holds "@ + decimal(held) + " judgements about that subject, above the "@ + decimal(
        MAX_JUDGEMENT_PAGE as nat,
    ) + " a single fold will read; folding a truncated set would report a release nobody signed"@
}

/// One reader read over the judgements held about a subject: refused (never
/// truncated) above the page ceiling; otherwise each judgement classified by
/// this reader's explicit decision, else its subscription to the signer, the
/// honoured ones kept for the reader's fold, and the standing set by whether
/// anything is held.
pub fn reader_read(held: &[HeldJudgement], events: &[LedgerEvent], subscribed: &[String]) -> (r:
    Result<ReaderRead, String>)
    ensures
        held@.len() > MAX_JUDGEMENT_PAGE ==> (r matches Err(m) && m@ == oversized_read_text(
            held@.len(),
        )),
        held@.len() <= MAX_JUDGEMENT_PAGE ==> (r matches Ok(read) && {
            &&& read.standing == (if held@.len() == 0 {
                ReaderStanding::NoJudgementsHeld
            } else {
                ReaderStanding::Decided
            })
            &&& read.decisions@.len() == held@.len()
            &&& forall|i: int|
                0 <= i < held@.len() ==> #[trigger] read.decisions@[i] == classify_spec(
                    explicit_decision(events@, held@[i].judgement_id@),
                    subscribes(subscribed@, held@[i].signer_key_id@),
                )
            &&& read.honoured@.map_values(|x: String| x@) == honoured_ids(
                held@,
                read.decisions@,
                held@.len() as int,
            )
        }),
{
    match judgement_page_refusal(held.len()) {
        Some(cap) => {
            let mut m = owned("this node holds ");
            m.append(usize_text(held.len()).as_str());
            m.append(" judgements about that subject, above the ");
            m.append(usize_text(cap).as_str());
            m.append(
                " a single fold will read; folding a truncated set would report a release nobody signed",
            );
            return Err(m);
        },
        None => {},
    }
    let decisions = classify_held(held, events, subscribed);
    let n = held.len();
    let mut honoured: Vec<String> = Vec::new();
    let mut i: usize = 0;
    while i < n
        invariant
            n == held@.len(),
            decisions@.len() == n,
            0 <= i <= n,
            honoured@.map_values(|x: String| x@) == honoured_ids(held@, decisions@, i as int),
        decreases n - i,
    {
        if decisions[i].honoured() {
            honoured.push(held[i].judgement_id.clone());
        }
        proof {
            assert(honoured@.map_values(|x: String| x@) =~= honoured_ids(held@, decisions@, i + 1));
        }
        i = i + 1;
    }
    Ok(ReaderRead { standing: reader_standing(n), decisions, honoured })
}

} // verus!
