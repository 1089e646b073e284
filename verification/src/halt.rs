//! The disk-latched accord halt: what the latch records, where it lives, and
//! what the boot gate decides and says.

use vstd::prelude::*;
use crate::prims::{hex_encode, hex_lower, owned, random_32};
use crate::release::{
    join_home, latch_release_digest, missing_binding, path_join, ReleaseBinding, ReleaseVerdict,
};

verus! {

/// The halt-latch filename, written under the node home. Presence == halted.
pub const HALT_LATCH_FILE: &'static str = "HUMANITY_ACCORD_HALT";

/// The process exit code a node uses after latching an accord halt.
pub const HALT_EXIT_CODE: i32 = 42;

/// What the latch records: the invocation that halted the node and what would
/// lift it.
#[derive(Debug)]
pub struct HaltRecord {
    pub invocation_kind: String,
    pub invocation_id: String,
    /// The registered holder `key_id`s whose cosignatures met the quorum.
    pub valid_signers: Vec<String>,
    pub quorum_threshold: usize,
    /// RFC-3339 instant the halt was latched.
    pub latched_at: String,
    /// The federation `key_id` of the node this latch is on.
    pub node_id: Option<String>,
    /// `payload_sha256` of the halt invocation that fired.
    pub halt_payload_sha256: Option<String>,
    /// A fresh CSPRNG id minted per latch write.
    pub latch_id: Option<String>,
    /// Documentation, not authority: the digest a conformant release carries.
    pub release_payload_sha256: Option<String>,
    /// The same, expanded. Also documentation.
    pub release_binding: Option<ReleaseBinding>,
}

/// The record carries the advisory binding its own fields demand: present with
/// its digest exactly when the latch names a node, a halt digest and a latch id.
pub open spec fn stamps_own_binding(r: HaltRecord) -> bool {
    match missing_binding(r) {
        None => {
            &&& r.release_binding matches Some(b)
            &&& b.node_id == r.node_id->0
            &&& b.halt_invocation_id == r.invocation_id
            &&& b.halt_payload_sha256 == r.halt_payload_sha256->0
            &&& b.latch_id == r.latch_id->0
            &&& r.release_payload_sha256 matches Some(d)
            &&& d@ == latch_release_digest(r)
        },
        Some(_) => r.release_binding is None && r.release_payload_sha256 is None,
    }
}

/// The latch id a CSPRNG draw mints: the lowercase hex of the drawn bytes,
/// or none when the draw failed (fail-secure: such a latch names nothing a
/// token could bind to).
pub open spec fn minted_latch_id(drawn: Option<Vec<u8>>) -> Option<Seq<char>> {
    match drawn {
        Some(b) => Some(hex_lower(b@)),
        None => None,
    }
}

/// `r` is the record latched for these fields under a latch id minted from
/// `drawn`, carrying its own advisory binding.
pub open spec fn latched_record(
    r: HaltRecord,
    invocation_kind: String,
    invocation_id: String,
    valid_signers: Vec<String>,
    quorum_threshold: usize,
    latched_at: String,
    node_id: Option<String>,
    halt_payload_sha256: Option<String>,
    drawn: Option<Vec<u8>>,
) -> bool {
    &&& r.invocation_kind == invocation_kind
    &&& r.invocation_id == invocation_id
    &&& r.valid_signers == valid_signers
    &&& r.quorum_threshold == quorum_threshold
    &&& r.latched_at == latched_at
    &&& r.node_id == node_id
    &&& r.halt_payload_sha256 == halt_payload_sha256
    &&& (match r.latch_id {
        Some(l) => minted_latch_id(drawn) == Some(l@),
        None => minted_latch_id(drawn) is None,
    })
    &&& stamps_own_binding(r)
}

impl HaltRecord {
    /// Build the record the halt path latches, minting the per-latch `latch_id`
    /// from a CSPRNG draw (32 bytes) and stamping the advisory release binding.
    pub fn new(
        invocation_kind: String,
        invocation_id: String,
        valid_signers: Vec<String>,
        quorum_threshold: usize,
        latched_at: String,
        node_id: Option<String>,
        halt_payload_sha256: Option<String>,
    ) -> (r: Self)
        ensures
            exists|drawn: Option<Vec<u8>>|
                (drawn matches Some(b) ==> b@.len() == 32) && #[trigger] latched_record(
                    r,
                    invocation_kind,
                    invocation_id,
                    valid_signers,
                    quorum_threshold,
                    latched_at,
                    node_id,
                    halt_payload_sha256,
                    drawn,
                ),
    {
        let drawn = random_32();
        let ghost d = drawn;
        let ghost (k, i, v, q, l, n, h) = (
            invocation_kind,
            invocation_id,
            valid_signers,
            quorum_threshold,
            latched_at,
            node_id,
            halt_payload_sha256,
        );
        let r = Self::from_draw(
            invocation_kind,
            invocation_id,
            valid_signers,
            quorum_threshold,
            latched_at,
            node_id,
            halt_payload_sha256,
            drawn,
        );
        assert(latched_record(r, k, i, v, q, l, n, h, d));
        r
    }

    /// The record the halt path latches, given the CSPRNG draw for its latch id
    /// (`None` when the draw failed).
    pub fn from_draw(
        invocation_kind: String,
        invocation_id: String,
        valid_signers: Vec<String>,
        quorum_threshold: usize,
        latched_at: String,
        node_id: Option<String>,
        halt_payload_sha256: Option<String>,
        drawn: Option<Vec<u8>>,
    ) -> (r: Self)
        ensures
            latched_record(
                r,
                invocation_kind,
                invocation_id,
                valid_signers,
                quorum_threshold,
                latched_at,
                node_id,
                halt_payload_sha256,
                drawn,
            ),
    {
        let latch_id = match &drawn {
            Some(b) => Some(hex_encode(b.as_slice())),
            None => None,
        };
        let mut rec = HaltRecord {
            invocation_kind,
            invocation_id,
            valid_signers,
            quorum_threshold,
            latched_at,
            node_id,
            halt_payload_sha256,
            latch_id,
            release_payload_sha256: None,
            release_binding: None,
        };
        match ReleaseBinding::from_halt_record(&rec) {
            Ok(binding) => {
                rec.release_payload_sha256 = Some(binding.payload_sha256());
                rec.release_binding = Some(binding);
            },
            Err(_) => {},
        }
        rec
    }
}

/// The latch path under a node home.
pub fn halt_latch_path(home: &str) -> (p: String)
    ensures
        p@ == path_join(home@, HALT_LATCH_FILE@),
{
    join_home(home, HALT_LATCH_FILE)
}

/// What the boot gate does.
#[derive(Debug)]
pub enum GateDecision {
    /// No latch: boot.
    Open,
    /// A presented token verified and the latch was cleared: boot.
    Released(ReleaseVerdict),
    /// A presented token was refused: stay down, naming why.
    TokenRefused(String),
    /// Latched and no token presented: stay down.
    Halted,
}

/// The boot gate. `presented` is the outcome of honouring the token found beside
/// the latch (`None` when there is none); it is consulted only while latched.
pub fn halt_gate(latch_present: bool, presented: Option<Result<ReleaseVerdict, String>>) -> (d:
    GateDecision)
    ensures
        !latch_present ==> d is Open,
        latch_present && presented is None ==> d is Halted,
        latch_present ==> (presented matches Some(Ok(v)) ==> d == GateDecision::Released(v)),
        latch_present ==> (presented matches Some(Err(e)) ==> d == GateDecision::TokenRefused(e)),
{
    if !latch_present {
        return GateDecision::Open;
    }
    match presented {
        None => GateDecision::Halted,
        Some(Ok(v)) => GateDecision::Released(v),
        Some(Err(e)) => GateDecision::TokenRefused(e),
    }
}

/// The text of the boot refusal when no token was presented.
pub open spec fn halt_in_effect_text(latch_path: Seq<char>, detail: Seq<char>, token_path: Seq<char>) -> Seq<char> {
    "HUMANITY_ACCORD HALT IN EFFECT — refusing to start.\n\nA 2-of-3 accord CONSTITUTIONAL halt has been honored by this node (CC 4.2.1: kill-switch authority, full halt). This is NOT a recoverable pause (CC 4.2.3): the node stays down until humanity re-activates the accord (accord:lifecycle:active). No operator, steward, or Wise Authority restart can override it.\n\nHalt latch: "@
        + latch_path + "\n"@ + detail
        + "\n\nTWO conformant ways back, both authorized by the accord itself:\n\n(a) OFFLINE release token — no network, no peer, no database. The `release_binding` in the latch above states exactly what the accord must sign; `ciris-server accord release-request --home <home>` prints the invocation and the bytes to cosign. Then either drop the signed token at\n    "@
        + token_path
        + "\nand restart, or run:\n    ciris-server accord release --home <home> --token <token.json>\n\n(b) LIVE-roster reactivation — a verified M-of-N accord:lifecycle:active that includes >=1 of the ORIGINAL (genesis) holders, verified against the family read from persist (use this if the family has rotated past its founders):\n    ciris-server accord reactivate --home <home> --proof <proof.json>\n\nManually deleting the latch is a NON-conformant operator override the accord does not authorize and is not a supported recovery path; the kill-switch holders, not the operator, bring a node back.\n"@
}

/// The boot refusal when no token was presented.
pub fn halt_in_effect_message(latch_path: &str, detail: &str, token_path: &str) -> (s: String)
    ensures
        s@ == halt_in_effect_text(latch_path@, detail@, token_path@),
{
    let mut s = owned(
        "HUMANITY_ACCORD HALT IN EFFECT — refusing to start.\n\nA 2-of-3 accord CONSTITUTIONAL halt has been honored by this node (CC 4.2.1: kill-switch authority, full halt). This is NOT a recoverable pause (CC 4.2.3): the node stays down until humanity re-activates the accord (accord:lifecycle:active). No operator, steward, or Wise Authority restart can override it.\n\nHalt latch: ",
    );
    s.append(latch_path);
    s.append("\n");
    s.append(detail);
    s.append(
        "\n\nTWO conformant ways back, both authorized by the accord itself:\n\n(a) OFFLINE release token — no network, no peer, no database. The `release_binding` in the latch above states exactly what the accord must sign; `ciris-server accord release-request --home <home>` prints the invocation and the bytes to cosign. Then either drop the signed token at\n    ",
    );
    s.append(token_path);
    s.append(
        "\nand restart, or run:\n    ciris-server accord release --home <home> --token <token.json>\n\n(b) LIVE-roster reactivation — a verified M-of-N accord:lifecycle:active that includes >=1 of the ORIGINAL (genesis) holders, verified against the family read from persist (use this if the family has rotated past its founders):\n    ciris-server accord reactivate --home <home> --proof <proof.json>\n\nManually deleting the latch is a NON-conformant operator override the accord does not authorize and is not a supported recovery path; the kill-switch holders, not the operator, bring a node back.\n",
    );
    s
}

/// The text of the boot refusal when a presented token was refused.
pub open spec fn token_refused_text(
    token_path: Seq<char>,
    reason: Seq<char>,
    latch_path: Seq<char>,
    detail: Seq<char>,
) -> Seq<char> {
    "HUMANITY_ACCORD HALT IN EFFECT — refusing to start.\n\nA release token was presented at "@
        + token_path + " and was REFUSED:\n\n  "@ + reason
        + "\n\nThe latch is untouched. Re-read the latch's `release_binding` below and have >=M accord seats cosign a release for THAT binding; a token minted for another node, another halt, or an earlier latch of this halt is not a key to this one.\n\nHalt latch: "@
        + latch_path + "\n"@ + detail + "\n"@
}

/// The boot refusal when a presented token was refused.
pub fn token_refused_message(token_path: &str, reason: &str, latch_path: &str, detail: &str) -> (s:
    String)
    ensures
        s@ == token_refused_text(token_path@, reason@, latch_path@, detail@),
{
    let mut s = owned(
        "HUMANITY_ACCORD HALT IN EFFECT — refusing to start.\n\nA release token was presented at ",
    );
    s.append(token_path);
    s.append(" and was REFUSED:\n\n  ");
    s.append(reason);
    s.append(
        "\n\nThe latch is untouched. Re-read the latch's `release_binding` below and have >=M accord seats cosign a release for THAT binding; a token minted for another node, another halt, or an earlier latch of this halt is not a key to this one.\n\nHalt latch: ",
    );
    s.append(latch_path);
    s.append("\n");
    s.append(detail);
    s.append("\n");
    s
}

// ─── Latching a global halt ─────────────────────────────────────────────────

/// How many times the halt path tries to write its latch before it gives up.
pub const MAX_LATCH_ATTEMPTS: u32 = 8;

/// The longest pause between two latch attempts, in milliseconds.
pub const MAX_LATCH_BACKOFF_MS: u64 = 2000;

/// `50 · 2ⁿ` milliseconds.
pub open spec fn fifty_doubled(n: nat) -> nat
    decreases n,
{
    if n == 0 {
        50
    } else {
        2 * fifty_doubled((n - 1) as nat)
    }
}

/// The pause after failed latch attempt `attempt`: 50 ms, doubled per
/// attempt up to six doublings, and never above two seconds.
pub open spec fn latch_backoff(attempt: u32) -> nat {
    let d = fifty_doubled(if attempt < 6 { attempt as nat } else { 6 });
    if d < MAX_LATCH_BACKOFF_MS { d } else { MAX_LATCH_BACKOFF_MS as nat }
}

/// The pause after failed latch attempt `attempt`, in milliseconds.
pub fn latch_backoff_ms(attempt: u32) -> (ms: u64)
    ensures
        ms == latch_backoff(attempt),
{
    let shift: u32 = if attempt < 6 { attempt } else { 6 };
    let mut d: u64 = 50;
    let mut i: u32 = 0;
    while i < shift
        invariant
            i <= shift <= 6,
            shift == (if attempt < 6 { attempt } else { 6 }),
            d == fifty_doubled(i as nat),
        decreases shift - i,
    {
        assert(fifty_doubled(i as nat) <= 1600) by {
            reveal_with_fuel(fifty_doubled, 7);
        }
        d = d * 2;
        i = i + 1;
    }
    if d < MAX_LATCH_BACKOFF_MS {
        d
    } else {
        MAX_LATCH_BACKOFF_MS
    }
}

/// What the halt path does after one attempt to write its latch.
#[derive(Debug, Clone, Copy, PartialEq, Eq, Structural)]
pub enum LatchNext {
    /// The latch is durable.
    Latched,
    /// Pause, then try again.
    Retry { after_ms: u64 },
    /// Pause, then stop trying: the latch could not be written.
    GiveUp { after_ms: u64 },
}

/// The step after latch attempt `attempt` (counted from one): done when the
/// write held; otherwise a backed-off pause, then another attempt until the
/// last one has failed.
pub fn after_latch_attempt(attempt: u32, written: bool) -> (n: LatchNext)
    requires
        1 <= attempt <= MAX_LATCH_ATTEMPTS,
    ensures
        written ==> n == LatchNext::Latched,
        !written && attempt < MAX_LATCH_ATTEMPTS ==> (n matches LatchNext::Retry { after_ms }
            && after_ms == latch_backoff(attempt)),
        !written && attempt == MAX_LATCH_ATTEMPTS ==> (n matches LatchNext::GiveUp { after_ms }
            && after_ms == latch_backoff(attempt)),
{
    if written {
        LatchNext::Latched
    } else if attempt < MAX_LATCH_ATTEMPTS {
        LatchNext::Retry { after_ms: latch_backoff_ms(attempt) }
    } else {
        LatchNext::GiveUp { after_ms: latch_backoff_ms(attempt) }
    }
}

/// How the process ends after honouring a global halt.
#[derive(Debug, Clone, Copy, PartialEq, Eq, Structural)]
pub enum HaltExit {
    /// A clean exit with this code: the latch (if any) is durable.
    Exit(i32),
    /// An abort: the latch could not be written, so the node must not come
    /// back un-gated.
    Abort,
    /// Keep running (the node was not asked to exit on a halt).
    Stay,
}

/// The end of a honoured global halt: with a home configured and the latch
/// not written, an abort (never the clean exit a restarter would undo);
/// otherwise the clean halt exit. A node not asked to exit on a halt stays.
pub fn halt_exit(home_configured: bool, latched: bool, exit_on_halt: bool) -> (e: HaltExit)
    ensures
        !exit_on_halt ==> e == HaltExit::Stay,
        exit_on_halt && home_configured && !latched ==> e == HaltExit::Abort,
        exit_on_halt && !(home_configured && !latched) ==> e == HaltExit::Exit(HALT_EXIT_CODE),
        e is Exit ==> !home_configured || latched,
{
    if !exit_on_halt {
        HaltExit::Stay
    } else if home_configured && !latched {
        HaltExit::Abort
    } else {
        HaltExit::Exit(HALT_EXIT_CODE)
    }
}

} // verus!
