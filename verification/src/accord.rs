//! The accord coordination rules the kill-switch surface runs on: the halt
//! wiring, the bounded event log, the roster's one-key-one-seat gate, the
//! quorum a kill or a canonical op needs, and the invocations the node mints.

use vstd::prelude::*;
use crate::prims::{
    base64url_nopad, base64url_nopad_encode, concat3, clock_or_epoch, random_32, render_rfc3339_millis,
    rfc3339_millis_text, sha256_hex, sha256_hex_of, trim, trim_spec, earlier, parse_rfc3339,
    parsed_instant, Instant, is_earlier, owned, copy_texts, text_eq, concat2, uuid_from_random, uuid_v4_of,
};
use vstd::utf8::*;
use crate::release::{Invocation, InvocationKind, ThresholdMember, ThresholdSignature};
use crate::halt::{latched_record, HaltRecord};

verus! {

/// The 2-of-3 holder threshold surfaced in responses.
pub const ACCORD_THRESHOLD: usize = 2;

/// Cap on the in-memory surfaced-events log (oldest dropped on overflow).
pub const MAX_ACCORD_EVENTS: usize = 1024;

/// Cap on pending accord invocations.
pub const MAX_PENDING_INVOCATIONS: usize = 4096;

/// Cap on the replication loop-stop table.
pub const MAX_SEEN_INVOCATIONS: usize = 16_384;

/// The node-boot wiring the operational halt needs.
#[derive(Debug)]
pub struct AccordHalt {
    /// The node home the halt latch is written under; `None` disables the latch.
    pub home: Option<String>,
    /// Known-peer base URLs the node replicates accord messages to.
    pub peers: Vec<String>,
    /// Whether a verified halt terminates the process after latching.
    pub exit_on_halt: bool,
}

impl AccordHalt {
    /// The inert default — no disk latch, no peers, no process exit.
    pub fn disabled() -> (h: Self)
        ensures
            h.home is None,
            h.peers@.len() == 0,
            !h.exit_on_halt,
    {
        AccordHalt { home: None, peers: Vec::new(), exit_on_halt: false }
    }
}

// ─── The surfaced-events log ────────────────────────────────────────────────

/// A surfaced, non-binding accord event (a completed drill or an announce).
#[derive(Debug)]
pub struct AccordEvent {
    /// `"drill"` or `"announce"`.
    pub event_type: String,
    pub invocation_id: String,
    pub recorded_at: String,
    pub signers: Vec<String>,
    pub quorum_threshold: usize,
    pub message: Option<String>,
}

/// The log already holds an event of this type and id.
pub open spec fn event_seen(events: Seq<AccordEvent>, e: AccordEvent) -> bool {
    exists|i: int|
        0 <= i < events.len() && #[trigger] events[i].event_type@ == e.event_type@
            && events[i].invocation_id@ == e.invocation_id@
}

/// How many of the oldest events an insertion drops.
pub open spec fn event_overflow(len: nat) -> nat {
    if len >= MAX_ACCORD_EVENTS { (len + 1 - MAX_ACCORD_EVENTS) as nat } else { 0 }
}

/// The log after recording `e`, and whether it was newly recorded.
pub open spec fn recorded(events: Seq<AccordEvent>, e: AccordEvent) -> (Seq<AccordEvent>, bool) {
    if event_seen(events, e) {
        (events, false)
    } else {
        (events.subrange(event_overflow(events.len()) as int, events.len() as int).push(e), true)
    }
}

/// Record a completed non-binding event, idempotently (the same type and id is a
/// no-op) and bounded (oldest dropped on overflow). Returns whether it was
/// newly recorded.
pub fn record_event(events: &mut Vec<AccordEvent>, event: AccordEvent) -> (fresh: bool)
    ensures
        (final(events)@, fresh) == recorded(old(events)@, event),
{
    let n = events.len();
    let mut i: usize = 0;
    while i < n
        invariant
            n == events@.len(),
            0 <= i <= n,
            forall|j: int|
                0 <= j < i ==> !(#[trigger] events@[j].event_type@ == event.event_type@
                    && events@[j].invocation_id@ == event.invocation_id@),
        decreases n - i,
    {
        if events[i].event_type == event.event_type && events[i].invocation_id
            == event.invocation_id {
            return false;
        }
        i = i + 1;
    }
    let overflow: usize = if n >= MAX_ACCORD_EVENTS { n - MAX_ACCORD_EVENTS + 1 } else { 0 };
    let mut kept = events.split_off(overflow);
    kept.push(event);
    *events = kept;
    true
}

/// The log never exceeds its cap once within it, and recording the same event
/// twice is recording it once.
pub proof fn the_event_log_is_bounded_and_idempotent(events: Seq<AccordEvent>, e: AccordEvent)
    ensures
        events.len() <= MAX_ACCORD_EVENTS ==> recorded(events, e).0.len() <= MAX_ACCORD_EVENTS,
        recorded(recorded(events, e).0, e) == (recorded(events, e).0, false),
        recorded(events, e).1 ==> recorded(events, e).0.last() == e,
{
    let after = recorded(events, e).0;
    if !event_seen(events, e) {
        let k = after.len() - 1;
        assert(after[k] == e);
        assert(after[k].event_type@ == e.event_type@ && after[k].invocation_id@ == e.invocation_id@);
        assert(event_seen(after, e));
    }
}

// ─── Invocations this node mints ────────────────────────────────────────────

/// Lowercase-hex SHA-256 — the payload-hash form an announce's message binds to.
pub fn payload_hash_hex(bytes: &[u8]) -> (s: String)
    ensures
        s@ == sha256_hex(bytes@),
{
    sha256_hex_of(bytes)
}

/// An instant's millisecond RFC-3339 text, or nothing where chrono cannot
/// render it.
pub open spec fn millis_text(t: Instant) -> Seq<char> {
    match rfc3339_millis_text(t.secs, t.nanos) {
        Some(s) => s,
        None => Seq::empty(),
    }
}

/// One hour after `t` (saturating at the end of the `i64` second range).
pub open spec fn one_hour_after(t: Instant) -> Instant {
    Instant {
        secs: if t.secs <= i64::MAX - 3600 { (t.secs + 3600) as i64 } else { i64::MAX },
        nanos: t.nanos,
    }
}

/// The invocation's window opens at `t` and closes an hour later.
pub open spec fn window_from(inv: Invocation, t: Instant) -> bool {
    inv.asserted_at@ == millis_text(t) && inv.valid_until@ == millis_text(one_hour_after(t))
}

/// The nonce bytes a draw gives: the drawn bytes, or 32 zero bytes when the
/// CSPRNG failed (a drill or a notify is non-binding, so a fault degrades the
/// nonce rather than failing the invocation).
pub open spec fn nonce_bytes(drawn: Option<Vec<u8>>) -> Seq<u8> {
    match drawn {
        Some(b) => b@,
        None => Seq::new(32, |i: int| 0u8),
    }
}

/// `inv` is the invocation of `kind` named `id` over `payload` that the node
/// synthesizes from the nonce draw `drawn` at the instant `t`: no halt it
/// resumes, the payload's digest, the base64url nonce, and a one-hour window
/// from `t`.
pub open spec fn synthesized_from(
    inv: Invocation,
    kind: InvocationKind,
    id: Seq<char>,
    payload: Seq<u8>,
    drawn: Option<Vec<u8>>,
    t: Instant,
) -> bool {
    &&& inv.invocation_kind == kind
    &&& inv.invocation_id@ == id
    &&& inv.resumes_halt_id is None
    &&& inv.payload_sha256@ == sha256_hex(payload)
    &&& inv.nonce@ == base64url_nopad(nonce_bytes(drawn))
    &&& window_from(inv, t)
}

/// A draw and a clock reading as the node's primitives can give them: 32
/// bytes when the draw succeeds, an instant at or after the epoch.
pub open spec fn possible_draw(drawn: Option<Vec<u8>>, t: Instant) -> bool {
    &&& drawn matches Some(b) ==> b@.len() == 32
    &&& 0 <= t.secs && t.nanos < 1_000_000_000
}

/// The last second of year 9999 less an hour: a window opened up to here
/// closes inside the four-digit-year range RFC 3339 renders and reads back.
pub const LAST_WINDOW_OPENING: i64 = 253402297199;

/// Synthesize a non-binding invocation from a nonce draw (`None` when the
/// CSPRNG failed) and the current instant.
pub fn synth_invocation_from(
    kind: InvocationKind,
    invocation_id: &str,
    payload: &[u8],
    drawn: Option<Vec<u8>>,
    now: Instant,
) -> (inv: Invocation)
    requires
        drawn matches Some(b) ==> b@.len() == 32,
        now.nanos < 1_000_000_000,
    ensures
        synthesized_from(inv, kind, invocation_id@, payload@, drawn, now),
        inv.nonce@.len() == 43,
        0 <= now.secs <= LAST_WINDOW_OPENING ==> parsed_instant(inv.asserted_at@) is Some
            && parsed_instant(inv.valid_until@) is Some,
{
    let nonce: Vec<u8> = match drawn {
        Some(b) => b,
        None => vec![0u8; 32],
    };
    proof {
        assert(nonce@ =~= nonce_bytes(drawn));
    }
    let later = Instant {
        secs: if now.secs <= i64::MAX - 3600 { now.secs + 3600 } else { i64::MAX },
        nanos: now.nanos,
    };
    let asserted_at = match render_rfc3339_millis(now) {
        Some(s) => s,
        None => String::new(),
    };
    let valid_until = match render_rfc3339_millis(later) {
        Some(s) => s,
        None => String::new(),
    };
    let inv = Invocation {
        invocation_kind: kind,
        invocation_id: owned(invocation_id),
        resumes_halt_id: None,
        nonce: base64url_nopad_encode(nonce.as_slice()),
        asserted_at,
        valid_until,
        payload_sha256: payload_hash_hex(payload),
    };
    assert(window_from(inv, now));
    inv
}

/// Synthesize a fresh non-binding invocation (a drill, a notify, or a halt's
/// opening) the node signs on a holder's behalf: a CSPRNG nonce (zero on a
/// CSPRNG fault), a one-hour window from now, and `payload_sha256` binding the
/// payload.
pub fn synth_invocation(kind: InvocationKind, invocation_id: &str, payload: &[u8]) -> (inv:
    Invocation)
    ensures
        exists|drawn: Option<Vec<u8>>, t: Instant|
            possible_draw(drawn, t) && #[trigger] synthesized_from(
                inv,
                kind,
                invocation_id@,
                payload@,
                drawn,
                t,
            ) && (t.secs <= LAST_WINDOW_OPENING ==> parsed_instant(inv.valid_until@) is Some),
        inv.nonce@.len() == 43,
{
    let drawn = random_32();
    let now = clock_or_epoch();
    let ghost d = drawn;
    let inv = synth_invocation_from(kind, invocation_id, payload, drawn, now);
    assert(possible_draw(d, now) && synthesized_from(inv, kind, invocation_id@, payload@, d, now));
    inv
}

/// Is a pending invocation still live at `now`? Only when its `valid_until`
/// parses and lies strictly after `now`.
pub fn still_pending(valid_until: &str, now: Instant) -> (live: bool)
    ensures
        live == (parsed_instant(valid_until@) matches Some(vu) && earlier(now, vu)),
{
    match parse_rfc3339(valid_until) {
        Some(vu) => is_earlier(now, vu),
        None => false,
    }
}

// ─── The roster and its quorum ──────────────────────────────────────────────

/// Member `i` reuses an Ed25519 key an earlier member holds.
pub open spec fn ed_reused_at(roster: Seq<ThresholdMember>, i: int) -> bool {
    exists|j: int|
        0 <= j < i && #[trigger] roster[j].ed25519_public_key_base64@
            == roster[i].ed25519_public_key_base64@
}

/// Both members carry an ML-DSA-65 key and it is the same key.
pub open spec fn same_pq_key(a: Option<String>, b: Option<String>) -> bool {
    &&& a matches Some(x)
    &&& b matches Some(y)
    &&& x@ == y@
}

/// Member `i` reuses an ML-DSA-65 key an earlier member holds.
pub open spec fn pq_reused_at(roster: Seq<ThresholdMember>, i: int) -> bool {
    exists|j: int|
        0 <= j < i && same_pq_key(
            #[trigger] roster[j].mldsa65_public_key_base64,
            roster[i].mldsa65_public_key_base64,
        )
}

/// Member `i` would sit in a second seat.
pub open spec fn reused_at(roster: Seq<ThresholdMember>, i: int) -> bool {
    ed_reused_at(roster, i) || pq_reused_at(roster, i)
}

/// The refusal naming the first member that reuses a key.
pub open spec fn duplicate_text(m: ThresholdMember, ed: bool) -> Seq<char> {
    if ed {
        "kill-switch roster has a DUPLICATE Ed25519 key (member "@ + m.member_id@
            + ") — one key cannot hold two seats"@
    } else {
        "kill-switch roster has a DUPLICATE ML-DSA-65 key (member "@ + m.member_id@ + ")"@
    }
}

/// Every two seats of the roster hold different Ed25519 keys, and never the
/// same ML-DSA-65 key where both carry one.
pub open spec fn seats_hold_distinct_keys(roster: Seq<ThresholdMember>) -> bool {
    forall|j: int, i: int|
        0 <= j < i < roster.len() ==> #[trigger] roster[j].ed25519_public_key_base64@
            != #[trigger] roster[i].ed25519_public_key_base64@ && !same_pq_key(
            roster[j].mldsa65_public_key_base64,
            roster[i].mldsa65_public_key_base64,
        )
}

/// One key, one seat: a roster in which no member reuses an earlier member's
/// key is exactly a roster whose seats all hold pairwise different keys —
/// every pair of seats, not only neighbours.
pub proof fn no_reuse_is_one_key_per_seat(roster: Seq<ThresholdMember>)
    ensures
        (forall|i: int| 0 <= i < roster.len() ==> !reused_at(roster, i)) <==> seats_hold_distinct_keys(
            roster,
        ),
{
    if forall|i: int| 0 <= i < roster.len() ==> !reused_at(roster, i) {
        assert forall|j: int, i: int| 0 <= j < i < roster.len() implies #[trigger] roster[j].ed25519_public_key_base64@
            != #[trigger] roster[i].ed25519_public_key_base64@ && !same_pq_key(
            roster[j].mldsa65_public_key_base64,
            roster[i].mldsa65_public_key_base64,
        ) by {
            assert(!reused_at(roster, i));
            if roster[j].ed25519_public_key_base64@ == roster[i].ed25519_public_key_base64@ {
                assert(ed_reused_at(roster, i));
            }
            if same_pq_key(roster[j].mldsa65_public_key_base64, roster[i].mldsa65_public_key_base64) {
                assert(pq_reused_at(roster, i));
            }
        }
    }
    if seats_hold_distinct_keys(roster) {
        assert forall|i: int| 0 <= i < roster.len() implies !reused_at(roster, i) by {
            if ed_reused_at(roster, i) {
                let j = choose|j: int|
                    0 <= j < i && #[trigger] roster[j].ed25519_public_key_base64@
                        == roster[i].ed25519_public_key_base64@;
                assert(roster[j].ed25519_public_key_base64@ != roster[i].ed25519_public_key_base64@);
            }
            if pq_reused_at(roster, i) {
                let j = choose|j: int|
                    0 <= j < i && same_pq_key(
                        #[trigger] roster[j].mldsa65_public_key_base64,
                        roster[i].mldsa65_public_key_base64,
                    );
                assert(roster[j].ed25519_public_key_base64@ != roster[i].ed25519_public_key_base64@);
            }
        }
    }
}

/// One key never holds two seats: refuse a roster in which any member reuses an
/// earlier member's Ed25519 or ML-DSA-65 key, naming the first such member.
pub fn assert_distinct_roster(roster: &[ThresholdMember]) -> (r: Result<(), String>)
    ensures
        r is Ok <==> forall|i: int| 0 <= i < roster@.len() ==> !reused_at(roster@, i),
        r is Ok <==> seats_hold_distinct_keys(roster@),
        r matches Err(msg) ==> exists|i: int|
            0 <= i < roster@.len() && reused_at(roster@, i) && (forall|k: int|
                0 <= k < i ==> !reused_at(roster@, k)) && msg@ == duplicate_text(
                roster@[i],
                ed_reused_at(roster@, i),
            ),
{
    proof {
        no_reuse_is_one_key_per_seat(roster@);
    }
    let n = roster.len();
    let mut i: usize = 0;
    while i < n
        invariant
            n == roster@.len(),
            0 <= i <= n,
            forall|k: int| 0 <= k < i ==> !reused_at(roster@, k),
        decreases n - i,
    {
        let mut ed_dup = false;
        let mut pq_dup = false;
        let mut j: usize = 0;
        while j < i
            invariant
                n == roster@.len(),
                0 <= j <= i < n,
                ed_dup <==> exists|q: int|
                    0 <= q < j && #[trigger] roster@[q].ed25519_public_key_base64@
                        == roster@[i as int].ed25519_public_key_base64@,
                pq_dup <==> exists|q: int|
                    0 <= q < j && same_pq_key(
                        #[trigger] roster@[q].mldsa65_public_key_base64,
                        roster@[i as int].mldsa65_public_key_base64,
                    ),
            decreases i - j,
        {
            if roster[j].ed25519_public_key_base64 == roster[i].ed25519_public_key_base64 {
                ed_dup = true;
            }
            match (&roster[j].mldsa65_public_key_base64, &roster[i].mldsa65_public_key_base64) {
                (Some(a), Some(b)) => {
                    if *a == *b {
                        pq_dup = true;
                    }
                },
                _ => {},
            }
            j = j + 1;
        }
        assert(ed_dup == ed_reused_at(roster@, i as int));
        assert(pq_dup == pq_reused_at(roster@, i as int));
        if ed_dup || pq_dup {
            assert(reused_at(roster@, i as int));
            assert(!seats_hold_distinct_keys(roster@)) by {
                no_reuse_is_one_key_per_seat(roster@);
                assert(!(forall|k: int| 0 <= k < roster@.len() ==> !reused_at(roster@, k)));
            }
        }
        if ed_dup {
            return Err(
                concat3(
                    "kill-switch roster has a DUPLICATE Ed25519 key (member ",
                    roster[i].member_id.as_str(),
                    ") — one key cannot hold two seats",
                ),
            );
        }
        if pq_dup {
            return Err(
                concat3(
                    "kill-switch roster has a DUPLICATE ML-DSA-65 key (member ",
                    roster[i].member_id.as_str(),
                    ")",
                ),
            );
        }
        i = i + 1;
    }
    Ok(())
}

/// Strict majority of `n` seats.
pub fn strict_majority(n: usize) -> (m: usize)
    ensures
        m == n / 2 + 1,
        2 * m > n,
{
    n / 2 + 1
}

/// The live kill-switch quorum M: the family's entrenched M when one is
/// entrenched, else a strict majority of the roster. Never a hard-coded 2.
pub fn kill_switch_quorum(entrenched_m: Option<usize>, roster_size: usize) -> (m: usize)
    ensures
        entrenched_m matches Some(e) ==> m == e,
        entrenched_m is None ==> m == roster_size / 2 + 1,
{
    match entrenched_m {
        Some(e) => e,
        None => strict_majority(roster_size),
    }
}

/// The authority class of a canonical-server op.
#[derive(Debug, Clone, Copy, PartialEq, Eq, Structural)]
pub enum CanonicalOpClass {
    /// Additive / operational: a single accord holder suffices.
    Operational,
    /// Destructive / structural: the family's entrenched M-of-N.
    Destructive,
}

/// Required signature count M for a canonical op.
pub fn canonical_op_quorum(class: CanonicalOpClass, entrenched_m: Option<usize>, roster_size: usize) -> (m:
    usize)
    ensures
        class == CanonicalOpClass::Operational ==> m == 1,
        class == CanonicalOpClass::Destructive ==> (entrenched_m matches Some(e) ==> m == e),
        class == CanonicalOpClass::Destructive ==> (entrenched_m is None ==> m == roster_size / 2
            + 1),
{
    match class {
        CanonicalOpClass::Operational => 1,
        CanonicalOpClass::Destructive => kill_switch_quorum(entrenched_m, roster_size),
    }
}

// ─── The holder cosignature ─────────────────────────────────────────────────

/// Why no cosignature could be resolved.
#[derive(Debug, Clone, Copy, PartialEq, Eq, Structural)]
pub enum SignatureRefusal {
    /// Neither a signature nor both hardware inputs (a 400).
    Missing,
    /// The hardware path needs the PKCS#11 signer this build lacks (a 501).
    HardwareUnavailable,
}

impl SignatureRefusal {
    /// The HTTP status the refusal is answered with: a bad request when no
    /// way to a signature was given, not implemented when the hardware path
    /// was asked of a build without it.
    pub open spec fn status_code(&self) -> u16 {
        match self {
            SignatureRefusal::Missing => 400,
            SignatureRefusal::HardwareUnavailable => 501,
        }
    }

    /// The HTTP status the refusal is answered with.
    pub fn status(&self) -> (c: u16)
        ensures
            c == self.status_code(),
    {
        match self {
            SignatureRefusal::Missing => 400,
            SignatureRefusal::HardwareUnavailable => 501,
        }
    }
}

/// The hardware inputs are present after trimming.
pub open spec fn hardware_inputs_given(holder: Option<&str>, usb: Option<&str>) -> bool {
    (holder matches Some(h) && trim_spec(h@).len() > 0) && (usb matches Some(u) && trim_spec(
        u@,
    ).len() > 0)
}

/// Resolve the cosignature for an accord invocation op: a submitted signature
/// verbatim; else, with both a holder `key_id` and a USB path (trimmed,
/// non-blank), the hardware signer — which this build does not carry; else a
/// refusal naming both ways.
pub fn resolve_holder_signature(
    submitted: Option<ThresholdSignature>,
    holder_key_id: Option<&str>,
    usb_path: Option<&str>,
) -> (r: Result<ThresholdSignature, SignatureRefusal>)
    ensures
        submitted matches Some(s) ==> r == Ok::<ThresholdSignature, SignatureRefusal>(s),
        submitted is None && hardware_inputs_given(holder_key_id, usb_path) ==> r == Err::<
            ThresholdSignature,
            SignatureRefusal,
        >(SignatureRefusal::HardwareUnavailable),
        submitted is None && !hardware_inputs_given(holder_key_id, usb_path) ==> r == Err::<
            ThresholdSignature,
            SignatureRefusal,
        >(SignatureRefusal::Missing),
{
    match submitted {
        Some(s) => Ok(s),
        None => {
            let holder_ok = match holder_key_id {
                Some(h) => trim(h).unicode_len() > 0,
                None => false,
            };
            let usb_ok = match usb_path {
                Some(u) => trim(u).unicode_len() > 0,
                None => false,
            };
            if holder_ok && usb_ok {
                Err(SignatureRefusal::HardwareUnavailable)
            } else {
                Err(SignatureRefusal::Missing)
            }
        },
    }
}

// ─── Judging a sighted invocation ───────────────────────────────────────────

/// What verifying an accord invocation object against this node's roster says.
#[derive(Debug)]
pub struct InvocationStatus {
    pub invocation_kind: String,
    pub invocation_id: String,
    /// The distinct seats with a valid hybrid signature.
    pub valid_signers: Vec<String>,
}

/// The answer to a sighted invocation.
#[derive(Debug)]
pub struct AccordOutcome {
    pub authentic: bool,
    pub invocation_kind: String,
    pub invocation_id: String,
    pub quorum_met: bool,
    pub valid_signers: Vec<String>,
    pub halted: bool,
}

/// What the node does with a sighted invocation: its answer, the non-binding
/// event it surfaces (if any), and whether the halt is global.
#[derive(Debug)]
pub struct Sighting {
    pub outcome: AccordOutcome,
    pub event: Option<AccordEvent>,
    pub global_halt: bool,
}

/// An announce's message, kept only where it binds to the signed payload hash.
pub open spec fn bound_message(message: Option<Seq<char>>, payload_sha256: Seq<char>) -> Option<
    Seq<char>,
> {
    match message {
        Some(t) => if sha256_hex(encode_utf8(t)) == payload_sha256 {
            Some(t)
        } else {
            None
        },
        None => None,
    }
}

/// The event a sighting surfaces: a quorum-complete drill at the family's M, or
/// an authentic announce at threshold one; nothing otherwise.
pub open spec fn surfaced_event(
    kind: Seq<char>,
    id: Seq<char>,
    signers: Seq<String>,
    m: usize,
    message: Option<Seq<char>>,
    payload_sha256: Seq<char>,
    now: Seq<char>,
    e: Option<AccordEvent>,
) -> bool {
    if kind == InvocationKind::Drill.wire_text() && signers.len() >= m {
        e matches Some(ev) && ev.event_type@ == "drill"@ && ev.invocation_id@ == id
            && ev.recorded_at@ == now && ev.signers@ == signers && ev.quorum_threshold == m
            && ev.message is None
    } else if kind == InvocationKind::Notify.wire_text() && signers.len() > 0 {
        e matches Some(ev) && ev.event_type@ == "announce"@ && ev.invocation_id@ == id
            && ev.recorded_at@ == now && ev.signers@ == signers && ev.quorum_threshold == 1
            && (match ev.message {
            Some(t) => bound_message(message, payload_sha256) == Some(t@),
            None => bound_message(message, payload_sha256) is None,
        })
    } else {
        e is None
    }
}

/// Judge a sighted invocation at the family's live quorum `m`: authentic when
/// any seat signed validly; quorum met at `m` valid signers; an authentic
/// CONSTITUTIONAL invocation at quorum is a global halt (and the answer says the
/// node halted); a quorum-complete
/// drill or an authentic announce is surfaced (the announce's message only
/// where `sha256(message)` is the signed payload hash).
pub fn judge_sighting(
    status: &InvocationStatus,
    m: usize,
    message: Option<&str>,
    payload_sha256: &str,
    now: &str,
) -> (s: Sighting)
    ensures
        s.outcome.authentic == (status.valid_signers@.len() > 0),
        s.outcome.quorum_met == (status.valid_signers@.len() >= m),
        s.outcome.invocation_kind@ == status.invocation_kind@,
        s.outcome.invocation_id@ == status.invocation_id@,
        s.outcome.valid_signers@ == status.valid_signers@,
        s.outcome.halted == s.global_halt,
        s.global_halt == (status.valid_signers@.len() > 0 && status.invocation_kind@
            == InvocationKind::Constitutional.wire_text() && status.valid_signers@.len() >= m),
        status.valid_signers@.len() == 0 ==> s.event is None,
        status.valid_signers@.len() > 0 ==> surfaced_event(
            status.invocation_kind@,
            status.invocation_id@,
            status.valid_signers@,
            m,
            match message {
                Some(t) => Some(t@),
                None => None,
            },
            payload_sha256@,
            now@,
            s.event,
        ),
{
    let n = status.valid_signers.len();
    let authentic = n > 0;
    let quorum_met = n >= m;
    let mut outcome = AccordOutcome {
        authentic,
        invocation_kind: status.invocation_kind.clone(),
        invocation_id: status.invocation_id.clone(),
        quorum_met,
        valid_signers: copy_texts(&status.valid_signers),
        halted: false,
    };
    if !authentic {
        return Sighting { outcome, event: None, global_halt: false };
    }
    let kind = status.invocation_kind.as_str();
    let event = if text_eq(kind, InvocationKind::Drill.wire_name()) && quorum_met {
        Some(
            AccordEvent {
                event_type: owned("drill"),
                invocation_id: status.invocation_id.clone(),
                recorded_at: owned(now),
                signers: copy_texts(&status.valid_signers),
                quorum_threshold: m,
                message: None,
            },
        )
    } else if text_eq(kind, InvocationKind::Notify.wire_name()) {
        let bound = match message {
            Some(t) => {
                let digest = payload_hash_hex(t.as_bytes());
                if text_eq(digest.as_str(), payload_sha256) {
                    Some(owned(t))
                } else {
                    None
                }
            },
            None => None,
        };
        Some(
            AccordEvent {
                event_type: owned("announce"),
                invocation_id: status.invocation_id.clone(),
                recorded_at: owned(now),
                signers: copy_texts(&status.valid_signers),
                quorum_threshold: 1,
                message: bound,
            },
        )
    } else {
        None
    };
    proof {
        reveal_strlit("drill");
        reveal_strlit("notify");
    }
    let global_halt = text_eq(kind, InvocationKind::Constitutional.wire_name()) && quorum_met;
    outcome.halted = global_halt;
    Sighting { outcome, event, global_halt }
}

/// The record a global halt latches: the sighting's kind, id and valid
/// signers, the quorum `m` it met, the instant, this node's id and the halt
/// payload's digest, under a latch id minted from the CSPRNG draw `drawn`
/// (`None` when the draw failed).
pub fn latch_record_for(
    status: InvocationStatus,
    m: usize,
    now: String,
    node_id: Option<String>,
    halt_payload_sha256: Option<String>,
    drawn: Option<Vec<u8>>,
) -> (r: HaltRecord)
    ensures
        latched_record(
            r,
            status.invocation_kind,
            status.invocation_id,
            status.valid_signers,
            m,
            now,
            node_id,
            halt_payload_sha256,
            drawn,
        ),
{
    HaltRecord::from_draw(
        status.invocation_kind,
        status.invocation_id,
        status.valid_signers,
        m,
        now,
        node_id,
        halt_payload_sha256,
        drawn,
    )
}

/// A drill or an announce is never a halt, however many holders sign it:
/// only a CONSTITUTIONAL invocation at quorum is.
pub proof fn a_drill_or_announce_never_halts(kind: Seq<char>)
    requires
        kind == InvocationKind::Drill.wire_text() || kind == InvocationKind::Notify.wire_text(),
    ensures
        kind != InvocationKind::Constitutional.wire_text(),
{
    reveal_strlit("drill");
    reveal_strlit("notify");
    reveal_strlit("CONSTITUTIONAL");
    assert("drill"@[0] != "CONSTITUTIONAL"@[0]);
    assert("notify"@[0] != "CONSTITUTIONAL"@[0]);
}

/// A replication loop-stop key: kind, id, and whether the sighting was a
/// global halt.
pub type SightingKey = (String, String, bool);

/// The key's texts.
pub open spec fn key_view(k: SightingKey) -> (Seq<char>, Seq<char>, bool) {
    (k.0@, k.1@, k.2)
}

/// The table holds the key.
pub open spec fn key_held(seen: Seq<SightingKey>, k: SightingKey) -> bool {
    exists|i: int| 0 <= i < seen.len() && key_view(#[trigger] seen[i]) == key_view(k)
}

/// No key is held twice.
pub open spec fn keys_distinct(seen: Seq<SightingKey>) -> bool {
    forall|i: int, j: int|
        0 <= i < j < seen.len() ==> key_view(#[trigger] seen[i]) != key_view(#[trigger] seen[j])
}

/// Record a sighting in the bounded loop-stop table and say whether it is the
/// first: a full table is cleared first (a lost entry costs only an idempotent
/// re-gossip), then the key is inserted if absent.
pub fn first_sighting(seen: &mut Vec<SightingKey>, key: SightingKey) -> (first: bool)
    requires
        keys_distinct(old(seen)@),
    ensures
        first == !(old(seen)@.len() < MAX_SEEN_INVOCATIONS && key_held(old(seen)@, key)),
        keys_distinct(final(seen)@),
        key_held(final(seen)@, key),
        final(seen)@.len() <= MAX_SEEN_INVOCATIONS || final(seen)@.len() <= old(seen)@.len(),
        forall|k: SightingKey|
            #![trigger key_held(final(seen)@, k)]
            key_held(final(seen)@, k) <==> (key_view(k) == key_view(key) || (old(seen)@.len()
                < MAX_SEEN_INVOCATIONS && key_held(old(seen)@, k))),
{
    if seen.len() >= MAX_SEEN_INVOCATIONS {
        seen.clear();
    }
    let ghost base = seen@;
    let n = seen.len();
    let mut i: usize = 0;
    while i < n
        invariant
            n == seen@.len(),
            seen@ == base,
            keys_distinct(base),
            base == (if old(seen)@.len() >= MAX_SEEN_INVOCATIONS {
                Seq::<SightingKey>::empty()
            } else {
                old(seen)@
            }),
            0 <= i <= n,
            forall|j: int| 0 <= j < i ==> key_view(#[trigger] seen@[j]) != key_view(key),
        decreases n - i,
    {
        let same = text_eq(seen[i].0.as_str(), key.0.as_str()) && text_eq(
            seen[i].1.as_str(),
            key.1.as_str(),
        ) && seen[i].2 == key.2;
        if same {
            proof {
                assert(key_view(seen@[i as int]) == key_view(key));
            }
            return false;
        }
        i = i + 1;
    }
    seen.push(key);
    proof {
        assert(key_view(seen@[n as int]) == key_view(key));
        assert forall|k: SightingKey| key_held(seen@, k) <==> (key_view(k) == key_view(key)
            || key_held(base, k)) by {
            if key_held(base, k) {
                let i = choose|i: int| 0 <= i < base.len() && key_view(#[trigger] base[i]) == key_view(k);
                assert(seen@[i] == base[i]);
            }
            if key_held(seen@, k) && key_view(k) != key_view(key) {
                let i = choose|i: int| 0 <= i < seen@.len() && key_view(#[trigger] seen@[i]) == key_view(k);
                assert(i < n);
                assert(base[i] == seen@[i]);
            }
        }
    }
    true
}

// ─── The safe-mesh floor on seats ───────────────────────────────────────────

/// The first member (from `from` on) that is not a registered accord holder.
pub open spec fn first_unseatable(members: Seq<String>, holders: Seq<String>, from: int) -> Option<int>
    decreases members.len() - from,
    when from >= 0
{
    if from >= members.len() {
        None
    } else if !(exists|j: int| 0 <= j < holders.len() && #[trigger] holders[j]@ == members[from]@) {
        Some(from)
    } else {
        first_unseatable(members, holders, from + 1)
    }
}

/// Every entrenched seat must be a registered, custody-verified accord holder:
/// the first member that is not one, if any.
pub fn unseatable_member(members: &[String], holders: &[String]) -> (r: Option<String>)
    ensures
        match first_unseatable(members@, holders@, 0) {
            Some(k) => r matches Some(m) && m@ == members@[k]@,
            None => r is None,
        },
{
    let n = members.len();
    let h = holders.len();
    let mut k: usize = 0;
    while k < n
        invariant
            n == members@.len(),
            h == holders@.len(),
            0 <= k <= n,
            first_unseatable(members@, holders@, 0) == first_unseatable(members@, holders@, k as int),
        decreases n - k,
    {
        let mut found = false;
        let mut j: usize = 0;
        while j < h
            invariant
                h == holders@.len(),
                k < members@.len(),
                0 <= j <= h,
                found <==> exists|t: int| 0 <= t < j && #[trigger] holders@[t]@ == members@[k as int]@,
            decreases h - j,
        {
            if text_eq(holders[j].as_str(), members[k].as_str()) {
                found = true;
            }
            j = j + 1;
        }
        if !found {
            return Some(members[k].clone());
        }
        k = k + 1;
    }
    None
}

/// The refusal naming a member that cannot be seated.
pub open spec fn unseatable_text(missing: Seq<char>) -> Seq<char> {
    "cannot entrench "@ + missing
        + " as a HUMANITY_ACCORD seat — it is not a registered, custody-verified accord_holder (every seat must be admitted via the FIPS custody-gated POST /v1/accord/holder)"@
}

/// The refusal naming a member that cannot be seated.
pub fn unseatable_message(missing: &str) -> (s: String)
    ensures
        s@ == unseatable_text(missing@),
{
    concat3(
        "cannot entrench ",
        missing,
        " as a HUMANITY_ACCORD seat — it is not a registered, custody-verified accord_holder (every seat must be admitted via the FIPS custody-gated POST /v1/accord/holder)",
    )
}

// ─── Opening an invocation from a request ───────────────────────────────────

/// Why an opening request is refused before anything is signed.
#[derive(Debug, Clone, Copy, PartialEq, Eq, Structural)]
pub enum OpenRefusal {
    /// A full invocation of another kind was handed to this endpoint.
    WrongKind(InvocationKind),
    /// A drill names neither a full invocation nor an id.
    NoDrillId,
    /// The announcement text does not hash to the signed payload digest.
    UnboundMessage,
    /// The CSPRNG could not draw a fresh invocation id.
    RandomnessUnavailable,
}

impl OpenRefusal {
    /// The refusal's text.
    pub open spec fn text(self) -> Seq<char> {
        match self {
            OpenRefusal::WrongKind(InvocationKind::Drill) => "the drill endpoint requires invocation_kind \"drill\""@,
            OpenRefusal::WrongKind(InvocationKind::Notify) => "the announce endpoint requires invocation_kind \"notify\""@,
            OpenRefusal::WrongKind(_) => "the halt endpoint requires invocation_kind \"constitutional\""@,
            OpenRefusal::NoDrillId => "provide a full drill `invocation`, or an `invocation_id` to synthesize one"@,
            OpenRefusal::UnboundMessage => "message does not match invocation.payload_sha256 (unbound announcement text)"@,
            OpenRefusal::RandomnessUnavailable => "the CSPRNG could not draw a fresh invocation id — name one with `invocation_id`"@,
        }
    }

    /// The refusal's text.
    pub fn message(self) -> (s: &'static str)
        ensures
            s@ == self.text(),
    {
        match self {
            OpenRefusal::WrongKind(InvocationKind::Drill) => "the drill endpoint requires invocation_kind \"drill\"",
            OpenRefusal::WrongKind(InvocationKind::Notify) => "the announce endpoint requires invocation_kind \"notify\"",
            OpenRefusal::WrongKind(_) => "the halt endpoint requires invocation_kind \"constitutional\"",
            OpenRefusal::NoDrillId => "provide a full drill `invocation`, or an `invocation_id` to synthesize one",
            OpenRefusal::UnboundMessage => "message does not match invocation.payload_sha256 (unbound announcement text)",
            OpenRefusal::RandomnessUnavailable => "the CSPRNG could not draw a fresh invocation id — name one with `invocation_id`",
        }
    }
}

/// The id prefix a node-named invocation of `kind` takes.
pub open spec fn fresh_id_prefix(kind: InvocationKind) -> Seq<char> {
    if kind == InvocationKind::Notify { "notify-"@ } else { "halt-"@ }
}

/// The text `id` names, trimmed, where it is not blank.
pub open spec fn named_id(id: Option<&str>) -> Option<Seq<char>> {
    match id {
        Some(t) => if trim_spec(t@).len() > 0 { Some(trim_spec(t@)) } else { None },
        None => None,
    }
}

/// The id a synthesized opening takes: the request's (trimmed), or a fresh
/// `halt-`/`notify-` UUID built from the first 16 bytes of `id_draw`; none
/// when a fresh id is needed and the draw failed.
pub open spec fn opening_id(kind: InvocationKind, invocation_id: Option<&str>, id_draw: Option<Vec<u8>>) -> Option<
    Seq<char>,
> {
    match named_id(invocation_id) {
        Some(n) => Some(n),
        None => match id_draw {
            Some(d) => Some(fresh_id_prefix(kind) + uuid_v4_of(d@.subrange(0, 16))),
            None => None,
        },
    }
}

/// What the synthesized invocation's payload is: the announcement text's bytes
/// for an announce, nothing otherwise.
pub open spec fn opening_payload(kind: InvocationKind, message: Option<&str>) -> Seq<u8> {
    if kind == InvocationKind::Notify {
        match message {
            Some(m) => encode_utf8(m@),
            None => Seq::empty(),
        }
    } else {
        Seq::empty()
    }
}

/// The announcement text does not hash to the invocation's payload digest.
pub open spec fn unbound_message(kind: InvocationKind, message: Option<&str>, inv: Invocation) -> bool {
    kind == InvocationKind::Notify && match message {
        Some(m) => sha256_hex(encode_utf8(m@)) != inv.payload_sha256@,
        None => false,
    }
}

/// What an opening request gives, for its draws and clock reading: a full
/// invocation handed in must be of the endpoint's kind; otherwise a drill
/// must name an id, a fresh id needs a successful draw, and the node
/// synthesizes the invocation; an announcement's text must bind.
pub open spec fn opening_outcome(
    r: Result<Invocation, OpenRefusal>,
    kind: InvocationKind,
    provided: Option<Invocation>,
    invocation_id: Option<&str>,
    message: Option<&str>,
    id_draw: Option<Vec<u8>>,
    nonce_draw: Option<Vec<u8>>,
    now: Instant,
) -> bool {
    match provided {
        Some(p) => if p.invocation_kind != kind {
            r == Err::<Invocation, OpenRefusal>(OpenRefusal::WrongKind(kind))
        } else if unbound_message(kind, message, p) {
            r == Err::<Invocation, OpenRefusal>(OpenRefusal::UnboundMessage)
        } else {
            r == Ok::<Invocation, OpenRefusal>(p)
        },
        None => if kind == InvocationKind::Drill && named_id(invocation_id) is None {
            r == Err::<Invocation, OpenRefusal>(OpenRefusal::NoDrillId)
        } else if opening_id(kind, invocation_id, id_draw) is None {
            r == Err::<Invocation, OpenRefusal>(OpenRefusal::RandomnessUnavailable)
        } else {
            exists|inv: Invocation|
                #[trigger] synthesized_from(
                    inv,
                    kind,
                    opening_id(kind, invocation_id, id_draw)->0,
                    opening_payload(kind, message),
                    nonce_draw,
                    now,
                ) && if unbound_message(kind, message, inv) {
                    r == Err::<Invocation, OpenRefusal>(OpenRefusal::UnboundMessage)
                } else {
                    r == Ok::<Invocation, OpenRefusal>(inv)
                }
        },
    }
}

/// The invocation an opening request stands for, given the draw for a fresh
/// id, the nonce draw and the clock reading.
pub fn opening_invocation_from(
    kind: InvocationKind,
    provided: Option<Invocation>,
    invocation_id: Option<&str>,
    message: Option<&str>,
    id_draw: Option<Vec<u8>>,
    nonce_draw: Option<Vec<u8>>,
    now: Instant,
) -> (r: Result<Invocation, OpenRefusal>)
    requires
        kind != InvocationKind::LifecycleActive,
        id_draw matches Some(b) ==> b@.len() == 32,
        nonce_draw matches Some(b) ==> b@.len() == 32,
        now.nanos < 1_000_000_000,
    ensures
        opening_outcome(r, kind, provided, invocation_id, message, id_draw, nonce_draw, now),
{
    let ghost g_provided = provided;
    let inv = match provided {
        Some(p) => {
            if p.invocation_kind != kind {
                return Err(OpenRefusal::WrongKind(kind));
            }
            p
        },
        None => {
            let named = match invocation_id {
                Some(t) => {
                    let t2 = trim(t);
                    if t2.unicode_len() > 0 {
                        Some(owned(t2))
                    } else {
                        None
                    }
                },
                None => None,
            };
            let id = match named {
                Some(n) => n,
                None => {
                    if kind == InvocationKind::Drill {
                        return Err(OpenRefusal::NoDrillId);
                    }
                    match &id_draw {
                        None => {
                            return Err(OpenRefusal::RandomnessUnavailable);
                        },
                        Some(d) => {
                            let first16 = crate::provision::slice_range(d.as_slice(), 0, 16);
                            let fresh = uuid_from_random(first16.as_slice());
                            let prefix = if kind == InvocationKind::Notify {
                                "notify-"
                            } else {
                                "halt-"
                            };
                            concat2(prefix, fresh.as_str())
                        },
                    }
                },
            };
            let payload: &[u8] = if kind == InvocationKind::Notify {
                match message {
                    Some(m) => m.as_bytes(),
                    None => &[],
                }
            } else {
                &[]
            };
            proof {
                assert(payload@ =~= opening_payload(kind, message));
                assert(opening_id(kind, invocation_id, id_draw) == Some(id@));
            }
            let made = synth_invocation_from(kind, id.as_str(), payload, nonce_draw, now);
            assert(synthesized_from(
                made,
                kind,
                opening_id(kind, invocation_id, id_draw)->0,
                opening_payload(kind, message),
                nonce_draw,
                now,
            ));
            made
        },
    };
    let unbound = if kind == InvocationKind::Notify {
        match message {
            Some(m) => {
                let digest = payload_hash_hex(m.as_bytes());
                !text_eq(digest.as_str(), inv.payload_sha256.as_str())
            },
            None => false,
        }
    } else {
        false
    };
    assert(unbound == unbound_message(kind, message, inv));
    if unbound {
        Err(OpenRefusal::UnboundMessage)
    } else {
        Ok(inv)
    }
}

/// The invocation an opening request (a drill, a halt, an announce) stands
/// for: a full invocation handed in must be of the endpoint's kind; otherwise
/// the node synthesizes one under the request's id (trimmed), or, where it
/// names none, under a fresh `halt-`/`notify-` UUID drawn from the CSPRNG (a
/// drill must name one). An announcement's text must hash to the invocation's
/// payload digest.
pub fn opening_invocation(
    kind: InvocationKind,
    provided: Option<Invocation>,
    invocation_id: Option<&str>,
    message: Option<&str>,
) -> (r: Result<Invocation, OpenRefusal>)
    requires
        kind != InvocationKind::LifecycleActive,
    ensures
        exists|id_draw: Option<Vec<u8>>, nonce_draw: Option<Vec<u8>>, now: Instant|
            (id_draw matches Some(b) ==> b@.len() == 32) && possible_draw(nonce_draw, now)
                && #[trigger] opening_outcome(
                r,
                kind,
                provided,
                invocation_id,
                message,
                id_draw,
                nonce_draw,
                now,
            ),
{
    let id_draw = random_32();
    let nonce_draw = random_32();
    let now = clock_or_epoch();
    let ghost (gi, gn) = (id_draw, nonce_draw);
    let ghost gp = provided;
    let r = opening_invocation_from(kind, provided, invocation_id, message, id_draw, nonce_draw, now);
    assert(opening_outcome(r, kind, gp, invocation_id, message, gi, gn, now));
    r
}

// ─── The pending-invocation table ───────────────────────────────────────────

/// One pending (sub-quorum) invocation: its kind and id (the key), its
/// `valid_until`, and the signed object a concurrence advances.
#[derive(Debug)]
pub struct PendingInvocation<T> {
    pub invocation_kind: String,
    pub invocation_id: String,
    pub valid_until: String,
    pub object: T,
}

/// The table of pending invocations, keyed by `(kind, id)`.
#[derive(Debug)]
pub struct PendingInvocations<T> {
    pub entries: Vec<PendingInvocation<T>>,
}

/// The entry is live at `now`: its `valid_until` parses and lies after `now`.
pub open spec fn live_at<T>(e: PendingInvocation<T>, now: Instant) -> bool {
    parsed_instant(e.valid_until@) matches Some(vu) && earlier(now, vu)
}

/// The live entries, in order.
pub open spec fn live_entries<T>(s: Seq<PendingInvocation<T>>, now: Instant) -> Seq<PendingInvocation<T>>
    decreases s.len(),
{
    if s.len() == 0 {
        Seq::empty()
    } else {
        let rest = live_entries(s.drop_first(), now);
        if live_at(s[0], now) {
            seq![s[0]] + rest
        } else {
            rest
        }
    }
}

/// The entry keyed `(kind, id)`.
pub open spec fn keyed<T>(e: PendingInvocation<T>, kind: Seq<char>, id: Seq<char>) -> bool {
    e.invocation_kind@ == kind && e.invocation_id@ == id
}

/// The table holds at most one entry per key.
pub open spec fn keys_unique<T>(s: Seq<PendingInvocation<T>>) -> bool {
    forall|i: int, j: int|
        0 <= i < j < s.len() ==> !keyed(#[trigger] s[i], s[j].invocation_kind@, (#[trigger] s[j]).invocation_id@)
}

/// Where the entry keyed `(kind, id)` sits.
pub open spec fn key_position<T>(s: Seq<PendingInvocation<T>>, kind: Seq<char>, id: Seq<char>) -> Option<int> {
    if exists|i: int| 0 <= i < s.len() && keyed(#[trigger] s[i], kind, id) {
        Some(choose|i: int| 0 <= i < s.len() && keyed(#[trigger] s[i], kind, id))
    } else {
        None
    }
}

/// `s` with `e` stored under its key: replacing the entry there, or appended.
pub open spec fn stored<T>(s: Seq<PendingInvocation<T>>, e: PendingInvocation<T>) -> Seq<PendingInvocation<T>> {
    match key_position(s, e.invocation_kind@, e.invocation_id@) {
        Some(i) => s.update(i, e),
        None => s.push(e),
    }
}

/// Live entries are a sub-sequence: pruning never lengthens the table and keeps keys unique.
proof fn lemma_live_entries<T>(s: Seq<PendingInvocation<T>>, now: Instant)
    ensures
        live_entries(s, now).len() <= s.len(),
        forall|k: int| 0 <= k < live_entries(s, now).len() ==> exists|i: int| 0 <= i < s.len() && #[trigger] live_entries(s, now)[k] == s[i],
        keys_unique(s) ==> keys_unique(live_entries(s, now)),
    decreases s.len(),
{
    if s.len() > 0 {
        let rest = s.drop_first();
        lemma_live_entries(rest, now);
        let l = live_entries(s, now);
        let lr = live_entries(rest, now);
        assert forall|k: int| 0 <= k < l.len() implies exists|i: int| 0 <= i < s.len() && #[trigger] l[k] == s[i] by {
            if live_at(s[0], now) {
                if k == 0 {
                    assert(l[0] == s[0]);
                } else {
                    assert(l[k] == lr[k - 1]);
                    let i = choose|i: int| 0 <= i < rest.len() && #[trigger] lr[k - 1] == rest[i];
                    assert(rest[i] == s[i + 1]);
                }
            } else {
                assert(l[k] == lr[k]);
                let i = choose|i: int| 0 <= i < rest.len() && #[trigger] lr[k] == rest[i];
                assert(rest[i] == s[i + 1]);
            }
        }
        if keys_unique(s) {
            assert(keys_unique(rest)) by {
                assert forall|i: int, j: int| 0 <= i < j < rest.len() implies !keyed(#[trigger] rest[i], rest[j].invocation_kind@, (#[trigger] rest[j]).invocation_id@) by {
                    assert(rest[i] == s[i + 1] && rest[j] == s[j + 1]);
                }
            }
            if live_at(s[0], now) {
                assert forall|i: int, j: int| 0 <= i < j < l.len() implies !keyed(#[trigger] l[i], l[j].invocation_kind@, (#[trigger] l[j]).invocation_id@) by {
                    if i == 0 {
                        assert(l[j] == lr[j - 1]);
                        let t = choose|t: int| 0 <= t < rest.len() && #[trigger] lr[j - 1] == rest[t];
                        assert(rest[t] == s[t + 1]);
                    } else {
                        assert(l[i] == lr[i - 1] && l[j] == lr[j - 1]);
                    }
                }
            }
        }
    }
}

impl<T> PendingInvocations<T> {
    /// An empty table.
    pub fn new() -> (t: Self)
        ensures
            t.entries@.len() == 0,
    {
        PendingInvocations { entries: Vec::new() }
    }

    /// Evict the entries no longer live at `now` (expired, or with an
    /// unparseable `valid_until`).
    pub fn prune(&mut self, now: Instant)
        ensures
            final(self).entries@ == live_entries(old(self).entries@, now),
    {
        let ghost before = self.entries@;
        let mut rest: Vec<PendingInvocation<T>> = Vec::new();
        std::mem::swap(&mut rest, &mut self.entries);
        let mut kept: Vec<PendingInvocation<T>> = Vec::new();
        while rest.len() > 0
            invariant
                kept@ + live_entries(rest@, now) == live_entries(before, now),
            decreases rest@.len(),
        {
            let ghost r0 = rest@;
            let e = rest.remove(0);
            proof {
                assert(rest@ =~= r0.drop_first());
            }
            let ghost k0 = kept@;
            if still_pending(e.valid_until.as_str(), now) {
                kept.push(e);
                proof {
                    assert(kept@ + live_entries(rest@, now) =~= k0 + live_entries(r0, now));
                }
            }
        }
        proof {
            assert(kept@ =~= live_entries(before, now));
        }
        self.entries = kept;
    }

    /// Where the entry keyed `(kind, id)` sits.
    pub fn position(&self, kind: &str, id: &str) -> (r: Option<usize>)
        ensures
            match r {
                Some(i) => i < self.entries@.len() && keyed(self.entries@[i as int], kind@, id@),
                None => forall|i: int| 0 <= i < self.entries@.len() ==> !keyed(#[trigger] self.entries@[i], kind@, id@),
            },
    {
        let n = self.entries.len();
        let mut i: usize = 0;
        while i < n
            invariant
                n == self.entries@.len(),
                0 <= i <= n,
                forall|j: int| 0 <= j < i ==> !keyed(#[trigger] self.entries@[j], kind@, id@),
            decreases n - i,
        {
            if text_eq(self.entries[i].invocation_kind.as_str(), kind) && text_eq(
                self.entries[i].invocation_id.as_str(),
                id,
            ) {
                return Some(i);
            }
            i = i + 1;
        }
        None
    }

    /// Store `e` under its key (replacing what the key held), after pruning.
    /// With `bounded`, a new key is refused while the live table is full; the
    /// prune happens either way. Returns whether `e` was stored.
    pub fn store(&mut self, e: PendingInvocation<T>, now: Instant, bounded: bool) -> (stored_it: bool)
        requires
            keys_unique(old(self).entries@),
        ensures
            keys_unique(final(self).entries@),
            stored_it == !(bounded && live_entries(old(self).entries@, now).len() >= MAX_PENDING_INVOCATIONS
                && key_position(live_entries(old(self).entries@, now), e.invocation_kind@, e.invocation_id@) is None),
            !stored_it ==> final(self).entries@ == live_entries(old(self).entries@, now),
            stored_it ==> final(self).entries@ == stored(live_entries(old(self).entries@, now), e),
    {
        proof {
            lemma_live_entries(old(self).entries@, now);
        }
        self.prune(now);
        let ghost live = self.entries@;
        let at = self.position(e.invocation_kind.as_str(), e.invocation_id.as_str());
        proof {
            match at {
                Some(i) => {
                    assert(keyed(live[i as int], e.invocation_kind@, e.invocation_id@));
                    assert(key_position(live, e.invocation_kind@, e.invocation_id@) is Some);
                    let c = choose|c: int| 0 <= c < live.len() && keyed(#[trigger] live[c], e.invocation_kind@, e.invocation_id@);
                    if c != i {
                        if c < i {
                            assert(!keyed(live[c], live[i as int].invocation_kind@, live[i as int].invocation_id@));
                        } else {
                            assert(!keyed(live[i as int], live[c].invocation_kind@, live[c].invocation_id@));
                        }
                    }
                },
                None => {},
            }
        }
        match at {
            Some(i) => {
                self.entries.set(i, e);
                proof {
                    assert forall|a: int, b: int| 0 <= a < b < self.entries@.len() implies !keyed(#[trigger] self.entries@[a], self.entries@[b].invocation_kind@, (#[trigger] self.entries@[b]).invocation_id@) by {
                        if a == i {
                            assert(!keyed(live[b], live[i as int].invocation_kind@, live[i as int].invocation_id@));
                        } else if b == i {
                            assert(!keyed(live[a], live[i as int].invocation_kind@, live[i as int].invocation_id@));
                        }
                    }
                }
                true
            },
            None => {
                if bounded && self.entries.len() >= MAX_PENDING_INVOCATIONS {
                    return false;
                }
                self.entries.push(e);
                proof {
                    assert forall|a: int, b: int| 0 <= a < b < self.entries@.len() implies !keyed(#[trigger] self.entries@[a], self.entries@[b].invocation_kind@, (#[trigger] self.entries@[b]).invocation_id@) by {
                        if b == live.len() {
                            assert(self.entries@[a] == live[a]);
                        }
                    }
                }
                true
            },
        }
    }
}

} // verus!
