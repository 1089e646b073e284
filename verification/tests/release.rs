use ciris_accord::halt::{halt_gate, GateDecision, HaltRecord};
use ciris_accord::release::{
    build_release_invocation, should_journal_refusal, verify_release_token,
    verify_release_token_at, InvocationKind, JournalLast, QuorumCheck, ReleaseAuthority,
    ReleaseBinding, ReleaseToken, ThresholdMember,
};
use ciris_accord::prims::Instant;

const NOW: &str = "2026-08-03T00:00:00.000Z";

fn member(id: &str) -> ThresholdMember {
    ThresholdMember {
        member_id: id.to_string(),
        ed25519_public_key_base64: format!("ed-{id}"),
        mldsa65_public_key_base64: Some(format!("pq-{id}")),
    }
}

fn authority() -> ReleaseAuthority {
    ReleaseAuthority {
        roster: vec![member("A1"), member("B1"), member("C1")],
        threshold: 2,
        source: "test-seats".to_string(),
    }
}

fn record(node: &str, halt_id: &str, latch_id: &str) -> HaltRecord {
    HaltRecord {
        invocation_kind: "CONSTITUTIONAL".into(),
        invocation_id: halt_id.into(),
        valid_signers: vec!["A1".into(), "B1".into()],
        quorum_threshold: 2,
        latched_at: "2026-08-01T00:00:00.000Z".into(),
        node_id: Some(node.into()),
        halt_payload_sha256: Some("ab".repeat(32)),
        latch_id: Some(latch_id.into()),
        release_payload_sha256: None,
        release_binding: None,
    }
}

fn token_with_window(rec: &HaltRecord, asserted_at: &str, valid_until: &str) -> ReleaseToken {
    let binding = ReleaseBinding::from_halt_record(rec).unwrap();
    let inv = build_release_invocation(&binding, "release-001", "nonce", asserted_at, valid_until);
    ReleaseToken { invocation: inv, signatures: Vec::new(), binding: Some(binding) }
}

fn token_for(rec: &HaltRecord) -> ReleaseToken {
    let binding = ReleaseBinding::from_halt_record(rec).unwrap();
    let inv = build_release_invocation(
        &binding,
        "release-001",
        "AAAAAAAAAAAAAAAAAAAAAAAAAAAAAAAAAAAAAAAAAAA",
        "2026-08-02T00:00:00.000Z",
        "2030-01-01T00:00:00.000Z",
    );
    ReleaseToken { invocation: inv, signatures: Vec::new(), binding: Some(binding) }
}

/// What the hybrid signature check reports for two valid seats of three.
fn two_of_three() -> QuorumCheck {
    Ok(2)
}

/// What the hybrid signature check reports for a set short of the threshold.
fn short(valid: usize) -> QuorumCheck {
    Err(format!("{valid} valid hybrid signature(s), 2 required"))
}

fn refusal(rec: &HaltRecord, tok: &ReleaseToken, now: &str, q: QuorumCheck) -> String {
    verify_release_token(rec, tok, &authority(), now, q).unwrap_err().message()
}

#[test]
fn a_valid_two_of_three_token_releases_its_own_latch() {
    let rec = record("node-alpha", "halt-001", "latch-aaa");
    let tok = token_for(&rec);
    let v = verify_release_token(&rec, &tok, &authority(), NOW, two_of_three())
        .expect("valid token must verify");
    assert_eq!(v.valid_signers, 2);
    assert_eq!(v.node_id, "node-alpha");
    assert_eq!(v.latch_id, "latch-aaa");
}

#[test]
fn a_token_for_a_different_node_is_refused() {
    let mine = record("node-alpha", "halt-001", "latch-aaa");
    let theirs = record("node-beta", "halt-001", "latch-aaa");
    let tok = token_for(&theirs);
    let e = refusal(&mine, &tok, NOW, two_of_three());
    assert!(e.contains("not bound to THIS halt latch"), "{e}");
}

#[test]
fn a_token_for_a_different_halt_is_refused() {
    let mine = record("node-alpha", "halt-002", "latch-aaa");
    let other = record("node-alpha", "halt-001", "latch-aaa");
    let tok = token_for(&other);
    let e = refusal(&mine, &tok, NOW, two_of_three());
    assert!(e.contains("resumes halt"), "{e}");
}

#[test]
fn a_token_for_an_earlier_latch_of_the_same_halt_is_refused() {
    let old = record("node-alpha", "halt-001", "latch-aaa");
    let new = record("node-alpha", "halt-001", "latch-bbb");
    let tok = token_for(&old);
    let e = refusal(&new, &tok, NOW, two_of_three());
    assert!(e.contains("not bound to THIS halt latch"), "{e}");
}

#[test]
fn a_token_signed_by_the_wrong_keys_is_refused() {
    let rec = record("node-alpha", "halt-001", "latch-aaa");
    let tok = token_for(&rec);
    // Signatures by keys outside the roster count for nothing: no valid seat.
    let e = refusal(&rec, &tok, NOW, Ok(0));
    assert!(e.contains("quorum NOT met"), "{e}");
    assert!(e.contains("0 valid hybrid signature(s), 2 required"), "{e}");
    let e = refusal(&rec, &tok, NOW, short(0));
    assert!(e.contains("quorum NOT met"), "{e}");
}

#[test]
fn one_signature_does_not_meet_the_two_of_three() {
    let rec = record("node-alpha", "halt-001", "latch-aaa");
    let tok = token_for(&rec);
    let e = refusal(&rec, &tok, NOW, Ok(1));
    assert!(e.contains("quorum NOT met"), "{e}");
    assert!(e.contains("2 of 3 seats required"), "{e}");
    assert!(e.contains("1 valid hybrid signature(s), 2 required"), "{e}");
    let e = refusal(&rec, &tok, NOW, short(1));
    assert!(e.contains("quorum NOT met"), "{e}");
}

#[test]
fn a_halt_signature_cannot_be_replayed_as_a_release() {
    let rec = record("node-alpha", "halt-001", "latch-aaa");
    let mut tok = token_for(&rec);
    tok.invocation.invocation_kind = InvocationKind::Constitutional;
    let e = refusal(&rec, &tok, NOW, two_of_three());
    assert!(e.contains("accord:lifecycle:active"), "{e}");
}

#[test]
fn an_expired_token_is_refused() {
    let rec = record("node-alpha", "halt-001", "latch-aaa");
    let tok = token_with_window(&rec, "2026-08-02T00:00:00.000Z", "2026-08-02T12:00:00.000Z");
    let e = refusal(&rec, &tok, NOW, two_of_three());
    assert!(e.contains("expired"), "{e}");
}

#[test]
fn expiry_is_floored_at_the_latch_so_a_backwards_clock_cannot_revive_a_stale_token() {
    let rec = record("node-alpha", "halt-001", "latch-aaa");
    const DEAD_RTC: &str = "1970-01-01T00:00:00.000Z";
    let stale = token_with_window(&rec, "2026-06-01T00:00:00.000Z", "2026-07-01T00:00:00.000Z");
    let e = refusal(&rec, &stale, DEAD_RTC, two_of_three());
    assert!(e.contains("expired"), "{e}");

    let live = token_with_window(&rec, "2026-08-02T00:00:00.000Z", "2030-01-01T00:00:00.000Z");
    verify_release_token(&rec, &live, &authority(), DEAD_RTC, two_of_three())
        .expect("a broken clock must not block a live token");
}

#[test]
fn a_pre_347_latch_names_nothing_a_token_could_bind_to() {
    let mut old = record("node-alpha", "halt-001", "latch-aaa");
    let tok = token_for(&old);
    old.latch_id = None;
    let e = refusal(&old, &tok, NOW, two_of_three());
    assert!(e.contains("accord reactivate"), "{e}");
}

#[test]
fn the_latchs_stored_release_digest_is_documentation_not_authority() {
    let mut rec = record("node-alpha", "halt-001", "latch-aaa");
    let tok = token_for(&rec);
    let beta = record("node-beta", "halt-001", "latch-aaa");
    rec.release_payload_sha256 = Some("00".repeat(32));
    rec.release_binding = Some(ReleaseBinding::from_halt_record(&beta).unwrap());
    verify_release_token(&rec, &tok, &authority(), NOW, two_of_three())
        .expect("the stored digest is advisory; the recomputed one is authority");
}

#[test]
fn the_tokens_own_binding_block_is_advisory() {
    let rec = record("node-alpha", "halt-001", "latch-aaa");
    let mut tok = token_for(&rec);
    let elsewhere = record("node-beta", "halt-009", "latch-zzz");
    tok.binding = Some(ReleaseBinding::from_halt_record(&elsewhere).unwrap());
    verify_release_token(&rec, &tok, &authority(), NOW, two_of_three())
        .expect("verification reads the latch, never the token's binding block");
}

#[test]
fn an_unparseable_now_judges_against_the_given_clock() {
    let rec = record("node-alpha", "halt-001", "latch-aaa");
    let tok = token_with_window(&rec, "2026-08-02T00:00:00.000Z", "2026-09-01T00:00:00.000Z");
    // 2026-10-01T00:00:00Z: after the window closed.
    let late = Instant { secs: 1_790_812_800, nanos: 0 };
    let e = verify_release_token_at(&rec, &tok, &authority(), "not a time", late, two_of_three())
        .unwrap_err()
        .message();
    assert!(e.contains("expired"), "{e}");
    // 2026-08-15T00:00:00Z: inside it.
    let early = Instant { secs: 1_786_752_000, nanos: 0 };
    verify_release_token_at(&rec, &tok, &authority(), "not a time", early, two_of_three())
        .expect("inside the window");
}

fn last(outcome: &str, token: &str, reason: &str) -> Option<JournalLast> {
    Some(JournalLast {
        outcome: Some(outcome.to_string()),
        token_sha256: Some(token.to_string()),
        reason: Some(reason.to_string()),
    })
}

#[test]
fn a_refusal_is_journaled_once_per_token_and_reason() {
    assert!(!should_journal_refusal(&last("refused", "t1", "quorum"), "t1", "quorum"));
    assert!(should_journal_refusal(&last("refused", "t1", "quorum"), "t2", "quorum"));
    assert!(should_journal_refusal(&last("refused", "t1", "quorum"), "t1", "expired"));
    assert!(should_journal_refusal(&None, "t1", "quorum"));
    assert!(should_journal_refusal(&last("honored", "t1", "quorum"), "t1", "quorum"));
}

#[test]
fn the_gate_opens_without_a_latch_and_holds_with_one() {
    assert!(matches!(halt_gate(false, None), GateDecision::Open));
    assert!(matches!(halt_gate(true, None), GateDecision::Halted));
    assert!(matches!(
        halt_gate(true, Some(Err("refused".to_string()))),
        GateDecision::TokenRefused(ref e) if e == "refused"
    ));
}

#[test]
fn the_binding_digest_is_the_sha256_of_its_canonical_text() {
    let rec = record("node-alpha", "halt-001", "latch-aaa");
    let b = ReleaseBinding::from_halt_record(&rec).unwrap();
    let text = b.canonical_payload();
    assert!(text.starts_with("{\"halt_invocation_id\":\"halt-001\""), "{text}");
    assert!(text.contains("\"latch_id\":\"latch-aaa\""), "{text}");
    assert!(text.contains("\"node_id\":\"node-alpha\""), "{text}");
    let d = b.payload_sha256();
    assert_eq!(d.len(), 64);
    assert_ne!(d, text);
    let other = ReleaseBinding::from_halt_record(&record("node-alpha", "halt-001", "latch-bbb"))
        .unwrap()
        .payload_sha256();
    assert_ne!(d, other, "a new latch instance binds a new digest");
}

use ciris_accord::release::{reactivation_precheck, ReactivationRefusal};

#[test]
fn errors_when_not_halted() {
    let e = reactivation_precheck(false, "/home/x/HUMANITY_ACCORD_HALT", InvocationKind::LifecycleActive)
        .unwrap_err();
    assert!(matches!(e, ReactivationRefusal::NotHalted { .. }));
    assert!(e.message().contains("the node is not halted"), "{}", e.message());
}

#[test]
fn rejects_a_non_lifecycle_proof_without_clearing_the_latch() {
    let e = reactivation_precheck(true, "/home/x/HUMANITY_ACCORD_HALT", InvocationKind::Constitutional)
        .unwrap_err();
    assert!(e.message().contains("accord:lifecycle:active"), "{}", e.message());
    assert!(reactivation_precheck(true, "/l", InvocationKind::LifecycleActive).is_ok());
}

use ciris_accord::release::{Invocation, ThresholdSignature};

/// What a seat's signature covers, as this test's stand-in for the hybrid
/// check sees it: every field of the invocation's canonical bytes.
fn signed_fields(inv: &Invocation) -> String {
    format!(
        "{:?}|{}|{:?}|{}|{}|{}|{}",
        inv.invocation_kind,
        inv.invocation_id,
        inv.resumes_halt_id,
        inv.nonce,
        inv.asserted_at,
        inv.valid_until,
        inv.payload_sha256
    )
}

fn signed_token(rec: &HaltRecord, seats: &[&str]) -> ReleaseToken {
    let mut tok = token_for(rec);
    let fields = signed_fields(&tok.invocation);
    tok.signatures = seats
        .iter()
        .map(|s| ThresholdSignature {
            member_id: s.to_string(),
            ed25519_signature_base64: format!("{s}:{fields}"),
            mldsa65_signature_base64: Some(format!("{s}:{fields}")),
        })
        .collect();
    tok
}

/// The stand-in hybrid check: a seat counts only where its signature is over
/// exactly the token's current fields.
fn hybrid_check(tok: &ReleaseToken) -> QuorumCheck {
    let fields = signed_fields(&tok.invocation);
    Ok(tok
        .signatures
        .iter()
        .filter(|s| s.ed25519_signature_base64 == format!("{}:{fields}", s.member_id))
        .count())
}

#[test]
fn a_tampered_token_is_refused_in_every_field_that_is_signed() {
    let rec = record("node-alpha", "halt-001", "latch-aaa");
    let good = signed_token(&rec, &["A1", "B1"]);
    verify_release_token(&rec, &good, &authority(), NOW, hybrid_check(&good))
        .expect("the untouched token verifies");

    let mutations: [fn(&mut ReleaseToken); 5] = [
        |t| t.invocation.nonce.push('X'),
        |t| t.invocation.asserted_at = "2026-08-02T00:00:01.000Z".into(),
        |t| t.invocation.valid_until = "2031-01-01T00:00:00.000Z".into(),
        |t| t.invocation.invocation_id = "release-002".into(),
        |t| t.signatures[0].ed25519_signature_base64 = "A".repeat(88),
    ];
    for mutate in mutations {
        let mut bad = signed_token(&rec, &["A1", "B1"]);
        mutate(&mut bad);
        let q = hybrid_check(&bad);
        let e = verify_release_token(&rec, &bad, &authority(), NOW, q)
            .expect_err("a tampered token must never verify")
            .message();
        assert!(e.contains("quorum NOT met"), "{e}");
    }

    // The advisory `binding` block is NOT trusted: rewriting it changes nothing.
    let mut relabelled = signed_token(&rec, &["A1", "B1"]);
    let other = record("node-beta", "halt-001", "latch-zzz");
    relabelled.binding = Some(ReleaseBinding::from_halt_record(&other).unwrap());
    let q = hybrid_check(&relabelled);
    verify_release_token(&rec, &relabelled, &authority(), NOW, q)
        .expect("the token's own binding block is advisory — verification uses the LATCH");
}

#[test]
fn refused_ids_are_quoted_as_rust_debug_text() {
    let mine = record("node-alpha", "halt-\u{7f}\u{301}", "latch-aaa");
    let other = record("node-alpha", "halt-001\t", "latch-aaa");
    let tok = token_for(&other);
    let e = refusal(&mine, &tok, NOW, two_of_three());
    assert!(
        e.contains("resumes halt \"halt-001\\t\" but this node is latched on halt \"halt-\\u{7f}\\u{301}\""),
        "{e}"
    );
    let rec = record("node-alpha", "halt-001", "latch-aaa");
    let bad = token_with_window(&rec, "2026-08-02T00:00:00.000Z", "soon\u{1}");
    let e = refusal(&rec, &bad, NOW, two_of_three());
    assert!(e.contains("valid_until \"soon\\u{1}\" is not a canonical"), "{e}");
}
