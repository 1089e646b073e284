use ciris_accord::accord::{
    assert_distinct_roster, canonical_op_quorum, first_sighting, judge_sighting,
    kill_switch_quorum, payload_hash_hex, record_event, resolve_holder_signature, still_pending,
    strict_majority, synth_invocation, unseatable_member, unseatable_message, AccordEvent,
    CanonicalOpClass, InvocationStatus, SignatureRefusal, MAX_ACCORD_EVENTS, MAX_SEEN_INVOCATIONS,
};
use ciris_accord::halt::HaltRecord;
use ciris_accord::prims::{parse_rfc3339, Instant};
use ciris_accord::release::{InvocationKind, ReleaseBinding, ThresholdMember, ThresholdSignature};

#[test]
fn synth_invocation_binds_the_notify_payload() {
    let notify = synth_invocation(InvocationKind::Notify, "notify-x", b"hello mesh");
    assert_eq!(notify.invocation_kind, InvocationKind::Notify);
    assert_eq!(notify.payload_sha256, payload_hash_hex(b"hello mesh"));
    assert!(notify.resumes_halt_id.is_none());
    assert!(!notify.nonce.is_empty());
    assert!(parse_rfc3339(&notify.valid_until).is_some());

    let drill = synth_invocation(InvocationKind::Drill, "drill-x", b"");
    assert_eq!(drill.invocation_kind, InvocationKind::Drill);
    assert_eq!(drill.payload_sha256, payload_hash_hex(b""));
}

#[test]
fn the_payload_hash_is_lowercase_hex_sha256() {
    assert_eq!(
        payload_hash_hex(b"abc"),
        "ba7816bf8f01cfea414140de5dae2223b00361a396177a9cb410ff61f20015ad"
    );
    assert_eq!(
        payload_hash_hex(b""),
        "e3b0c44298fc1c149afbf4c8996fb92427ae41e4649b934ca495991b7852b855"
    );
}

#[test]
fn a_synthesized_window_is_one_hour() {
    let inv = synth_invocation(InvocationKind::Drill, "d", b"");
    let from = parse_rfc3339(&inv.asserted_at).expect("asserted_at parses");
    let to = parse_rfc3339(&inv.valid_until).expect("valid_until parses");
    assert_eq!(to.secs - from.secs, 3600);
    assert_eq!(inv.nonce.len(), 43, "base64url of 32 bytes, unpadded");
}

fn event(kind: &str, id: &str) -> AccordEvent {
    AccordEvent {
        event_type: kind.to_string(),
        invocation_id: id.to_string(),
        recorded_at: "2026-01-01T00:00:00.000Z".to_string(),
        signers: vec!["A1".to_string()],
        quorum_threshold: 1,
        message: None,
    }
}

#[test]
fn recording_an_event_twice_records_it_once() {
    let mut log = Vec::new();
    assert!(record_event(&mut log, event("drill", "d-1")));
    assert!(!record_event(&mut log, event("drill", "d-1")));
    assert!(record_event(&mut log, event("announce", "d-1")), "type and id both key an event");
    assert_eq!(log.len(), 2);
}

#[test]
fn the_event_log_drops_its_oldest_at_the_cap() {
    let mut log = Vec::new();
    for i in 0..MAX_ACCORD_EVENTS {
        assert!(record_event(&mut log, event("drill", &format!("d-{i}"))));
    }
    assert_eq!(log.len(), MAX_ACCORD_EVENTS);
    assert!(record_event(&mut log, event("drill", "newest")));
    assert_eq!(log.len(), MAX_ACCORD_EVENTS);
    assert_eq!(log[0].invocation_id, "d-1", "the oldest was dropped");
    assert_eq!(log[MAX_ACCORD_EVENTS - 1].invocation_id, "newest");
}

#[test]
fn a_pending_invocation_lives_until_its_window_closes() {
    let now = Instant { secs: 1_767_225_600, nanos: 0 }; // 2026-01-01T00:00:00Z
    assert!(still_pending("2026-01-01T00:00:01Z", now));
    assert!(!still_pending("2026-01-01T00:00:00Z", now));
    assert!(!still_pending("2025-12-31T23:59:59Z", now));
    assert!(!still_pending("not a time", now));
}

fn seat(id: &str, ed: &str, pq: Option<&str>) -> ThresholdMember {
    ThresholdMember {
        member_id: id.to_string(),
        ed25519_public_key_base64: ed.to_string(),
        mldsa65_public_key_base64: pq.map(str::to_string),
    }
}

#[test]
fn one_key_never_holds_two_seats() {
    assert!(assert_distinct_roster(&[
        seat("A1", "ed-a", Some("pq-a")),
        seat("B1", "ed-b", Some("pq-b")),
        seat("C1", "ed-c", None),
    ])
    .is_ok());
    let e = assert_distinct_roster(&[
        seat("A1", "ed-a", Some("pq-a")),
        seat("B1", "ed-a", Some("pq-b")),
    ])
    .unwrap_err();
    assert!(e.contains("B1"), "{e}");
    let e = assert_distinct_roster(&[
        seat("A1", "ed-a", Some("pq-a")),
        seat("B1", "ed-b", Some("pq-a")),
    ])
    .unwrap_err();
    assert!(e.contains("B1"), "{e}");
    assert!(assert_distinct_roster(&[seat("A1", "ed-a", None), seat("B1", "ed-b", None)]).is_ok());
}

#[test]
fn the_quorum_is_the_entrenched_m_or_a_strict_majority() {
    assert_eq!(strict_majority(3), 2);
    assert_eq!(strict_majority(5), 3);
    assert_eq!(strict_majority(4), 3);
    assert_eq!(kill_switch_quorum(Some(4), 5), 4);
    assert_eq!(kill_switch_quorum(None, 5), 3);
    assert_eq!(canonical_op_quorum(CanonicalOpClass::Operational, Some(3), 5), 1);
    assert_eq!(canonical_op_quorum(CanonicalOpClass::Destructive, Some(3), 5), 3);
    assert_eq!(canonical_op_quorum(CanonicalOpClass::Destructive, None, 3), 2);
}

fn sig(id: &str) -> ThresholdSignature {
    ThresholdSignature {
        member_id: id.to_string(),
        ed25519_signature_base64: "ed".to_string(),
        mldsa65_signature_base64: Some("pq".to_string()),
    }
}

#[test]
fn resolve_prefers_a_submitted_signature() {
    let s = resolve_holder_signature(Some(sig("A1")), Some("holder"), Some("/usb")).unwrap();
    assert_eq!(s.member_id, "A1");
}

#[test]
fn resolve_rejects_when_no_signature_and_no_hardware_inputs() {
    assert_eq!(
        resolve_holder_signature(None, None, None).unwrap_err(),
        SignatureRefusal::Missing
    );
    assert_eq!(resolve_holder_signature(None, None, None).unwrap_err().status(), 400);
}

#[test]
fn resolve_rejects_blank_hardware_inputs() {
    let refusal = resolve_holder_signature(None, Some("   "), Some("")).unwrap_err();
    assert_eq!(refusal, SignatureRefusal::Missing);
    assert_eq!(refusal.status(), 400);
    assert_eq!(
        resolve_holder_signature(None, Some("  "), Some("/usb")).unwrap_err(),
        SignatureRefusal::Missing
    );
    assert_eq!(
        resolve_holder_signature(None, Some("holder"), Some("   ")).unwrap_err(),
        SignatureRefusal::Missing
    );
}

#[test]
fn resolve_hardware_path_is_a_hardware_refusal_here() {
    assert_eq!(
        resolve_holder_signature(None, Some("accord-holder-1"), Some("/tmp/usb")).unwrap_err(),
        SignatureRefusal::HardwareUnavailable
    );
    assert_eq!(SignatureRefusal::HardwareUnavailable.status(), 501);
}

fn status(kind: &str, signers: &[&str]) -> InvocationStatus {
    InvocationStatus {
        invocation_kind: kind.to_string(),
        invocation_id: "inv-1".to_string(),
        valid_signers: signers.iter().map(|s| s.to_string()).collect(),
    }
}

const NOW: &str = "2026-01-01T00:00:00+00:00";

#[test]
fn a_constitutional_at_quorum_is_a_global_halt() {
    let s = judge_sighting(&status("CONSTITUTIONAL", &["A1", "B1"]), 2, None, "", NOW);
    assert!(s.outcome.authentic && s.outcome.quorum_met && s.global_halt);
    assert!(s.outcome.halted, "the answer to a global halt says the node halted");
    assert!(s.event.is_none());
    let short = judge_sighting(&status("CONSTITUTIONAL", &["A1"]), 2, None, "", NOW);
    assert!(short.outcome.authentic && !short.outcome.quorum_met && !short.global_halt);
    assert!(!short.outcome.halted);
}

#[test]
fn an_unsigned_sighting_is_not_authentic_and_does_nothing() {
    let s = judge_sighting(&status("CONSTITUTIONAL", &[]), 0, None, "", NOW);
    assert!(!s.outcome.authentic);
    assert!(!s.global_halt, "zero valid signers never halts, even at M = 0");
    assert!(s.event.is_none());
}

#[test]
fn a_drill_surfaces_at_quorum_and_never_halts() {
    let s = judge_sighting(&status("drill", &["A1", "B1", "C1"]), 2, None, "", NOW);
    assert!(!s.global_halt);
    let e = s.event.expect("a quorum-complete drill is surfaced");
    assert_eq!(e.event_type, "drill");
    assert_eq!(e.quorum_threshold, 2);
    assert_eq!(e.signers.len(), 3);
    assert_eq!(e.recorded_at, NOW);
    let sub = judge_sighting(&status("drill", &["A1"]), 2, None, "", NOW);
    assert!(sub.event.is_none(), "a sub-quorum drill is surfaced nowhere");
}

#[test]
fn an_announce_keeps_its_message_only_when_bound() {
    let digest = payload_hash_hex(b"hello mesh");
    let bound = judge_sighting(&status("notify", &["A1"]), 3, Some("hello mesh"), &digest, NOW);
    let e = bound.event.expect("a single valid signature completes an announce");
    assert_eq!(e.event_type, "announce");
    assert_eq!(e.quorum_threshold, 1);
    assert_eq!(e.message.as_deref(), Some("hello mesh"));
    let tampered = judge_sighting(&status("notify", &["A1"]), 3, Some("hello MESH"), &digest, NOW);
    assert_eq!(tampered.event.expect("still recorded").message, None);
    assert!(!bound.global_halt);
}

fn key(kind: &str, id: &str, halt: bool) -> (String, String, bool) {
    (kind.to_string(), id.to_string(), halt)
}

#[test]
fn a_quorum_sighting_relays_after_a_sub_quorum_one() {
    let mut seen = Vec::new();
    assert!(first_sighting(&mut seen, key("CONSTITUTIONAL", "h", false)));
    assert!(!first_sighting(&mut seen, key("CONSTITUTIONAL", "h", false)));
    assert!(first_sighting(&mut seen, key("CONSTITUTIONAL", "h", true)));
    assert!(!first_sighting(&mut seen, key("CONSTITUTIONAL", "h", true)));
}

#[test]
fn a_full_loop_stop_table_is_cleared_first() {
    let mut seen: Vec<(String, String, bool)> =
        (0..MAX_SEEN_INVOCATIONS).map(|i| key("drill", &format!("d-{i}"), false)).collect();
    assert!(first_sighting(&mut seen, key("drill", "d-0", false)), "cleared, so seen afresh");
    assert_eq!(seen.len(), 1);
}

#[test]
fn every_seat_must_be_a_registered_holder() {
    let holders = vec!["A1".to_string(), "B1".to_string(), "C1".to_string()];
    assert_eq!(unseatable_member(&["A1".to_string(), "C1".to_string()], &holders), None);
    assert_eq!(
        unseatable_member(&["A1".to_string(), "X9".to_string(), "Y9".to_string()], &holders),
        Some("X9".to_string())
    );
    let m = unseatable_message("X9");
    assert!(m.starts_with("cannot entrench X9 as a HUMANITY_ACCORD seat"), "{m}");
}

#[test]
fn two_latches_of_the_same_halt_get_distinct_latch_ids() {
    let mk = || {
        HaltRecord::new(
            "CONSTITUTIONAL".into(),
            "halt-001".into(),
            vec!["A1".into(), "B1".into()],
            2,
            "2026-06-20T00:00:00.000Z".into(),
            Some("node-x".into()),
            Some("ef".repeat(32)),
        )
    };
    let (a, b) = (mk(), mk());
    assert!(a.latch_id.is_some(), "every latch mints a fresh latch_id");
    assert_ne!(a.latch_id, b.latch_id);
    assert_ne!(a.release_payload_sha256, b.release_payload_sha256);
    assert_eq!(
        a.release_payload_sha256.as_deref(),
        Some(ReleaseBinding::from_halt_record(&a).unwrap().payload_sha256().as_str())
    );
}

use ciris_accord::accord::{opening_invocation, OpenRefusal, PendingInvocation, PendingInvocations};

#[test]
fn an_endpoint_takes_only_its_own_kind() {
    let drill = synth_invocation(InvocationKind::Drill, "d-1", b"");
    assert_eq!(
        opening_invocation(InvocationKind::Constitutional, Some(drill), None, None).unwrap_err(),
        OpenRefusal::WrongKind(InvocationKind::Constitutional)
    );
    assert_eq!(
        OpenRefusal::WrongKind(InvocationKind::Constitutional).message(),
        "the halt endpoint requires invocation_kind \"constitutional\""
    );
    let drill = synth_invocation(InvocationKind::Drill, "d-1", b"");
    let kept = opening_invocation(InvocationKind::Drill, Some(drill), Some("ignored"), None).unwrap();
    assert_eq!(kept.invocation_id, "d-1");
}

#[test]
fn a_drill_must_name_itself_and_a_halt_need_not() {
    assert_eq!(
        opening_invocation(InvocationKind::Drill, None, Some("   "), None).unwrap_err(),
        OpenRefusal::NoDrillId
    );
    let d = opening_invocation(InvocationKind::Drill, None, Some("  drill-7 "), None).unwrap();
    assert_eq!(d.invocation_id, "drill-7");
    assert_eq!(d.invocation_kind, InvocationKind::Drill);
    let h = opening_invocation(InvocationKind::Constitutional, None, None, None).unwrap();
    assert!(h.invocation_id.starts_with("halt-"), "{}", h.invocation_id);
    assert_eq!(h.invocation_id.len(), 5 + 36);
}

#[test]
fn an_announcement_binds_its_text() {
    let a = opening_invocation(InvocationKind::Notify, None, None, Some("hello mesh")).unwrap();
    assert!(a.invocation_id.starts_with("notify-"));
    assert_eq!(a.payload_sha256, payload_hash_hex(b"hello mesh"));
    let signed = synth_invocation(InvocationKind::Notify, "n-1", b"the signed text");
    assert_eq!(
        opening_invocation(InvocationKind::Notify, Some(signed), None, Some("other text")).unwrap_err(),
        OpenRefusal::UnboundMessage
    );
    let signed = synth_invocation(InvocationKind::Notify, "n-1", b"the signed text");
    assert!(opening_invocation(InvocationKind::Notify, Some(signed), None, Some("the signed text")).is_ok());
}

fn pending(kind: &str, id: &str, until: &str, tag: u32) -> PendingInvocation<u32> {
    PendingInvocation {
        invocation_kind: kind.to_string(),
        invocation_id: id.to_string(),
        valid_until: until.to_string(),
        object: tag,
    }
}

#[test]
fn the_pending_table_keeps_live_entries_one_per_key() {
    let now = Instant { secs: 1_767_225_600, nanos: 0 }; // 2026-01-01T00:00:00Z
    let mut t = PendingInvocations::new();
    assert!(t.store(pending("drill", "d-1", "2026-01-01T01:00:00Z", 1), now, true));
    assert!(t.store(pending("drill", "d-1", "2026-01-01T01:00:00Z", 2), now, true));
    assert_eq!(t.entries.len(), 1, "one entry per key");
    assert_eq!(t.entries[0].object, 2, "the advanced object replaces the old one");
    assert!(t.store(pending("drill", "d-old", "2025-12-31T00:00:00Z", 3), now, true));
    assert_eq!(t.entries.len(), 2);
    t.prune(now);
    assert_eq!(t.entries.len(), 1, "the expired entry is evicted");
    assert_eq!(t.position("drill", "d-1"), Some(0));
    assert_eq!(t.position("drill", "d-old"), None);
    assert!(t.store(pending("notify", "bad", "not a time", 4), now, true));
    t.prune(now);
    assert_eq!(t.position("notify", "bad"), None, "an unparseable window is not live");
}

#[test]
fn a_full_pending_table_refuses_a_new_key_but_advances_an_old_one() {
    let now = Instant { secs: 1_767_225_600, nanos: 0 };
    let mut t = PendingInvocations::new();
    for i in 0..ciris_accord::accord::MAX_PENDING_INVOCATIONS {
        t.entries.push(pending("drill", &format!("d-{i}"), "2030-01-01T00:00:00Z", 0));
    }
    assert!(!t.store(pending("drill", "new", "2030-01-01T00:00:00Z", 1), now, true));
    assert!(t.store(pending("drill", "d-7", "2030-01-01T00:00:00Z", 9), now, true));
    assert_eq!(t.entries[7].object, 9);
    assert!(t.store(pending("drill", "new", "2030-01-01T00:00:00Z", 1), now, false), "a concurrence is not capped");
}
