use ciris_accord::accord::{
    judge_sighting, latch_record_for, opening_invocation_from, synth_invocation_from,
    InvocationStatus, OpenRefusal,
};
use ciris_accord::commit::{commit_verdict, AuthorityProof, Commit, CommitRefusal};
use ciris_accord::halt::{
    after_latch_attempt, halt_exit, latch_backoff_ms, HaltExit, HaltRecord, LatchNext,
    HALT_EXIT_CODE, MAX_LATCH_ATTEMPTS,
};
use ciris_accord::prims::{parse_rfc3339, Instant};
use ciris_accord::release::{
    should_journal_refusal, InvocationKind, JournalLast, ReleaseBinding,
};
use ciris_accord::selection::{selection_hash, Selection};

fn draw(byte: u8) -> Option<Vec<u8>> {
    Some(vec![byte; 32])
}

fn fields() -> (String, String, Vec<String>, usize, String) {
    (
        "CONSTITUTIONAL".to_string(),
        "halt-001".to_string(),
        vec!["accord-holder-a".to_string(), "accord-holder-b".to_string()],
        2,
        "2026-06-20T00:00:00.000Z".to_string(),
    )
}

#[test]
fn the_latch_id_is_the_hex_of_the_draw() {
    let (k, i, v, q, l) = fields();
    let rec = HaltRecord::from_draw(k, i, v, q, l, Some("node-under-test".into()), Some("cd".repeat(32)), draw(0xab));
    assert_eq!(rec.latch_id.as_deref(), Some("ab".repeat(32).as_str()));
    let binding = ReleaseBinding::from_halt_record(&rec).unwrap();
    assert_eq!(rec.release_payload_sha256.as_deref(), Some(binding.payload_sha256().as_str()));
    assert_eq!(binding.latch_id, "ab".repeat(32));
}

#[test]
fn a_failed_draw_latches_a_record_no_token_can_bind_to() {
    let (k, i, v, q, l) = fields();
    let rec = HaltRecord::from_draw(k, i, v, q, l, Some("node-under-test".into()), Some("cd".repeat(32)), None);
    assert!(rec.latch_id.is_none());
    assert!(rec.release_binding.is_none() && rec.release_payload_sha256.is_none());
    assert!(ReleaseBinding::from_halt_record(&rec).is_err());
}

#[test]
fn the_halt_record_states_the_digest_that_would_lift_it() {
    let (k, i, v, q, l) = fields();
    let rec = HaltRecord::new(k, i, v, q, l, Some("node-under-test".into()), Some("cd".repeat(32)));
    assert!(rec.latch_id.is_some(), "the test machine's CSPRNG draws");
    assert_eq!(rec.latch_id.as_ref().unwrap().len(), 64);
    assert_eq!(
        rec.release_payload_sha256.as_deref(),
        Some(ReleaseBinding::from_halt_record(&rec).unwrap().payload_sha256().as_str())
    );
}

#[test]
fn a_global_halt_latches_the_sighting_it_judged() {
    let status = InvocationStatus {
        invocation_kind: "CONSTITUTIONAL".to_string(),
        invocation_id: "halt-009".to_string(),
        valid_signers: vec!["A1".to_string(), "B1".to_string()],
    };
    let s = judge_sighting(&status, 2, None, "", "2026-06-20T00:00:00.000Z");
    assert!(s.global_halt && s.outcome.halted);
    let rec = latch_record_for(
        status,
        2,
        "2026-06-20T00:00:00.000Z".to_string(),
        Some("node-9".to_string()),
        Some("ee".repeat(32)),
        draw(0x01),
    );
    assert_eq!(rec.invocation_id, "halt-009");
    assert_eq!(rec.valid_signers, vec!["A1", "B1"]);
    assert_eq!(rec.quorum_threshold, 2);
    assert_eq!(rec.latched_at, "2026-06-20T00:00:00.000Z");
    assert_eq!(rec.node_id.as_deref(), Some("node-9"));
    assert_eq!(rec.latch_id.as_deref(), Some("01".repeat(32).as_str()));
    assert!(rec.release_binding.is_some());
}

#[test]
fn latch_retries_back_off_and_cap() {
    let waits: Vec<u64> = (1..=8).map(latch_backoff_ms).collect();
    assert_eq!(waits, vec![100, 200, 400, 800, 1600, 2000, 2000, 2000]);
    assert_eq!(latch_backoff_ms(0), 50);
    assert_eq!(latch_backoff_ms(u32::MAX), 2000);
    assert_eq!(after_latch_attempt(3, true), LatchNext::Latched);
    assert_eq!(after_latch_attempt(1, false), LatchNext::Retry { after_ms: 100 });
    assert_eq!(
        after_latch_attempt(MAX_LATCH_ATTEMPTS, false),
        LatchNext::GiveUp { after_ms: 2000 }
    );
}

#[test]
fn a_halt_that_cannot_latch_aborts_rather_than_exits() {
    assert_eq!(halt_exit(true, true, true), HaltExit::Exit(HALT_EXIT_CODE));
    assert_eq!(HALT_EXIT_CODE, 42);
    assert_eq!(halt_exit(true, false, true), HaltExit::Abort);
    assert_eq!(halt_exit(false, false, true), HaltExit::Exit(42));
    assert_eq!(halt_exit(true, false, false), HaltExit::Stay);
    assert_eq!(halt_exit(true, true, false), HaltExit::Stay);
}

const T0: Instant = Instant { secs: 1_767_225_600, nanos: 0 };

#[test]
fn a_synthesized_invocation_is_built_from_its_draw() {
    let inv = synth_invocation_from(InvocationKind::Notify, "notify-x", b"hello mesh", draw(0xff), T0);
    assert_eq!(inv.nonce, "_".repeat(42) + "8");
    assert_eq!(inv.asserted_at, "2026-01-01T00:00:00.000Z");
    assert_eq!(inv.valid_until, "2026-01-01T01:00:00.000Z");
    assert!(parse_rfc3339(&inv.valid_until).is_some());
    let degraded = synth_invocation_from(InvocationKind::Drill, "d", b"", None, T0);
    assert_eq!(degraded.nonce, "A".repeat(43), "a CSPRNG fault leaves a zero nonce");
    assert_eq!(
        degraded.payload_sha256,
        "e3b0c44298fc1c149afbf4c8996fb92427ae41e4649b934ca495991b7852b855"
    );
}

#[test]
fn an_opening_without_an_id_takes_a_fresh_one_from_the_draw() {
    let h = opening_invocation_from(InvocationKind::Constitutional, None, None, None, draw(0), draw(0), T0)
        .unwrap();
    assert_eq!(h.invocation_id, "halt-00000000-0000-4000-8000-000000000000");
    let n = opening_invocation_from(InvocationKind::Notify, None, Some("  "), Some("hi"), draw(0xff), None, T0)
        .unwrap();
    assert_eq!(n.invocation_id, "notify-ffffffff-ffff-4fff-bfff-ffffffffffff");
    assert_eq!(
        opening_invocation_from(InvocationKind::Constitutional, None, None, None, None, draw(0), T0)
            .unwrap_err(),
        OpenRefusal::RandomnessUnavailable
    );
    let named = opening_invocation_from(InvocationKind::Drill, None, Some(" d-1 "), None, None, None, T0)
        .unwrap();
    assert_eq!(named.invocation_id, "d-1", "a named id needs no draw");
}

fn commit(reason: &str, hash: &str) -> Commit {
    Commit {
        selection: Selection { attested_key_id: Some("k".to_string()), ..Default::default() },
        selection_hash: hash.to_string(),
        delegation_id: "deleg-1".to_string(),
        reason: reason.to_string(),
    }
}

fn authority_from(root: &str) -> AuthorityProof {
    AuthorityProof { delegation_id: format!("d-{root}"), issuer_key_id: root.to_string() }
}

#[test]
fn the_commit_gate_runs_attribution_then_quorum_then_the_preview_hash() {
    let two = [authority_from("r1"), authority_from("r2"), authority_from("r1")];
    assert_eq!(commit_verdict(&commit("  ", "h"), &two, 2, "h"), Err(CommitRefusal::ReasonAbsent));
    assert_eq!(commit_verdict(&commit("spam", " h "), &two, 2, "h"), Ok(2));
    assert_eq!(
        commit_verdict(&commit("spam", "h"), &two, 3, "h"),
        Err(CommitRefusal::QuorumInsufficient { required: 3, distinct_roots: 2 })
    );
    assert_eq!(
        commit_verdict(&commit("spam", "old"), &two, 2, "new"),
        Err(CommitRefusal::PreviewHashMismatch {
            presented: "old".to_string(),
            current: "new".to_string()
        })
    );
}

#[test]
fn the_selection_hash_covers_the_key_id_sets() {
    let ids = vec!["row-1".to_string()];
    let s1 = Selection { attesting_key_ids: vec!["a".into()], ..Default::default() };
    let s2 = Selection { attesting_key_ids: vec!["b".into()], ..Default::default() };
    let s3 = Selection { attested_key_ids: vec!["a".into()], ..Default::default() };
    let h1 = selection_hash(&s1, &ids);
    assert_ne!(h1, selection_hash(&s2, &ids));
    assert_ne!(h1, selection_hash(&s3, &ids));
    let s1_again = Selection { attesting_key_ids: vec![" a ".into(), "a".into()], ..Default::default() };
    assert_eq!(h1, selection_hash(&s1_again, &ids), "the hash is over the normal form");
}

#[test]
fn a_refusal_met_five_times_is_journaled_once() {
    let mut journal: Vec<JournalLast> = Vec::new();
    for _ in 0..5 {
        let last = journal.last().map(|l| JournalLast {
            outcome: l.outcome.clone(),
            token_sha256: l.token_sha256.clone(),
            reason: l.reason.clone(),
        });
        if should_journal_refusal(&last, "tok", "quorum NOT met") {
            journal.push(JournalLast {
                outcome: Some("refused".to_string()),
                token_sha256: Some("tok".to_string()),
                reason: Some("quorum NOT met".to_string()),
            });
        }
    }
    assert_eq!(journal.len(), 1);
}
