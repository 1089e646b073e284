use ciris_accord::accord::AccordHalt;
use ciris_accord::admin::{
    classify_held, reader_read, MAX_JUDGEMENT_PAGE, deadmission_gate, partition_note, reader_decision_for, reader_standing,
    refuse_writes_enforcement, refuse_writes_not_reached, refuse_writes_reversal,
    throttle_enforcement, window_in_application_note, DeadmissionGate, HeldJudgement, LedgerEvent,
    ReaderDecision, ReaderStanding, OP_READER_DECLINE, OP_READER_HONOUR,
};
use ciris_accord::halt::HaltRecord;
use ciris_accord::prims::Instant;
use ciris_accord::provision::ci_key_default_identity_type;
use ciris_accord::release::release_reference_time;
use ciris_accord::selection::{summarize_page, PageRow};
use ciris_accord::admin::WindowEnforcement;

#[test]
fn a_node_without_a_home_runs_no_halt_wiring() {
    let h = AccordHalt::disabled();
    assert!(h.home.is_none() && h.peers.is_empty() && !h.exit_on_halt);
    assert_eq!(ci_key_default_identity_type(), "node");
}

#[test]
fn the_deadmission_gate_arms_only_for_the_declared_identity() {
    assert_eq!(deadmission_gate(None, "node-1"), DeadmissionGate::Dormant);
    assert_eq!(deadmission_gate(Some("node-1".into()), "node-1"), DeadmissionGate::Armed);
    assert_eq!(
        deadmission_gate(Some("node-2".into()), "node-1"),
        DeadmissionGate::ForeignIdentity("node-2".into())
    );
    assert_eq!(DeadmissionGate::Armed.token(), "armed");
}

#[test]
fn every_operator_note_has_its_own_id() {
    let ids = [
        throttle_enforcement().id,
        refuse_writes_enforcement().id,
        refuse_writes_not_reached().id,
        refuse_writes_reversal().id,
        partition_note().id,
        window_in_application_note().id,
    ];
    let distinct: std::collections::BTreeSet<&str> = ids.iter().copied().collect();
    assert_eq!(distinct.len(), ids.len());
    assert_eq!(throttle_enforcement().id, "admin.enforcement.throttle");
}

fn at(secs: i64) -> Instant {
    Instant { secs: 1_800_000_000 + secs, nanos: 0 }
}

fn decision(op: &str, judgement: &str, when: i64, id: &str) -> LedgerEvent {
    LedgerEvent {
        op: op.to_string(),
        target_key_id: Some("subject".to_string()),
        emitted_at: at(when),
        event_id: id.to_string(),
        delegation_id: Some("d".to_string()),
        reason: Some("r".to_string()),
        judgement_id: Some(judgement.to_string()),
    }
}

#[test]
fn the_latest_explicit_decision_about_a_judgement_governs() {
    let events = vec![
        decision(OP_READER_HONOUR, "j-1", 0, "e1"),
        decision(OP_READER_DECLINE, "j-1", 10, "e2"),
        decision(OP_READER_HONOUR, "j-2", 5, "e3"),
    ];
    assert_eq!(reader_decision_for(&events, "j-1"), Some(true), "declined last");
    assert_eq!(reader_decision_for(&events, "j-2"), Some(false));
    assert_eq!(reader_decision_for(&events, "j-3"), None);
    let held = vec![
        HeldJudgement { judgement_id: "j-1".into(), signer_key_id: "sub".into() },
        HeldJudgement { judgement_id: "j-2".into(), signer_key_id: "other".into() },
        HeldJudgement { judgement_id: "j-3".into(), signer_key_id: "sub".into() },
        HeldJudgement { judgement_id: "j-4".into(), signer_key_id: "other".into() },
    ];
    let d = classify_held(&held, &events, &["sub".to_string()]);
    assert_eq!(
        d,
        vec![
            ReaderDecision::Declined,
            ReaderDecision::HonouredExplicit,
            ReaderDecision::HonouredBySubscription,
            ReaderDecision::UndecidedUnsubscribed,
        ]
    );
    assert_eq!(reader_standing(0), ReaderStanding::NoJudgementsHeld);
    assert_eq!(reader_standing(4), ReaderStanding::Decided);
}

fn row(id: &str, by: &str, secs: i64) -> PageRow {
    PageRow { attestation_id: id.into(), attesting_key_id: by.into(), asserted_at: at(secs) }
}

#[test]
fn a_page_summary_counts_what_the_window_keeps() {
    let rows = vec![row("a", "k2", 0), row("b", "k1", 10), row("c", "k2", 20), row("d", "k1", 30)];
    let s = summarize_page(&rows, Some(at(10)), Some(at(30)), 4);
    assert_eq!(s.kept, vec![1, 2], "the window is half-open: [after, before)");
    assert_eq!(s.per_attester, vec![("k1".to_string(), 1), ("k2".to_string(), 1)]);
    assert!(s.truncated, "the page filled");
    assert_eq!(s.window_enforced, WindowEnforcement::Application);
    let open = summarize_page(&rows, None, None, 500);
    assert_eq!(open.kept.len(), 4);
    assert!(!open.truncated);
    assert_eq!(open.window_enforced, WindowEnforcement::NotRequested);
    let all_in = summarize_page(&rows, Some(at(0)), None, 500);
    assert_eq!(all_in.window_enforced, WindowEnforcement::Substrate);
}

#[test]
fn the_reference_time_is_floored_at_the_latch() {
    let rec = HaltRecord::new(
        "CONSTITUTIONAL".into(),
        "h".into(),
        vec![],
        2,
        "2026-08-01T00:00:00.000Z".into(),
        Some("n".into()),
        Some("ab".into()),
    );
    // 2026-08-01T00:00:00Z
    let latched = Instant { secs: 1_785_542_400, nanos: 0 };
    assert_eq!(release_reference_time(&rec, "1970-01-01T00:00:00Z"), latched);
    assert_eq!(
        release_reference_time(&rec, "2026-08-03T00:00:00Z"),
        Instant { secs: 1_785_715_200, nanos: 0 }
    );
}

#[test]
fn a_reader_read_keeps_the_honoured_judgements_for_its_fold() {
    let events = vec![
        decision(OP_READER_HONOUR, "j-1", 0, "e1"),
        decision(OP_READER_DECLINE, "j-1", 10, "e2"),
        decision(OP_READER_HONOUR, "j-2", 5, "e3"),
    ];
    let held = vec![
        HeldJudgement { judgement_id: "j-1".into(), signer_key_id: "sub".into() },
        HeldJudgement { judgement_id: "j-2".into(), signer_key_id: "other".into() },
        HeldJudgement { judgement_id: "j-3".into(), signer_key_id: "sub".into() },
        HeldJudgement { judgement_id: "j-4".into(), signer_key_id: "other".into() },
    ];
    let read = reader_read(&held, &events, &["sub".to_string()]).unwrap();
    assert_eq!(read.standing, ReaderStanding::Decided);
    assert_eq!(read.decisions[0], ReaderDecision::Declined);
    assert_eq!(read.honoured, vec!["j-2", "j-3"]);
    let empty = reader_read(&[], &events, &[]).unwrap();
    assert_eq!(empty.standing, ReaderStanding::NoJudgementsHeld);
    assert!(empty.decisions.is_empty() && empty.honoured.is_empty());
    let many: Vec<HeldJudgement> = (0..=MAX_JUDGEMENT_PAGE)
        .map(|i| HeldJudgement { judgement_id: format!("j-{i}"), signer_key_id: "s".into() })
        .collect();
    assert_eq!(
        reader_read(&many, &events, &[]).unwrap_err(),
        "this node holds 2001 judgements about that subject, above the 2000 a single fold will \
         read; folding a truncated set would report a release nobody signed"
    );
}
