use ciris_accord::admin::{AdmissionStanding, OP_READER_DECLINE, OP_READER_HONOUR};
use ciris_accord::commit::{
    accept_writes_step, attribution_gate, authority_reached, distinct_text_count,
    judge_delegation_row, named_delegation, owner_gate, payload_descent_permitted,
    preview_hash_gate, quorum_gate, reader_event_id, reader_op, reader_target, reason_gate,
    refuse_writes_step, skip_outcome, AuthorityProof, Commit, CommitRefusal, DelegationRow,
    DoorStep, JudgementRow,
};
use ciris_accord::prims::Instant;
use ciris_accord::selection::Selection;

fn commit(reason: &str, sel: Selection) -> Commit {
    Commit {
        selection: sel,
        selection_hash: "h".to_string(),
        delegation_id: "deleg-1".to_string(),
        reason: reason.to_string(),
    }
}

fn predicated() -> Selection {
    Selection { attested_key_id: Some("k".to_string()), ..Default::default() }
}

#[test]
fn a_reason_comes_before_a_predicate() {
    assert_eq!(
        attribution_gate(&commit("  ", Selection::default())),
        Err(CommitRefusal::ReasonAbsent)
    );
    assert_eq!(
        attribution_gate(&commit("spam", Selection::default())),
        Err(CommitRefusal::SelectionUnpredicated)
    );
    assert_eq!(attribution_gate(&commit("spam", predicated())), Ok(()));
    assert_eq!(CommitRefusal::ReasonAbsent.token(), "attribution_absent");
    assert_eq!(CommitRefusal::ReasonAbsent.message_id(), "admin.refusal.reason_absent");
    assert_eq!(CommitRefusal::SelectionUnpredicated.status(), 400);
}

#[test]
fn a_blank_delegation_is_unattributed() {
    assert_eq!(named_delegation("   "), Err(CommitRefusal::AttributionAbsent));
    assert_eq!(named_delegation("  deleg-7 "), Ok("deleg-7".to_string()));
    assert_eq!(
        CommitRefusal::AttributionAbsent.message_id(),
        "admin.refusal.attribution_absent"
    );
}

fn row(kind: &str, to: &str, scopes: &[&str]) -> DelegationRow {
    DelegationRow {
        attestation_type: kind.to_string(),
        attesting_key_id: "issuer-1".to_string(),
        attested_key_id: to.to_string(),
        scopes: scopes.iter().map(|s| s.to_string()).collect(),
    }
}

#[test]
fn the_row_itself_must_carry_the_scope() {
    assert_eq!(judge_delegation_row(None, "node", "slash"), Err(CommitRefusal::AuthorityUnresolved));
    assert_eq!(
        judge_delegation_row(Some(&row("scores", "node", &["slash"])), "node", "slash"),
        Err(CommitRefusal::AuthorityNotADelegation)
    );
    assert_eq!(
        judge_delegation_row(Some(&row("delegates_to", "other", &["slash"])), "node", "slash"),
        Err(CommitRefusal::AuthorityNotToActor)
    );
    assert_eq!(
        judge_delegation_row(Some(&row("delegates_to", "node", &["review"])), "node", "slash"),
        Err(CommitRefusal::AuthorityScopeAbsent)
    );
    assert_eq!(
        judge_delegation_row(Some(&row("delegates_to", "node", &["review", "slash"])), "node", "slash"),
        Ok("issuer-1".to_string())
    );
    assert_eq!(CommitRefusal::AuthorityScopeAbsent.status(), 403);
}

#[test]
fn an_unreachable_scope_is_refused() {
    assert_eq!(
        authority_reached("deleg-1", "issuer-1", false).unwrap_err(),
        CommitRefusal::AuthorityScopeUnreachable
    );
    let p = authority_reached("deleg-1", "issuer-1", true).unwrap();
    assert_eq!((p.delegation_id.as_str(), p.issuer_key_id.as_str()), ("deleg-1", "issuer-1"));
}

fn authority(root: &str) -> AuthorityProof {
    AuthorityProof { delegation_id: format!("d-{root}"), issuer_key_id: root.to_string() }
}

#[test]
fn two_chains_from_one_root_are_one_authority() {
    assert_eq!(
        quorum_gate(&[authority("r1"), authority("r1")], 2),
        Err(CommitRefusal::QuorumInsufficient { required: 2, distinct_roots: 1 })
    );
    assert_eq!(quorum_gate(&[authority("r1"), authority("r2"), authority("r1")], 2), Ok(2));
    assert_eq!(quorum_gate(&[authority("r1")], 1), Ok(1));
    assert_eq!(CommitRefusal::QuorumInsufficient { required: 2, distinct_roots: 1 }.token(), "quorum_insufficient");
}

#[test]
fn distinct_texts_are_counted_once() {
    let xs: Vec<String> = ["b", "a", "b", "c", "a"].iter().map(|s| s.to_string()).collect();
    assert_eq!(distinct_text_count(&xs), 3);
    assert_eq!(distinct_text_count(&[]), 0);
}

#[test]
fn what_was_previewed_must_be_what_executes() {
    assert_eq!(preview_hash_gate("  abc ", "abc"), Ok(()));
    let e = preview_hash_gate("abc", "abd").unwrap_err();
    assert_eq!(
        e,
        CommitRefusal::PreviewHashMismatch { presented: "abc".to_string(), current: "abd".to_string() }
    );
    assert_eq!(e.status(), 409);
    assert_eq!(e.token(), "preview_hash_mismatch");
}

#[test]
fn the_restrictive_door_never_fails_open() {
    assert_eq!(refuse_writes_step(AdmissionStanding::Refused), DoorStep::Skip);
    assert_eq!(refuse_writes_step(AdmissionStanding::Admitted), DoorStep::Write);
    assert_eq!(
        refuse_writes_step(AdmissionStanding::Unreadable),
        DoorStep::Write,
        "an unreadable standing does not stop a sanction"
    );
    assert_eq!(accept_writes_step(AdmissionStanding::Admitted), DoorStep::Skip);
    assert_eq!(
        accept_writes_step(AdmissionStanding::Unreadable),
        DoorStep::Stop,
        "a lift stops when it cannot know what it lifts"
    );
    assert_eq!(accept_writes_step(AdmissionStanding::Refused), DoorStep::Write);
    assert_eq!(skip_outcome(false), "already_refused");
    assert_eq!(skip_outcome(true), "not_refused");
}

#[test]
fn a_bounded_descent_refuses_the_payload_leg() {
    let bounded = Selection {
        attested_key_id: Some("k".to_string()),
        after: Some(Instant { secs: 1_700_000_000, nanos: 0 }),
        ..Default::default()
    };
    assert!(!payload_descent_permitted(&bounded));
    assert!(payload_descent_permitted(&predicated()));
}

#[test]
fn the_owner_gate_names_which_half_failed() {
    assert_eq!(owner_gate(false, true), Err(CommitRefusal::NodeUnowned));
    assert_eq!(owner_gate(true, false), Err(CommitRefusal::AuthorityNotTheOwner));
    assert_eq!(owner_gate(true, true), Ok(()));
    assert_eq!(reason_gate(" "), Err(CommitRefusal::ReasonAbsent));
    assert_eq!(reason_gate("why"), Ok(()));
}

#[test]
fn a_reader_decides_only_what_it_holds() {
    assert_eq!(reader_target(None), Err(CommitRefusal::JudgementUnresolved));
    assert_eq!(
        reader_target(Some(&JudgementRow { is_marker_dimension: false, subject: Some("s".into()) })),
        Err(CommitRefusal::NotAJudgement)
    );
    assert_eq!(
        reader_target(Some(&JudgementRow { is_marker_dimension: true, subject: Some(String::new()) })),
        Err(CommitRefusal::JudgementSubjectless)
    );
    assert_eq!(
        reader_target(Some(&JudgementRow { is_marker_dimension: true, subject: None })),
        Err(CommitRefusal::JudgementSubjectless)
    );
    assert_eq!(
        reader_target(Some(&JudgementRow { is_marker_dimension: true, subject: Some("s-1".into()) })),
        Ok("s-1".to_string())
    );
    assert_eq!(CommitRefusal::JudgementUnresolved.status(), 404);
}

#[test]
fn a_reader_decision_names_its_judgement_in_its_event() {
    assert_eq!(reader_op(true), (OP_READER_DECLINE, "declined"));
    assert_eq!(reader_op(false), (OP_READER_HONOUR, "honoured"));
    assert_eq!(reader_event_id("admin:reader_decline:s:1700000000", "j-9"), "admin:reader_decline:s:1700000000:j-9");
}

use ciris_accord::commit::{community_gate, quarantine_step, QuarantineFold, QuarantineStep};

#[test]
fn a_quarantine_names_its_community_and_a_release_its_withhold() {
    assert_eq!(community_gate("  "), Err(CommitRefusal::CommunityAbsent));
    assert_eq!(community_gate(" c-1 "), Ok("c-1".to_string()));
    assert_eq!(CommitRefusal::CommunityAbsent.status(), 400);
    let held = QuarantineFold { withholds: true, marker_id: Some("m-1".into()) };
    let free = QuarantineFold { withholds: false, marker_id: Some("m-0".into()) };
    let nameless = QuarantineFold { withholds: true, marker_id: None };
    assert_eq!(quarantine_step(false, &free), QuarantineStep::Withhold);
    assert_eq!(quarantine_step(true, &held), QuarantineStep::Release { marker_id: "m-1".into() });
    assert_eq!(quarantine_step(true, &free), QuarantineStep::NotWithheld);
    assert_eq!(quarantine_step(true, &nameless), QuarantineStep::NotWithheld);
}
