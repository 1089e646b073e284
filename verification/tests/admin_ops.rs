use std::collections::BTreeSet;

use ciris_accord::admin::{
    classify_judgement, fold_self_standing, judgement_page_refusal, self_axis_unreadable,
    AdmissionStanding, LedgerEvent, ReaderDecision, ReaderStanding, SelfAct, SelfStanding,
    MAX_JUDGEMENT_PAGE, OP_SELF_COMPELLED, OP_SELF_COMPULSION_LIFTED, OP_SELF_SHED,
    OP_SELF_SHED_RELEASE, OP_SELF_STOP_ACCEPTING,
};
use ciris_accord::prims::Instant;
use ciris_accord::selection::Selection;

const NODE: &str = "node-under-test";

fn at(secs: i64) -> Instant {
    Instant { secs: 1_800_000_000 + secs, nanos: 0 }
}

fn act_event(op: &str, target: &str, when: Instant, suffix: &str) -> LedgerEvent {
    LedgerEvent {
        op: op.to_string(),
        target_key_id: Some(target.to_string()),
        emitted_at: when,
        event_id: format!("admin:{op}:{target}:{}:{suffix}", when.secs),
        delegation_id: Some("deleg-1".to_string()),
        reason: Some("because".to_string()),
        judgement_id: None,
    }
}

#[test]
fn singular_and_plural_key_predicates_coexist() {
    let sel = Selection {
        attested_key_id: Some("solo".into()),
        attested_key_ids: vec!["a".into(), "b".into()],
        ..Default::default()
    };
    let f = sel.to_filter();
    assert_eq!(f.attested_key_id.as_deref(), Some("solo"));
    assert_eq!(f.attested_key_ids, vec!["a".to_string(), "b".to_string()]);
    assert!(!sel.is_unpredicated());
}

#[test]
fn a_key_set_reaches_the_filter_as_a_set() {
    let sel = Selection {
        attested_key_ids: vec![
            "  leaked-a  ".into(),
            "leaked-b".into(),
            "leaked-a".into(),
            "   ".into(),
        ],
        ..Default::default()
    };
    let f = sel.to_filter();
    assert_eq!(
        f.attested_key_ids,
        vec!["leaked-a".to_string(), "leaked-b".to_string()],
        "trimmed, de-duplicated, blanks dropped"
    );
    assert!(f.attested_key_id.is_none(), "the singular stays empty");
}

#[test]
fn a_key_set_alone_is_a_predicate() {
    let sel = Selection {
        attested_key_ids: vec!["k1".into()],
        ..Default::default()
    };
    assert!(!sel.is_unpredicated());

    let blanks = Selection {
        attested_key_ids: vec!["   ".into()],
        ..Default::default()
    };
    assert!(blanks.is_unpredicated(), "a set of blanks predicates nothing");
    assert!(Selection::default().is_unpredicated());
}

#[test]
fn an_axis_with_no_acts_is_never_declared_and_carries_no_instant() {
    let f = fold_self_standing(SelfAct::ShedLoad, NODE, &[], at(0));
    assert_eq!(f.standing, SelfStanding::NeverDeclared);
    assert!(f.since.is_none() && f.event_id.is_none());
    assert_eq!((f.declarations, f.lifts), (0, 0));
}

#[test]
fn a_declaration_then_a_lift_is_lifted_and_not_never_declared() {
    let events = vec![
        act_event(OP_SELF_SHED, NODE, at(0), "a"),
        act_event(OP_SELF_SHED_RELEASE, NODE, at(10), "b"),
    ];
    let f = fold_self_standing(SelfAct::ShedLoad, NODE, &events, at(100));
    assert_eq!(f.standing, SelfStanding::Lifted);
    assert_eq!((f.declarations, f.lifts), (1, 1));
    assert_eq!(f.since, Some(at(10)));
    assert_ne!(SelfStanding::Lifted.token(), SelfStanding::NeverDeclared.token());
}

#[test]
fn the_three_admission_standings_never_render_alike() {
    let all = [
        AdmissionStanding::Refused,
        AdmissionStanding::Admitted,
        AdmissionStanding::Unreadable,
    ];
    for (i, a) in all.iter().enumerate() {
        for b in &all[i + 1..] {
            assert_ne!(a.token(), b.token(), "two standings share one program token, so a caller cannot branch on them");
            assert_ne!(a.note().id, b.note().id, "two standings share one message id");
            assert_ne!(
                a.note().text,
                b.note().text,
                "two standings render the same sentence, so an operator cannot tell them apart"
            );
        }
    }
    let text = AdmissionStanding::Unreadable.note().text;
    assert!(
        text.contains("NOT 'admitted'"),
        "the unreadable standing must say IN THE STRING AN OPERATOR READS that it is not \
         the clean one — a distinct token nobody renders is not a distinct fact: {text}"
    );
}

#[test]
fn at_an_identical_instant_the_declaration_wins() {
    let events = vec![
        act_event(OP_SELF_COMPELLED, NODE, at(5), "zzz"),
        act_event(OP_SELF_COMPULSION_LIFTED, NODE, at(5), "aaa"),
    ];
    let f = fold_self_standing(SelfAct::LegalCompulsion, NODE, &events, at(100));
    assert_eq!(
        f.standing,
        SelfStanding::InForce,
        "the restriction survives a tie, whichever event_id sorts first"
    );
}

#[test]
fn the_axes_never_read_each_others_acts() {
    let events = vec![act_event(OP_SELF_STOP_ACCEPTING, NODE, at(0), "a")];
    assert_eq!(
        fold_self_standing(SelfAct::StopAccepting, NODE, &events, at(1)).standing,
        SelfStanding::InForce
    );
    assert_eq!(
        fold_self_standing(SelfAct::LegalCompulsion, NODE, &events, at(1)).standing,
        SelfStanding::NeverDeclared,
        "a node that chose to stop has not declared a compulsion"
    );
    assert_eq!(
        fold_self_standing(SelfAct::ShedLoad, NODE, &events, at(1)).standing,
        SelfStanding::NeverDeclared
    );
}

#[test]
fn another_nodes_acts_are_not_this_nodes_standing() {
    let events = vec![act_event(OP_SELF_SHED, "some-other-node", at(0), "a")];
    assert_eq!(
        fold_self_standing(SelfAct::ShedLoad, NODE, &events, at(1)).standing,
        SelfStanding::NeverDeclared
    );
}

#[test]
fn a_future_dated_act_does_not_govern_yet() {
    let events = vec![act_event(OP_SELF_SHED, NODE, at(500), "a")];
    assert_eq!(
        fold_self_standing(SelfAct::ShedLoad, NODE, &events, at(0)).standing,
        SelfStanding::NeverDeclared
    );
}

#[test]
fn unreadable_is_not_a_zero_on_either_half() {
    for act in SelfAct::all() {
        let u = self_axis_unreadable(act);
        assert_eq!(u.standing, SelfStanding::Unreadable);
        assert_eq!(u.axis, act.axis());
    }
    let ids: BTreeSet<&str> = [
        SelfStanding::InForce,
        SelfStanding::Lifted,
        SelfStanding::NeverDeclared,
        SelfStanding::Unreadable,
    ]
    .iter()
    .map(|s| s.note().id)
    .collect();
    assert_eq!(ids.len(), 4, "four standings must render four different sentences: {ids:?}");
}

#[test]
fn every_self_act_has_its_own_axis_ops_and_notes() {
    let acts = SelfAct::all();
    let axes: BTreeSet<&str> = acts.iter().map(|a| a.axis()).collect();
    let ops: BTreeSet<&str> = acts
        .iter()
        .flat_map(|a| [a.assert_op(), a.lift_op()])
        .collect();
    let notes: BTreeSet<&str> = acts.iter().map(|a| a.enforcement().id).collect();
    assert_eq!(axes.len(), 3);
    assert_eq!(ops.len(), 6, "six ops, none shared: {ops:?}");
    assert_eq!(notes.len(), 3, "three enforcement notes: {notes:?}");
}

#[test]
fn an_explicit_reader_decision_beats_the_subscription_in_both_directions() {
    assert_eq!(
        classify_judgement(Some(true), true),
        ReaderDecision::Declined,
        "a decline overrides a subscribed signer — that is the whole rung"
    );
    assert_eq!(
        classify_judgement(Some(false), false),
        ReaderDecision::HonouredExplicit,
        "adopting an unsubscribed signer's judgement is a decision too"
    );
    assert_eq!(classify_judgement(None, true), ReaderDecision::HonouredBySubscription);
    assert_eq!(classify_judgement(None, false), ReaderDecision::UndecidedUnsubscribed);
    assert!(ReaderDecision::HonouredBySubscription.honoured());
    assert!(!ReaderDecision::UndecidedUnsubscribed.honoured());
}

#[test]
fn the_four_reader_decisions_render_four_different_sentences() {
    let ids: BTreeSet<&str> = [
        ReaderDecision::HonouredExplicit,
        ReaderDecision::HonouredBySubscription,
        ReaderDecision::UndecidedUnsubscribed,
        ReaderDecision::Declined,
    ]
    .iter()
    .map(|d| d.note().id)
    .collect();
    assert_eq!(ids.len(), 4, "{ids:?}");
    let standings: BTreeSet<&str> = [
        ReaderStanding::Decided,
        ReaderStanding::NoJudgementsHeld,
        ReaderStanding::Unreadable,
    ]
    .iter()
    .map(|s| s.note().id)
    .collect();
    assert_eq!(standings.len(), 3, "'nothing held' and 'could not read' are different sentences: {standings:?}");
}

#[test]
fn an_oversized_judgement_set_refuses_rather_than_truncating() {
    assert_eq!(judgement_page_refusal(0), None);
    assert_eq!(judgement_page_refusal(MAX_JUDGEMENT_PAGE), None);
    assert_eq!(
        judgement_page_refusal(MAX_JUDGEMENT_PAGE + 1),
        Some(MAX_JUDGEMENT_PAGE),
        "one over the ceiling REFUSES; a truncated fold reports a release nobody signed"
    );
}
