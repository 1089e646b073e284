use ciris_accord::duty::{
    conferral_readback, cosign_check, distinct_scrubs, holder_identity_check, partial_intact,
    quorum_reached, validate_proposal, DutyRefusal, ScopeField, MAX_MODERATION_DELEGATION_DEPTH,
};

fn s(xs: &[&str]) -> Vec<String> {
    xs.iter().map(|x| x.to_string()).collect()
}

fn vocabulary() -> Vec<String> {
    s(&["review", "moderate", "slash", "takedown", "consent_revocation"])
}

#[test]
fn a_proposal_folds_sorts_and_dedupes_its_duties() {
    let c = validate_proposal(
        &s(&[" slash ", "moderate", "slash", "  "]),
        Some("review".to_string()),
        "  subject-1 ",
        true,
        Some(2),
        &vocabulary(),
    )
    .unwrap();
    assert_eq!(c.duties, s(&["moderate", "review", "slash"]));
    assert_eq!(c.subject, "subject-1");
    assert!(c.sub_delegation);
    assert_eq!(c.sub_delegation_depth, Some(2));
}

#[test]
fn a_proposal_is_refused_in_the_order_its_fields_are_checked() {
    let v = vocabulary();
    assert_eq!(
        validate_proposal(&s(&["  "]), None, "subject", false, None, &v).err(),
        Some(DutyRefusal::NoDuty)
    );
    assert_eq!(
        validate_proposal(&s(&["slash", "zz-unknown", "aa-unknown"]), None, "", false, None, &v).err(),
        Some(DutyRefusal::UnknownDuty { duty: "aa-unknown".to_string() }),
        "the first unknown duty in text order, before the subject is looked at"
    );
    assert_eq!(
        validate_proposal(&s(&["slash"]), None, "  ", false, None, &v).err(),
        Some(DutyRefusal::NoSubject)
    );
    assert_eq!(
        validate_proposal(&s(&["slash"]), None, "subject", true, Some(MAX_MODERATION_DELEGATION_DEPTH + 1), &v).err(),
        Some(DutyRefusal::DepthOverRail { depth: MAX_MODERATION_DELEGATION_DEPTH + 1 })
    );
    assert_eq!(
        validate_proposal(&s(&["slash"]), None, "subject", false, Some(1), &v).err(),
        Some(DutyRefusal::DepthWithoutDelegation)
    );
    assert!(validate_proposal(&s(&["slash"]), None, "subject", false, None, &v).is_ok());
    assert_eq!(DutyRefusal::NoDuty.reason_id(), "accord.duty.no_duty");
    assert_eq!(DutyRefusal::NoDuty.status(), 400);
}

#[test]
fn the_holder_that_signs_is_the_holder_stamped() {
    assert_eq!(holder_identity_check(" holder-a ", "holder-a"), Ok(()));
    let e = holder_identity_check("holder-a", "holder-b").unwrap_err();
    assert_eq!(
        e,
        DutyRefusal::HolderIdentityMismatch { stamped: "holder-a".to_string(), opened: "holder-b".to_string() }
    );
    assert_eq!(e.status(), 409);
}

#[test]
fn a_tampered_partial_is_refused() {
    let hash = "ba7816bf8f01cfea414140de5dae2223b00361a396177a9cb410ff61f20015ad";
    assert_eq!(partial_intact(b"abc", hash), Ok(()));
    assert_eq!(partial_intact(b"abd", hash), Err(DutyRefusal::PartialTampered));
}

#[test]
fn one_seat_signing_twice_is_one_seat() {
    assert_eq!(
        cosign_check("A1", "A1", &[]),
        Err(DutyRefusal::AlreadySigned { holder: "A1".to_string() })
    );
    assert_eq!(
        cosign_check("B1", "A1", &s(&["C1", "B1"])),
        Err(DutyRefusal::AlreadySigned { holder: "B1".to_string() })
    );
    assert_eq!(cosign_check("B1", "A1", &s(&["C1"])), Ok(()));
    assert_eq!(distinct_scrubs("A1", &s(&["B1", "A1", "B1"])), 2);
    assert_eq!(distinct_scrubs("A1", &[]), 1);
}

#[test]
fn adoption_waits_for_the_family_quorum() {
    assert_eq!(quorum_reached(1, 2), (false, 2));
    assert_eq!(quorum_reached(2, 2), (true, 2));
    assert_eq!(quorum_reached(1, 0), (true, 1), "a quorum below one counts as one");
}

#[test]
fn the_readback_names_every_duty_and_the_delegation_state() {
    let many = ScopeField::Many(vec![Some("moderate".to_string()), None, Some("slash".to_string())]);
    assert_eq!(
        conferral_readback(&many, "subj", false, None),
        "moderate + slash conferred on subj; sub-delegation: leaf — may act, may not pass it on"
    );
    assert_eq!(
        conferral_readback(&ScopeField::One("slash".to_string()), "subj", true, Some(3)),
        "slash conferred on subj; sub-delegation: 3 further hop(s)"
    );
    assert_eq!(
        conferral_readback(&ScopeField::Other, "subj", true, None),
        "? conferred on subj; sub-delegation: bounded only by the rail (5)"
    );
}

#[test]
fn a_proposal_is_answered_by_its_duties_not_their_spelling() {
    let v = vocabulary();
    let a = validate_proposal(&s(&["slash", " moderate"]), None, "subject", false, None, &v).unwrap();
    let b = validate_proposal(&s(&["moderate ", "", "slash", "slash"]), Some(" moderate".into()), " subject", false, None, &v)
        .unwrap();
    assert_eq!(a.duties, b.duties);
    assert_eq!(a.subject, b.subject);
    assert_eq!(
        validate_proposal(&s(&["zz", "slash", "aa"]), None, "", false, None, &v).err(),
        validate_proposal(&s(&[" aa ", "zz", "slash"]), None, "", false, None, &v).err(),
    );
}
