use ciris_accord::adapter::NoopAdapter;
use ciris_accord::attest::Error;
use ciris_accord::crossing::{is_placed, is_placement_widening_envelope, placed_id, CrossingOutcome};
use ciris_accord::selection::{selection_hash, Selection};

#[test]
fn the_noop_adapter_is_enabled_and_never_running() {
    let a = NoopAdapter;
    let c = a.adapter_config();
    assert_eq!(c.adapter_type, "noop");
    assert!(c.enabled);
    let s = a.status();
    assert_eq!(s.adapter_id, "noop");
    assert!(!s.running);
}

#[test]
fn each_mint_failure_reads_as_its_own_line() {
    assert_eq!(Error::Envelope("x".into()).message(), "attestation envelope: x");
    assert_eq!(Error::Substrate("x".into()).message(), "attestation assembly refused: x");
    assert_eq!(Error::Signature("x".into()).message(), "attestation signature: x");
    assert_eq!(Error::Sign("x".into()).message(), "attestation signing: x");
    assert_eq!(Error::Persist("x".into()).message(), "attestation store: x");
}

#[test]
fn waiting_on_the_actor_is_not_placed() {
    let crossed = CrossingOutcome::Crossed { attestation_id: "row-1".into() };
    let already = CrossingOutcome::AlreadyInMesh { attestation_id: "row-2".into() };
    let widened = CrossingOutcome::AlreadyWidened { prior: "row-3".into() };
    let waiting = CrossingOutcome::AwaitingActor;
    assert!(is_placed(&crossed) && is_placed(&already) && is_placed(&widened));
    assert!(!is_placed(&waiting));
    assert_eq!(placed_id(&crossed).as_deref(), Some("row-1"));
    assert_eq!(placed_id(&already).as_deref(), Some("row-2"));
    assert_eq!(placed_id(&widened), None, "the prior row is not the placed one");
    assert_eq!(placed_id(&waiting), None);
}

#[test]
fn only_a_non_empty_widened_at_marks_a_placement_widening() {
    assert!(is_placement_widening_envelope(Some("2026-01-01T00:00:00Z")));
    assert!(!is_placement_widening_envelope(Some("")));
    assert!(!is_placement_widening_envelope(None));
}

#[test]
fn the_selection_hash_ignores_row_order_but_not_rows() {
    let sel = Selection { attested_key_id: Some("k".into()), ..Default::default() };
    let ids = |xs: &[&str]| xs.iter().map(|s| s.to_string()).collect::<Vec<String>>();
    let h1 = selection_hash(&sel, &ids(&["r2", "r1", "r3"]));
    let h2 = selection_hash(&sel, &ids(&["r3", "r2", "r1"]));
    assert_eq!(h1, h2);
    assert_eq!(h1.len(), 64);
    let h3 = selection_hash(&sel, &ids(&["r1", "r2", "r3", "r4"]));
    assert_ne!(h1, h3, "a row arriving between preview and commit changes the hash");
    let other = Selection { attested_key_id: Some("k2".into()), ..Default::default() };
    assert_ne!(h1, selection_hash(&other, &ids(&["r1", "r2", "r3"])), "the filter is covered too");
    let padded = Selection { attested_key_id: Some("  k ".into()), ..Default::default() };
    assert_eq!(h1, selection_hash(&padded, &ids(&["r1", "r2", "r3"])), "normalized first");
}
