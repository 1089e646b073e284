use base64::Engine as _;
use ciris_accord::provision::{
    cert_cns, complete_attestation_chain, default_admit_identity_type, ensure_canonical_role,
    validate_family_cosign, validate_holder_request, yubico_intermediates, HolderRequestRefusal,
    PendingEntry, PendingStore, MAX_PENDING_COSCRUBS, YUBICO_ROOT_CN,
};

#[test]
fn ensure_canonical_role_adds_sorts_and_dedups() {
    assert_eq!(ensure_canonical_role("node"), "canonical,node");
    assert_eq!(ensure_canonical_role("canonical"), "canonical");
    assert_eq!(ensure_canonical_role("node,canonical"), "canonical,node");
    assert_eq!(ensure_canonical_role(""), "canonical");
    assert_eq!(ensure_canonical_role("  node ,  agent "), "agent,canonical,node");
}

#[test]
fn an_admitted_node_defaults_to_the_node_type() {
    assert_eq!(default_admit_identity_type(), "node");
}

/// A minimal DER fragment carrying one RDN's commonName: the OID, a
/// UTF8String tag, the length and the text.
fn cn(text: &str) -> Vec<u8> {
    let mut v = vec![0x06, 0x03, 0x55, 0x04, 0x03, 0x0c, text.len() as u8];
    v.extend_from_slice(text.as_bytes());
    v
}

/// A stand-in certificate: issuer CN first, then subject CN, framed by
/// unrelated bytes.
fn cert(issuer: &str, subject: &str) -> Vec<u8> {
    let mut v = vec![0x30, 0x82, 0x01, 0x00];
    v.extend(cn(issuer));
    v.extend([0x31, 0x0b, 0x30, 0x09]);
    v.extend(cn(subject));
    v.extend([0xa0, 0x03, 0x02, 0x01]);
    v
}

#[test]
fn cert_cns_reads_the_issuer_then_the_subject() {
    let c = cert("Yubico Attestation Root 1", "Yubico Attestation Intermediate A 1");
    assert_eq!(
        cert_cns(&c),
        Some((
            "Yubico Attestation Root 1".to_string(),
            "Yubico Attestation Intermediate A 1".to_string()
        ))
    );
    assert_eq!(cert_cns(&cn("Only")), Some(("Only".to_string(), "Only".to_string())));
    assert_eq!(cert_cns(&[0x30, 0x00, 0x06, 0x03, 0x55]), None);
    // A PrintableString and an IA5String count too; a long-form length does not.
    let mut printable = vec![0x06, 0x03, 0x55, 0x04, 0x03, 0x13, 0x01, b'P'];
    printable.extend([0x06, 0x03, 0x55, 0x04, 0x03, 0x16, 0x01, b'I']);
    assert_eq!(cert_cns(&printable), Some(("P".to_string(), "I".to_string())));
    let long = vec![0x06, 0x03, 0x55, 0x04, 0x03, 0x0c, 0x81, 0x01, b'x'];
    assert_eq!(cert_cns(&long), None);
}

#[test]
fn a_truncated_common_name_ends_the_scan() {
    let mut v = cn("ok");
    v.extend([0x06, 0x03, 0x55, 0x04, 0x03, 0x0c, 0x40, b'a', b'b']);
    assert_eq!(cert_cns(&v), Some(("ok".to_string(), "ok".to_string())));
}

#[test]
fn the_chain_walks_issuers_to_the_pinned_root() {
    let leaf = cert("Yubico Attestation Intermediate B 1", "YubiKey PIV Attestation 9c");
    let b = cert("Yubico Attestation Intermediate A 1", "Yubico Attestation Intermediate B 1");
    let a = cert(YUBICO_ROOT_CN, "Yubico Attestation Intermediate A 1");
    let bundle = vec![
        ("Yubico Attestation Intermediate A 1".to_string(), a.clone()),
        ("Yubico Attestation Intermediate B 1".to_string(), b.clone()),
    ];
    let chain = complete_attestation_chain(leaf.clone(), &bundle);
    assert_eq!(chain, vec![leaf.clone(), b.clone(), a.clone()], "leaf first, root excluded");

    // A missing link stops the path short, returning what it has.
    let partial = complete_attestation_chain(leaf.clone(), &bundle[1..]);
    assert_eq!(partial, vec![leaf.clone(), b]);
    // A certificate with no common name is the whole chain.
    assert_eq!(complete_attestation_chain(vec![1, 2, 3], &bundle), vec![vec![1, 2, 3]]);
}

#[test]
fn a_cyclic_bundle_stops_after_eight_links() {
    let loop_cert = cert("Loop", "Loop");
    let bundle = vec![("Loop".to_string(), loop_cert.clone())];
    let chain = complete_attestation_chain(loop_cert.clone(), &bundle);
    assert_eq!(chain.len(), 9, "the leaf and at most eight links");
}

fn pem(der: &[u8]) -> String {
    let b64 = base64::engine::general_purpose::STANDARD.encode(der);
    let mut body = String::new();
    for (i, c) in b64.chars().enumerate() {
        if i > 0 && i % 16 == 0 {
            body.push('\n');
        }
        body.push(c);
    }
    format!("-----BEGIN CERTIFICATE-----\n{body}\n-----END CERTIFICATE-----\n")
}

#[test]
fn the_bundle_parses_into_subject_and_der_pairs() {
    let a = cert(YUBICO_ROOT_CN, "Yubico Attestation Intermediate A 1");
    let b = cert("Yubico Attestation Intermediate A 1", "Yubico Attestation Intermediate B 1");
    let text = format!(
        "preamble\n{}junk between\n{}-----BEGIN CERTIFICATE-----\n!!notbase64!!\n-----END CERTIFICATE-----\n",
        pem(&a),
        pem(&b)
    );
    let out = yubico_intermediates(&text);
    assert_eq!(
        out,
        vec![
            ("Yubico Attestation Intermediate A 1".to_string(), a),
            ("Yubico Attestation Intermediate B 1".to_string(), b),
        ]
    );
    assert!(yubico_intermediates("no certificates here").is_empty());
}

#[test]
fn empty_key_id_is_rejected() {
    assert_eq!(validate_holder_request("   ", "/media/usb"), Err(HolderRequestRefusal::KeyIdEmpty));
    assert_eq!(HolderRequestRefusal::KeyIdEmpty.message(), "key_id must not be empty");
}

#[test]
fn empty_usb_path_is_rejected() {
    assert_eq!(validate_holder_request("holder-1", "  "), Err(HolderRequestRefusal::UsbPathEmpty));
    assert!(HolderRequestRefusal::UsbPathEmpty.message().starts_with("mldsa_usb_path must not be empty"));
    assert_eq!(validate_holder_request("holder-1", "/media/usb"), Ok(()));
}

#[test]
fn cosign_non_object_envelope_is_rejected() {
    assert_eq!(validate_family_cosign("", "/usb", true), Err(HolderRequestRefusal::KeyIdEmpty));
    assert_eq!(
        validate_family_cosign("holder-1", "/usb", false),
        Err(HolderRequestRefusal::EnvelopeNotObject)
    );
    assert_eq!(validate_family_cosign("holder-1", "/usb", true), Ok(()));
}

fn entry(target: &str, count: usize, tag: u32) -> PendingEntry<u32> {
    PendingEntry { target_key_id: target.to_string(), distinct_scrub_count: count, detail: tag }
}

#[test]
fn pending_is_empty_on_a_fresh_node() {
    let st: PendingStore<u32> = PendingStore::new();
    assert!(st.pending.is_empty());
}

#[test]
fn gossip_partial_stores_lists_and_dedups() {
    let mut st = PendingStore::new();
    assert!(st.upsert_pending(entry("key-1", 1, 10)));
    assert!(!st.upsert_pending(entry("key-1", 1, 11)), "the same (target, count) is stopped");
    assert_eq!(st.pending.len(), 1);
    assert_eq!(st.pending[0].detail, 10);
    assert!(st.upsert_pending(entry("key-1", 2, 20)), "a higher count supersedes");
    assert_eq!(st.pending.len(), 1);
    assert_eq!(st.pending[0].distinct_scrub_count, 2);
    assert!(st.upsert_pending(entry("key-2", 1, 30)));
    assert_eq!(st.pending.len(), 2);
    st.clear_pending("key-1");
    assert_eq!(st.pending.len(), 1);
    assert_eq!(st.pending[0].target_key_id, "key-2");
}

#[test]
fn a_lower_count_does_not_displace_a_higher_one() {
    let mut st = PendingStore::new();
    assert!(st.upsert_pending(entry("key-1", 3, 1)));
    assert!(st.upsert_pending(entry("key-1", 2, 2)), "a new (target, count) pair is fresh");
    let counts: Vec<usize> = st.pending.iter().map(|p| p.distinct_scrub_count).collect();
    assert_eq!(counts, vec![3], "the store is keyed by target and the higher count stands");
    assert_eq!(st.pending[0].detail, 1);
    assert!(st.upsert_pending(entry("key-1", 4, 3)));
    let counts: Vec<usize> = st.pending.iter().map(|p| p.distinct_scrub_count).collect();
    assert_eq!(counts, vec![4], "a higher count supersedes");
    assert!(!st.upsert_pending(entry("key-1", 2, 4)), "the loop-stop remembers every pair");
}

#[test]
fn the_pending_store_keeps_the_newest_within_its_cap() {
    let mut st = PendingStore::new();
    for i in 0..(MAX_PENDING_COSCRUBS + 5) {
        assert!(st.upsert_pending(entry(&format!("key-{i}"), 1, i as u32)));
    }
    assert_eq!(st.pending.len(), MAX_PENDING_COSCRUBS);
    assert_eq!(st.pending[0].detail, 5);
    assert_eq!(st.pending[MAX_PENDING_COSCRUBS - 1].detail, (MAX_PENDING_COSCRUBS + 4) as u32);
}

use ciris_accord::provision::{canonical_destructive_status, coscrub_scrubbers, sorted_distinct};

#[test]
fn scrubbers_are_sorted_and_named_once() {
    let out = coscrub_scrubbers(
        Some("holder-b".to_string()),
        &vec![Some("holder-a".to_string()), None, Some("holder-b".to_string()), Some("holder-c".to_string())],
    );
    assert_eq!(out, vec!["holder-a", "holder-b", "holder-c"]);
    assert!(coscrub_scrubbers(None, &vec![None]).is_empty());
    let s: Vec<String> = ["b", " b", "a", "b"].iter().map(|x| x.to_string()).collect();
    assert_eq!(sorted_distinct(&s), vec![" b", "a", "b"], "exact texts, no trimming");
}

#[test]
fn a_refused_destructive_op_maps_to_its_status() {
    assert_eq!(canonical_destructive_status("Proposal digest mismatch"), 403);
    assert_eq!(canonical_destructive_status("insufficient QUORUM: 1 of 2"), 403);
    assert_eq!(canonical_destructive_status("no Authority for this op"), 403);
    assert_eq!(canonical_destructive_status("target already WITHDRAWN"), 409);
    assert_eq!(canonical_destructive_status("connection reset"), 500);
}
