//! Accord provisioning rules: the canonical role in an identity-type set, the
//! YubiKey attestation chain's common names and path, and the bounded
//! "pending co-signs" store.

use vstd::prelude::*;
use vstd::utf8::*;
use crate::prims::{
    base64_standard_decode, base64_standard_decoded, chars_of, is_white_space, is_whitespace_char,
    owned, push_char, text_eq, text_less, trim, trim_spec, utf8_text, lowercase_text, to_lowercase,
};
use crate::selection::{
    lemma_text_sort, normalize_set, set_normal_form, sorted_ids, sorted_texts, strictly_sorted,
    text_le, trimmed_member, views,
};

verus! {

/// The `identity_type` a node gets when a request names none.
pub const IDENTITY_TYPE_NODE: &'static str = "node";

/// The accord-conferred founding-server role.
pub const IDENTITY_TYPE_CANONICAL: &'static str = "canonical";

/// Cap on the pending co-sign display store.
pub const MAX_PENDING_COSCRUBS: usize = 256;

/// The pinned Yubico attestation root's common name; the chain stops one short
/// of it.
pub const YUBICO_ROOT_CN: &'static str = "Yubico Attestation Root 1";

/// The identity type an admitted node defaults to.
pub fn default_admit_identity_type() -> (s: String)
    ensures
        s@ == IDENTITY_TYPE_NODE@,
{
    owned(IDENTITY_TYPE_NODE)
}

/// The identity type a CI key defaults to.
pub fn ci_key_default_identity_type() -> (s: String)
    ensures
        s@ == IDENTITY_TYPE_NODE@,
{
    owned(IDENTITY_TYPE_NODE)
}

// ─── The identity-type set ──────────────────────────────────────────────────

/// `s` split on `c`, as `str::split` yields it (an empty text is one empty
/// piece).
pub open spec fn split_on(s: Seq<char>, c: char) -> Seq<Seq<char>>
    decreases s.len(),
{
    if s.len() == 0 {
        seq![Seq::empty()]
    } else {
        let r = split_on(s.drop_last(), c);
        if s.last() == c {
            r.push(Seq::empty())
        } else {
            r.update(r.len() - 1, r.last().push(s.last()))
        }
    }
}

/// `split_on` always yields at least one piece.
proof fn lemma_split_nonempty(s: Seq<char>, c: char)
    ensures
        split_on(s, c).len() >= 1,
    decreases s.len(),
{
    if s.len() > 0 {
        lemma_split_nonempty(s.drop_last(), c);
    }
}

/// Split a text on commas.
pub fn split_commas(s: &str) -> (pieces: Vec<String>)
    ensures
        views(pieces@) == split_on(s@, ','),
{
    let n = s.unicode_len();
    let mut pieces: Vec<String> = Vec::new();
    let mut cur = String::new();
    let mut i: usize = 0;
    while i < n
        invariant
            n == s@.len(),
            0 <= i <= n,
            views(pieces@).push(cur@) == split_on(s@.take(i as int), ','),
        decreases n - i,
    {
        let c = s.get_char(i);
        proof {
            assert(s@.take(i + 1).drop_last() =~= s@.take(i as int));
            assert(s@.take(i + 1).last() == c);
            lemma_split_nonempty(s@.take(i as int), ',');
        }
        if c == ',' {
            let done = cur;
            pieces.push(done);
            cur = String::new();
            proof {
                assert(views(pieces@).push(cur@) =~= split_on(s@.take(i + 1), ','));
            }
        } else {
            let ghost before = cur@;
            push_char(&mut cur, c);
            proof {
                assert(views(pieces@).push(cur@) =~= split_on(s@.take(i + 1), ','));
            }
        }
        i = i + 1;
    }
    pieces.push(cur);
    proof {
        assert(s@.take(n as int) =~= s@);
        assert(views(pieces@) =~= split_on(s@, ','));
    }
    pieces
}

/// Texts joined with commas.
pub open spec fn comma_joined(xs: Seq<Seq<char>>) -> Seq<char>
    decreases xs.len(),
{
    if xs.len() == 0 {
        Seq::empty()
    } else if xs.len() == 1 {
        xs[0]
    } else {
        comma_joined(xs.drop_last()) + seq![','] + xs.last()
    }
}

/// Join texts with commas.
pub fn join_commas(xs: &[String]) -> (s: String)
    ensures
        s@ == comma_joined(views(xs@)),
{
    let n = xs.len();
    let mut s = String::new();
    let mut i: usize = 0;
    while i < n
        invariant
            n == xs@.len(),
            0 <= i <= n,
            s@ == comma_joined(views(xs@.take(i as int))),
        decreases n - i,
    {
        proof {
            assert(views(xs@.take(i + 1)).drop_last() =~= views(xs@.take(i as int)));
            assert(views(xs@.take(i + 1)).last() == xs@[i as int]@);
        }
        if i > 0 {
            push_char(&mut s, ',');
        }
        s.append(xs[i].as_str());
        proof {
            if i == 0 {
                assert(views(xs@.take(1)) =~= seq![xs@[0]@]);
            }
            assert(s@ =~= comma_joined(views(xs@.take(i + 1))));
        }
        i = i + 1;
    }
    assert(xs@.take(n as int) =~= xs@);
    s
}

/// `set` holds every non-blank trimmed text of `raw` once, in strict text
/// order: the normal form of an identity-type set.
pub open spec fn text_set_of(set: Seq<Seq<char>>, raw: Seq<Seq<char>>) -> bool {
    &&& forall|i: int, j: int| 0 <= i < j < set.len() ==> text_less(#[trigger] set[i], #[trigger] set[j])
    &&& forall|y: Seq<char>|
        (exists|k: int| 0 <= k < set.len() && #[trigger] set[k] == y) <==> (y.len() > 0 && exists|
            i: int,
        | 0 <= i < raw.len() && trim_spec(#[trigger] raw[i]) == y)
}

/// The identity-type set a string becomes once it carries the canonical role:
/// its comma-separated members, trimmed, blanks dropped, plus `canonical`,
/// sorted, de-duplicated and comma-joined.
pub open spec fn canonical_role_set(existing: Seq<char>, out: Seq<char>) -> bool {
    exists|set: Seq<Seq<char>>|
        text_set_of(set, split_on(existing, ',').push(IDENTITY_TYPE_CANONICAL@)) && out
            == #[trigger] comma_joined(set)
}

/// The set normal form over strings is the normal form over their texts.
proof fn lemma_views_normal_form(out: Seq<String>, xs: Seq<String>)
    requires
        set_normal_form(out, xs),
    ensures
        text_set_of(views(out), views(xs)),
{
    let vo = views(out);
    let vx = views(xs);
    assert forall|i: int, j: int| 0 <= i < j < vo.len() implies text_less(
        #[trigger] vo[i],
        #[trigger] vo[j],
    ) by {
        assert(text_less(out[i]@, out[j]@));
    }
    assert forall|y: Seq<char>|
        (exists|k: int| 0 <= k < vo.len() && #[trigger] vo[k] == y) <==> (y.len() > 0 && exists|
            i: int,
        | 0 <= i < vx.len() && trim_spec(#[trigger] vx[i]) == y) by {
        if exists|k: int| 0 <= k < vo.len() && #[trigger] vo[k] == y {
            let k = choose|k: int| 0 <= k < vo.len() && #[trigger] vo[k] == y;
            assert(out[k]@ == y);
            assert(trimmed_member(xs, y));
            let i = choose|i: int| 0 <= i < xs.len() && trim_spec(#[trigger] xs[i]@) == y;
            assert(vx[i] == xs[i]@);
        }
        if y.len() > 0 && exists|i: int| 0 <= i < vx.len() && trim_spec(#[trigger] vx[i]) == y {
            let i = choose|i: int| 0 <= i < vx.len() && trim_spec(#[trigger] vx[i]) == y;
            assert(vx[i] == xs[i]@);
            assert(trimmed_member(xs, y));
            let k = choose|k: int| 0 <= k < out.len() && #[trigger] out[k]@ == y;
            assert(vo[k] == out[k]@);
        }
    }
}

/// Force the `canonical` founding-server role into an `identity_type` set
/// string (comma-joined, sorted, de-duplicated).
pub fn ensure_canonical_role(existing: &str) -> (s: String)
    ensures
        canonical_role_set(existing@, s@),
{
    let mut members = split_commas(existing);
    members.push(owned(IDENTITY_TYPE_CANONICAL));
    let set = normalize_set(members.as_slice());
    let s = join_commas(set.as_slice());
    proof {
        assert(views(members@) =~= split_on(existing@, ',').push(IDENTITY_TYPE_CANONICAL@));
        lemma_views_normal_form(set@, members@);
    }
    s
}

// ─── The attestation chain's common names ───────────────────────────────────

/// The DER encoding of the commonName OID `2.5.4.3`: `06 03 55 04 03`.
pub open spec fn is_cn_oid_at(der: Seq<u8>, i: int) -> bool {
    der[i] == 0x06u8 && der[i + 1] == 0x03u8 && der[i + 2] == 0x55u8 && der[i + 3] == 0x04u8 && der[i
        + 4] == 0x03u8
}

/// A short-form DirectoryString (UTF8String / PrintableString / IA5String)
/// follows the OID at `i`.
pub open spec fn is_short_string_at(der: Seq<u8>, i: int) -> bool {
    (der[i + 5] == 0x0cu8 || der[i + 5] == 0x13u8 || der[i + 5] == 0x16u8) && der[i + 6] < 0x80u8
}

/// The common names a scan from `i` collects: at each commonName OID followed
/// by a short string, the string (when it fits and is UTF-8), then the scan
/// resumes after it; elsewhere the scan moves one byte on.
pub open spec fn cn_scan(der: Seq<u8>, i: int) -> Seq<Seq<char>>
    decreases der.len() - i,
    when i >= 0
{
    if i + 7 > der.len() {
        Seq::empty()
    } else if is_cn_oid_at(der, i) && is_short_string_at(der, i) {
        let start = i + 7;
        let end = start + der[i + 6] as int;
        if end > der.len() {
            Seq::empty()
        } else if valid_utf8(der.subrange(start, end)) {
            seq![decode_utf8(der.subrange(start, end))] + cn_scan(der, end)
        } else {
            cn_scan(der, end)
        }
    } else {
        cn_scan(der, i + 1)
    }
}

/// `(issuer_cn, subject_cn)` of a certificate's collected common names: the
/// first two (the issuer's RDNs precede the subject's), or the one twice.
pub open spec fn cn_pair(cns: Seq<Seq<char>>) -> Option<(Seq<char>, Seq<char>)> {
    if cns.len() == 0 {
        None
    } else if cns.len() == 1 {
        Some((cns[0], cns[0]))
    } else {
        Some((cns[0], cns[1]))
    }
}

/// Extract `(issuer_cn, subject_cn)` from a DER certificate by scanning for the
/// commonName OID followed by a short DirectoryString.
pub fn cert_cns(der: &[u8]) -> (r: Option<(String, String)>)
    ensures
        match cn_pair(cn_scan(der@, 0)) {
            None => r is None,
            Some(p) => r matches Some(q) && q.0@ == p.0 && q.1@ == p.1,
        },
{
    let n = der.len();
    let mut cns: Vec<String> = Vec::new();
    let mut i: usize = 0;
    while i <= n && n - i >= 7
        invariant
            n == der@.len(),
            i <= n,
            views(cns@) + cn_scan(der@, i as int) == cn_scan(der@, 0),
        decreases n - i,
    {
        if der[i] == 0x06 && der[i + 1] == 0x03 && der[i + 2] == 0x55 && der[i + 3] == 0x04 && der[i
            + 4] == 0x03 {
            let tag = der[i + 5];
            let len = der[i + 6];
            if (tag == 0x0c || tag == 0x13 || tag == 0x16) && len < 0x80 {
                let start = i + 7;
                if len as usize > n - start {
                    proof {
                        assert(cn_scan(der@, i as int) =~= Seq::<Seq<char>>::empty());
                        assert(cn_scan(der@, n as int) =~= Seq::<Seq<char>>::empty());
                    }
                    i = n;
                    continue;
                }
                let end = start + len as usize;
                let ghost before = views(cns@);
                let piece = utf8_text(slice_range(der, start, end).as_slice());
                match piece {
                    Some(s) => {
                        cns.push(s);
                        proof {
                            assert(views(cns@) =~= before.push(
                                decode_utf8(der@.subrange(start as int, end as int)),
                            ));
                            assert(views(cns@) + cn_scan(der@, end as int) =~= before + cn_scan(
                                der@,
                                i as int,
                            ));
                        }
                    },
                    None => {},
                }
                i = end;
                continue;
            }
        }
        i = i + 1;
    }
    proof {
        assert(cn_scan(der@, i as int) =~= Seq::<Seq<char>>::empty());
        assert(views(cns@) =~= cn_scan(der@, 0));
    }
    let m = cns.len();
    if m == 0 {
        None
    } else if m == 1 {
        Some((cns[0].clone(), cns[0].clone()))
    } else {
        Some((cns[0].clone(), cns[1].clone()))
    }
}

/// The bytes `der[start..end]`, copied.
pub fn slice_range(der: &[u8], start: usize, end: usize) -> (out: Vec<u8>)
    requires
        start <= end <= der@.len(),
    ensures
        out@ == der@.subrange(start as int, end as int),
{
    let mut out: Vec<u8> = Vec::new();
    let mut k = start;
    while k < end
        invariant
            start <= k <= end <= der@.len(),
            out@ == der@.subrange(start as int, k as int),
        decreases end - k,
    {
        out.push(der[k]);
        proof {
            assert(der@.subrange(start as int, k + 1) =~= der@.subrange(start as int, k as int).push(der@[k as int]));
        }
        k = k + 1;
    }
    out
}


// ─── The intermediate bundle and the attestation path ───────────────────────

/// The PEM armour that opens a certificate.
pub const PEM_BEGIN: &'static str = "-----BEGIN CERTIFICATE-----";

/// The PEM armour that closes a certificate.
pub const PEM_END: &'static str = "-----END CERTIFICATE-----";

/// The first position at or after `from` where `pat` occurs in `s`.
pub open spec fn first_match(s: Seq<char>, pat: Seq<char>, from: int) -> Option<int>
    decreases s.len() + 1 - from,
{
    if from + pat.len() > s.len() {
        None
    } else if s.subrange(from, from + pat.len()) == pat {
        Some(from)
    } else {
        first_match(s, pat, from + 1)
    }
}

/// A match found from `from` lies at or after it, inside `s`, and is a match.
pub proof fn lemma_first_match(s: Seq<char>, pat: Seq<char>, from: int)
    ensures
        first_match(s, pat, from) matches Some(q) ==> from <= q && q + pat.len() <= s.len()
            && s.subrange(q, q + pat.len()) == pat,
    decreases s.len() + 1 - from,
{
    if from + pat.len() <= s.len() && s.subrange(from, from + pat.len()) != pat {
        lemma_first_match(s, pat, from + 1);
    }
}

/// The text with every white-space character removed.
pub open spec fn strip_white_space(s: Seq<char>) -> Seq<char>
    decreases s.len(),
{
    if s.len() == 0 {
        Seq::empty()
    } else if is_white_space(s.last()) {
        strip_white_space(s.drop_last())
    } else {
        strip_white_space(s.drop_last()).push(s.last())
    }
}

/// What one armoured body contributes: `(subject_cn, der)` when its base64
/// decodes and the certificate names a subject; nothing otherwise.
pub open spec fn pem_entry(body: Seq<char>) -> Seq<(Seq<char>, Seq<u8>)> {
    match base64_standard_decoded(strip_white_space(body)) {
        Some(der) => match cn_pair(cn_scan(der, 0)) {
            Some(p) => seq![(p.1, der)],
            None => Seq::empty(),
        },
        None => Seq::empty(),
    }
}

/// The bundle's entries from position `p` on: each text after a `begin`
/// marker, up to the next `begin` (or the end), cut at its first `end` marker,
/// gives `pem_entry` of that body.
pub open spec fn pem_entries(s: Seq<char>, begin: Seq<char>, end: Seq<char>, p: int) -> Seq<
    (Seq<char>, Seq<u8>),
>
    decreases s.len() + 1 - p,
    when begin.len() > 0
{
    match first_match(s, begin, p) {
        None => Seq::empty(),
        Some(q) => {
            let b = q + begin.len();
            let e = match first_match(s, begin, b) {
                Some(e) => e,
                None => s.len() as int,
            };
            let block = s.subrange(b, e);
            let body = match first_match(block, end, 0) {
                Some(k) => block.subrange(0, k),
                None => block,
            };
            proof {
                lemma_first_match(s, begin, p);
                lemma_first_match(s, begin, b);
            }
            pem_entry(body) + pem_entries(s, begin, end, e)
        },
    }
}

/// The `(subject_cn, der)` pairs of a PEM bundle.
pub open spec fn bundle_entries(pem: Seq<char>) -> Seq<(Seq<char>, Seq<u8>)> {
    pem_entries(pem, PEM_BEGIN@, PEM_END@, 0)
}

/// An entry's texts and bytes.
pub open spec fn entry_views(v: Seq<(String, Vec<u8>)>) -> Seq<(Seq<char>, Seq<u8>)> {
    v.map_values(|e: (String, Vec<u8>)| (e.0@, e.1@))
}

/// Does `pat` occur in `s` at `j`?
fn matches_at(s: &Vec<char>, pat: &Vec<char>, j: usize) -> (r: bool)
    requires
        j + pat@.len() <= s@.len(),
    ensures
        r == (s@.subrange(j as int, j + pat@.len()) == pat@),
{
    let n = s.len();
    let m = pat.len();
    let mut k: usize = 0;
    while k < m
        invariant
            n == s@.len(),
            m == pat@.len(),
            j + m <= n,
            0 <= k <= m,
            forall|t: int| 0 <= t < k ==> s@[j + t] == pat@[t],
        decreases m - k,
    {
        if s[j + k] != pat[k] {
            proof {
                assert(s@.subrange(j as int, j + m)[k as int] != pat@[k as int]);
            }
            return false;
        }
        k = k + 1;
    }
    proof {
        assert(s@.subrange(j as int, j + m) =~= pat@);
    }
    true
}

/// The first position at or after `from` where `pat` occurs in `s`.
fn find_from(s: &Vec<char>, pat: &Vec<char>, from: usize) -> (r: Option<usize>)
    ensures
        match first_match(s@, pat@, from as int) {
            Some(q) => r == Some(q as usize),
            None => r is None,
        },
{
    let n = s.len();
    let m = pat.len();
    let mut j = from;
    while j <= n && n - j >= m
        invariant
            n == s@.len(),
            m == pat@.len(),
            from <= j,
            first_match(s@, pat@, from as int) == first_match(s@, pat@, j as int),
        decreases n + 1 - j,
    {
        if matches_at(s, pat, j) {
            return Some(j);
        }
        assert(m > 0) by {
            if m == 0 {
                assert(s@.subrange(j as int, j as int) =~= pat@);
            }
        }
        j = j + 1;
    }
    None
}

/// `v[start..end]`, copied.
fn char_range(v: &Vec<char>, start: usize, end: usize) -> (out: Vec<char>)
    requires
        start <= end <= v@.len(),
    ensures
        out@ == v@.subrange(start as int, end as int),
{
    let mut out: Vec<char> = Vec::new();
    let mut k = start;
    while k < end
        invariant
            start <= k <= end <= v@.len(),
            out@ == v@.subrange(start as int, k as int),
        decreases end - k,
    {
        out.push(v[k]);
        proof {
            assert(v@.subrange(start as int, k + 1) =~= v@.subrange(start as int, k as int).push(
                v@[k as int],
            ));
        }
        k = k + 1;
    }
    out
}

/// The characters of `v` that are not white space, as a text.
fn strip_white_space_text(v: &Vec<char>) -> (s: String)
    ensures
        s@ == strip_white_space(v@),
{
    let n = v.len();
    let mut s = String::new();
    let mut k: usize = 0;
    while k < n
        invariant
            n == v@.len(),
            0 <= k <= n,
            s@ == strip_white_space(v@.take(k as int)),
        decreases n - k,
    {
        proof {
            assert(v@.take(k + 1).drop_last() =~= v@.take(k as int));
        }
        if !is_whitespace_char(v[k]) {
            push_char(&mut s, v[k]);
        }
        k = k + 1;
    }
    proof {
        assert(v@.take(n as int) =~= v@);
    }
    s
}

/// What one armoured body contributes to the bundle.
fn pem_body_entry(body: &Vec<char>) -> (r: Option<(String, Vec<u8>)>)
    ensures
        match r {
            Some(e) => pem_entry(body@) == seq![(e.0@, e.1@)],
            None => pem_entry(body@) == Seq::<(Seq<char>, Seq<u8>)>::empty(),
        },
{
    let b64s = strip_white_space_text(body);
    match base64_standard_decode(b64s.as_str()) {
        Some(der) => match cert_cns(der.as_slice()) {
            Some((_, subject)) => Some((subject, der)),
            None => None,
        },
        None => None,
    }
}

/// Parse a bundle of PEM certificates into `(subject_cn, der)` pairs, in
/// bundle order; a block whose base64 or common names do not read is skipped.
pub fn yubico_intermediates(pem: &str) -> (out: Vec<(String, Vec<u8>)>)
    ensures
        entry_views(out@) == bundle_entries(pem@),
{
    let s = chars_of(pem);
    let begin = chars_of(PEM_BEGIN);
    let end = chars_of(PEM_END);
    proof {
        reveal_strlit("-----BEGIN CERTIFICATE-----");
    }
    assert(begin@.len() > 0);
    let n = s.len();
    let mut out: Vec<(String, Vec<u8>)> = Vec::new();
    let mut p: usize = 0;
    loop
        invariant
            n == s@.len(),
            s@ == pem@,
            begin@ == PEM_BEGIN@,
            end@ == PEM_END@,
            begin@.len() > 0,
            p <= n,
            entry_views(out@) + pem_entries(s@, begin@, end@, p as int) == pem_entries(
                s@,
                begin@,
                end@,
                0,
            ),
        decreases n - p,
    {
        let ghost before = entry_views(out@);
        match find_from(&s, &begin, p) {
            None => {
                proof {
                    assert(entry_views(out@) =~= pem_entries(s@, begin@, end@, 0));
                }
                return out;
            },
            Some(q) => {
                proof {
                    lemma_first_match(s@, begin@, p as int);
                }
                let b = q + begin.len();
                proof {
                    lemma_first_match(s@, begin@, b as int);
                }
                let e = match find_from(&s, &begin, b) {
                    Some(e) => e,
                    None => n,
                };
                let block = char_range(&s, b, e);
                let body = match find_from(&block, &end, 0) {
                    Some(k) => {
                        proof {
                            lemma_first_match(block@, end@, 0);
                        }
                        char_range(&block, 0, k)
                    },
                    None => block,
                };
                match pem_body_entry(&body) {
                    Some(entry) => {
                        out.push(entry);
                    },
                    None => {},
                }
                proof {
                    assert(entry_views(out@) + pem_entries(s@, begin@, end@, e as int) =~= before
                        + pem_entries(s@, begin@, end@, p as int));
                }
                p = e;
            },
        }
    }
}

/// The index of the first bundle entry whose subject is `cn`.
pub open spec fn subject_index(bundle: Seq<(String, Vec<u8>)>, cn: Seq<char>, from: int) -> Option<int>
    decreases bundle.len() - from,
    when from >= 0
{
    if from >= bundle.len() {
        None
    } else if bundle[from].0@ == cn {
        Some(from)
    } else {
        subject_index(bundle, cn, from + 1)
    }
}

/// A subject found from `from` is an entry of the bundle at or after it.
proof fn lemma_subject_index(bundle: Seq<(String, Vec<u8>)>, cn: Seq<char>, from: int)
    requires
        from >= 0,
    ensures
        subject_index(bundle, cn, from) matches Some(k) ==> from <= k < bundle.len(),
    decreases bundle.len() - from,
{
    if from < bundle.len() && bundle[from].0@ != cn {
        lemma_subject_index(bundle, cn, from + 1);
    }
}

/// The links that follow `cur` on the path to the pinned root, at most `fuel`
/// of them: while `cur` names an issuer that is not the root, the first bundle
/// certificate whose subject is that issuer.
pub open spec fn chain_links(cur: Seq<u8>, bundle: Seq<(String, Vec<u8>)>, fuel: nat) -> Seq<Seq<u8>>
    decreases fuel,
{
    if fuel == 0 {
        Seq::empty()
    } else {
        match cn_pair(cn_scan(cur, 0)) {
            None => Seq::empty(),
            Some(p) => if p.0 == YUBICO_ROOT_CN@ {
                Seq::empty()
            } else {
                match subject_index(bundle, p.0, 0) {
                    None => Seq::empty(),
                    Some(k) => seq![bundle[k].1@] + chain_links(bundle[k].1@, bundle, (fuel - 1) as nat),
                }
            },
        }
    }
}

/// The bytes of each certificate.
pub open spec fn der_views(v: Seq<Vec<u8>>) -> Seq<Seq<u8>> {
    v.map_values(|d: Vec<u8>| d@)
}

/// The most links the path walk takes.
pub const MAX_CHAIN_LINKS: usize = 8;

/// The first bundle entry whose subject is `cn`.
fn find_subject(bundle: &[(String, Vec<u8>)], cn: &str) -> (r: Option<usize>)
    ensures
        match subject_index(bundle@, cn@, 0) {
            Some(k) => r == Some(k as usize),
            None => r is None,
        },
{
    let n = bundle.len();
    let mut k: usize = 0;
    while k < n
        invariant
            n == bundle@.len(),
            0 <= k <= n,
            subject_index(bundle@, cn@, 0) == subject_index(bundle@, cn@, k as int),
        decreases n - k,
    {
        if text_eq(bundle[k].0.as_str(), cn) {
            return Some(k);
        }
        k = k + 1;
    }
    None
}

/// Build `[f9, …intermediates…]` (leaf first, the pinned root left out) by
/// walking each certificate's issuer to the bundle certificate of that subject,
/// until the issuer is the pinned root. Where a link is missing the path stops
/// short and what it has is returned.
pub fn complete_attestation_chain(f9_der: Vec<u8>, bundle: &[(String, Vec<u8>)]) -> (chain: Vec<
    Vec<u8>,
>)
    ensures
        der_views(chain@) == seq![f9_der@] + chain_links(f9_der@, bundle@, MAX_CHAIN_LINKS as nat),
{
    let ghost start = f9_der@;
    let mut chain: Vec<Vec<u8>> = Vec::new();
    let first = f9_der.clone();
    assert(first@ == start);
    chain.push(first);
    let mut cur = f9_der.clone();
    assert(cur@ == start);
    let mut round: usize = 0;
    proof {
        assert(der_views(chain@) =~= seq![start]);
    }
    while round < MAX_CHAIN_LINKS
        invariant
            start == f9_der@,
            round <= MAX_CHAIN_LINKS,
            der_views(chain@) + chain_links(cur@, bundle@, (MAX_CHAIN_LINKS - round) as nat) == seq![
                start,
            ] + chain_links(start, bundle@, MAX_CHAIN_LINKS as nat),
        decreases MAX_CHAIN_LINKS - round,
    {
        let ghost before = der_views(chain@);
        let ghost fuel = (MAX_CHAIN_LINKS - round) as nat;
        let issuer = match cert_cns(cur.as_slice()) {
            Some((iss, _)) => iss,
            None => {
                proof {
                    assert(der_views(chain@) =~= der_views(chain@) + chain_links(cur@, bundle@, fuel));
                }
                return chain;
            },
        };
        if text_eq(issuer.as_str(), YUBICO_ROOT_CN) {
            proof {
                assert(der_views(chain@) =~= der_views(chain@) + chain_links(cur@, bundle@, fuel));
            }
            return chain;
        }
        match find_subject(bundle, issuer.as_str()) {
            Some(k) => {
                proof {
                    lemma_subject_index(bundle@, issuer@, 0);
                }
                let der = bundle[k].1.clone();
                chain.push(der.clone());
                proof {
                    assert(der_views(chain@) =~= before.push(bundle@[k as int].1@));
                    assert(der_views(chain@) + chain_links(der@, bundle@, (fuel - 1) as nat) =~= before
                        + chain_links(cur@, bundle@, fuel));
                }
                cur = der;
            },
            None => {
                proof {
                    assert(der_views(chain@) =~= der_views(chain@) + chain_links(cur@, bundle@, fuel));
                }
                return chain;
            },
        }
        round = round + 1;
    }
    proof {
        assert(der_views(chain@) =~= der_views(chain@) + chain_links(cur@, bundle@, 0));
    }
    chain
}

// ─── Refusing a blank request before touching hardware ──────────────────────

/// Why a holder request is refused before any hardware is opened.
#[derive(Debug, Clone, Copy, PartialEq, Eq, Structural)]
pub enum HolderRequestRefusal {
    /// The `key_id` is blank.
    KeyIdEmpty,
    /// The ML-DSA USB path is blank.
    UsbPathEmpty,
    /// The family envelope is not a JSON object.
    EnvelopeNotObject,
}

impl HolderRequestRefusal {
    /// The refusal's plain-language text.
    pub open spec fn text(self) -> Seq<char> {
        match self {
            HolderRequestRefusal::KeyIdEmpty => "key_id must not be empty"@,
            HolderRequestRefusal::UsbPathEmpty => "mldsa_usb_path must not be empty — insert your USB key and choose its folder"@,
            HolderRequestRefusal::EnvelopeNotObject => "envelope must be the family-envelope JSON object from /v1/accord/genesis/envelope"@,
        }
    }

    /// The refusal's plain-language text.
    pub fn message(self) -> (s: &'static str)
        ensures
            s@ == self.text(),
    {
        match self {
            HolderRequestRefusal::KeyIdEmpty => "key_id must not be empty",
            HolderRequestRefusal::UsbPathEmpty => "mldsa_usb_path must not be empty — insert your USB key and choose its folder",
            HolderRequestRefusal::EnvelopeNotObject => "envelope must be the family-envelope JSON object from /v1/accord/genesis/envelope",
        }
    }
}

/// A provision-holder request must name a key and a USB folder (each
/// non-blank after trimming), checked in that order.
pub fn validate_holder_request(key_id: &str, mldsa_usb_path: &str) -> (r: Result<(), HolderRequestRefusal>)
    ensures
        trim_spec(key_id@).len() == 0 ==> r == Err::<(), HolderRequestRefusal>(
            HolderRequestRefusal::KeyIdEmpty,
        ),
        trim_spec(key_id@).len() > 0 && trim_spec(mldsa_usb_path@).len() == 0 ==> r == Err::<
            (),
            HolderRequestRefusal,
        >(HolderRequestRefusal::UsbPathEmpty),
        trim_spec(key_id@).len() > 0 && trim_spec(mldsa_usb_path@).len() > 0 ==> r is Ok,
{
    if trim(key_id).unicode_len() == 0 {
        return Err(HolderRequestRefusal::KeyIdEmpty);
    }
    if trim(mldsa_usb_path).unicode_len() == 0 {
        return Err(HolderRequestRefusal::UsbPathEmpty);
    }
    Ok(())
}

/// A family co-sign request must also carry the family envelope as an object.
pub fn validate_family_cosign(key_id: &str, mldsa_usb_path: &str, envelope_is_object: bool) -> (r:
    Result<(), HolderRequestRefusal>)
    ensures
        trim_spec(key_id@).len() == 0 ==> r == Err::<(), HolderRequestRefusal>(
            HolderRequestRefusal::KeyIdEmpty,
        ),
        trim_spec(key_id@).len() > 0 && trim_spec(mldsa_usb_path@).len() == 0 ==> r == Err::<
            (),
            HolderRequestRefusal,
        >(HolderRequestRefusal::UsbPathEmpty),
        trim_spec(key_id@).len() > 0 && trim_spec(mldsa_usb_path@).len() > 0 && !envelope_is_object
            ==> r == Err::<(), HolderRequestRefusal>(HolderRequestRefusal::EnvelopeNotObject),
        trim_spec(key_id@).len() > 0 && trim_spec(mldsa_usb_path@).len() > 0 && envelope_is_object
            ==> r is Ok,
{
    match validate_holder_request(key_id, mldsa_usb_path) {
        Err(e) => Err(e),
        Ok(()) => if envelope_is_object {
            Ok(())
        } else {
            Err(HolderRequestRefusal::EnvelopeNotObject)
        },
    }
}

// ─── The pending co-sign display store ──────────────────────────────────────

/// One in-flight co-scrub partial: the target, how many distinct holders have
/// scrubbed it, and what the display carries about it.
#[derive(Debug)]
pub struct PendingEntry<T> {
    pub target_key_id: String,
    pub distinct_scrub_count: usize,
    pub detail: T,
}

/// The display store behind the pending co-signs list, with the re-gossip
/// loop-stop: every `(target, count)` already ingested.
#[derive(Debug)]
pub struct PendingStore<T> {
    pub pending: Vec<PendingEntry<T>>,
    pub seen: Vec<(String, usize)>,
}

/// The loop-stop holds `(target, count)`.
pub open spec fn seen_holds(seen: Seq<(String, usize)>, target: Seq<char>, count: usize) -> bool {
    exists|i: int| 0 <= i < seen.len() && #[trigger] seen[i].0@ == target && seen[i].1 == count
}

/// An entry a newer partial for `target` at `count` scrubs supersedes.
pub open spec fn superseded<T>(p: PendingEntry<T>, target: Seq<char>, count: usize) -> bool {
    p.target_key_id@ == target && p.distinct_scrub_count <= count
}

/// The entries that survive an upsert of `(target, count)`, in order.
pub open spec fn surviving<T>(s: Seq<PendingEntry<T>>, target: Seq<char>, count: usize) -> Seq<
    PendingEntry<T>,
>
    decreases s.len(),
{
    if s.len() == 0 {
        Seq::empty()
    } else {
        let rest = surviving(s.drop_first(), target, count);
        if superseded(s[0], target, count) {
            rest
        } else {
            seq![s[0]] + rest
        }
    }
}

/// The entries that are not about `target`, in order.
pub open spec fn not_about<T>(s: Seq<PendingEntry<T>>, target: Seq<char>) -> Seq<PendingEntry<T>>
    decreases s.len(),
{
    if s.len() == 0 {
        Seq::empty()
    } else {
        let rest = not_about(s.drop_first(), target);
        if s[0].target_key_id@ == target {
            rest
        } else {
            seq![s[0]] + rest
        }
    }
}

/// The newest `MAX_PENDING_COSCRUBS` entries.
pub open spec fn newest<T>(s: Seq<PendingEntry<T>>) -> Seq<PendingEntry<T>> {
    if s.len() > MAX_PENDING_COSCRUBS {
        s.subrange(s.len() - MAX_PENDING_COSCRUBS, s.len() as int)
    } else {
        s
    }
}

impl<T> PendingStore<T> {
    /// An empty store.
    pub fn new() -> (st: Self)
        ensures
            st.pending@.len() == 0,
            st.seen@.len() == 0,
            targets_unique(st.pending@),
    {
        PendingStore { pending: Vec::new(), seen: Vec::new() }
    }

    /// Upsert a partial, keyed by target: the store holds one entry per target,
    /// the one with the highest scrub count seen (a higher count supersedes a
    /// lower or equal one; a lower one arriving late leaves the higher one
    /// standing), and keeps the newest entries within the cap. Returns
    /// `false`, changing nothing, when this exact `(target, count)` was already
    /// ingested: the re-gossip loop-stop.
    pub fn upsert_pending(&mut self, entry: PendingEntry<T>) -> (fresh: bool)
        requires
            targets_unique(old(self).pending@),
        ensures
            fresh == !seen_holds(old(self).seen@, entry.target_key_id@, entry.distinct_scrub_count),
            targets_unique(final(self).pending@),
            !fresh ==> final(self).pending@ == old(self).pending@ && final(self).seen@ == old(
                self,
            ).seen@,
            fresh ==> final(self).seen@.len() == old(self).seen@.len() + 1,
            fresh ==> final(self).seen@.drop_last() == old(self).seen@,
            fresh ==> final(self).seen@.last().0@ == entry.target_key_id@,
            fresh ==> final(self).seen@.last().1 == entry.distinct_scrub_count,
            fresh && outranked(old(self).pending@, entry.target_key_id@, entry.distinct_scrub_count)
                ==> final(self).pending@ == old(self).pending@,
            fresh && !outranked(old(self).pending@, entry.target_key_id@, entry.distinct_scrub_count)
                ==> final(self).pending@ == newest(
                surviving(
                    old(self).pending@,
                    entry.target_key_id@,
                    entry.distinct_scrub_count,
                ).push(entry),
            ),
            fresh ==> exists|k: int|
                0 <= k < final(self).pending@.len() && #[trigger] final(self).pending@[k].target_key_id@
                    == entry.target_key_id@ && final(self).pending@[k].distinct_scrub_count
                    >= entry.distinct_scrub_count,
            old(self).pending@.len() <= MAX_PENDING_COSCRUBS ==> final(self).pending@.len()
                <= MAX_PENDING_COSCRUBS,
    {
        let count = entry.distinct_scrub_count;
        if seen_pair(&self.seen, entry.target_key_id.as_str(), count) {
            return false;
        }
        let ghost seen0 = self.seen@;
        self.seen.push((owned(entry.target_key_id.as_str()), count));
        proof {
            assert(self.seen@.drop_last() =~= seen0);
        }
        let ghost t = entry.target_key_id@;
        if holds_higher(&self.pending, entry.target_key_id.as_str(), count) {
            proof {
                let i = choose|i: int|
                    0 <= i < self.pending@.len() && #[trigger] self.pending@[i].target_key_id@ == t
                        && self.pending@[i].distinct_scrub_count > count;
                assert(self.pending@[i].target_key_id@ == t);
            }
            return true;
        }
        let mut rest: Vec<PendingEntry<T>> = Vec::new();
        std::mem::swap(&mut rest, &mut self.pending);
        self.pending = superseding_upsert(rest, entry);
        proof {
            let last = self.pending@.len() - 1;
            assert(self.pending@[last].target_key_id@ == t);
        }
        true
    }

    /// Drop every pending entry for a target (its co-scrub completed).
    pub fn clear_pending(&mut self, target_key_id: &str)
        ensures
            final(self).pending@ == not_about(old(self).pending@, target_key_id@),
            final(self).seen@ == old(self).seen@,
    {
        let ghost before = self.pending@;
        let mut rest: Vec<PendingEntry<T>> = Vec::new();
        std::mem::swap(&mut rest, &mut self.pending);
        let mut kept: Vec<PendingEntry<T>> = Vec::new();
        while rest.len() > 0
            invariant
                kept@ + not_about(rest@, target_key_id@) == not_about(before, target_key_id@),
            decreases rest@.len(),
        {
            let ghost r0 = rest@;
            let p = rest.remove(0);
            proof {
                assert(rest@ =~= r0.drop_first());
            }
            let ghost k0 = kept@;
            if !text_eq(p.target_key_id.as_str(), target_key_id) {
                kept.push(p);
                proof {
                    assert(kept@ + not_about(rest@, target_key_id@) =~= k0 + not_about(
                        r0,
                        target_key_id@,
                    ));
                }
            }
        }
        proof {
            assert(kept@ =~= not_about(before, target_key_id@));
        }
        self.pending = kept;
    }
}

/// A partial re-gossiped after it was ingested is stopped: once a fresh
/// upsert of `(target, count)` has recorded it, the loop-stop holds it, so the
/// same partial again is not fresh and changes nothing.
pub proof fn a_regossiped_partial_is_stopped(
    before: Seq<(String, usize)>,
    after: Seq<(String, usize)>,
    target: Seq<char>,
    count: usize,
)
    requires
        after.len() == before.len() + 1,
        after.drop_last() == before,
        after.last().0@ == target,
        after.last().1 == count,
    ensures
        seen_holds(after, target, count),
{
    assert(after[after.len() - 1].0@ == target);
}

/// No two entries of the store are about the same target.
pub open spec fn targets_unique<T>(s: Seq<PendingEntry<T>>) -> bool {
    forall|i: int, j: int|
        0 <= i < j < s.len() ==> #[trigger] s[i].target_key_id@ != #[trigger] s[j].target_key_id@
}

/// The store already holds a higher count for `target`.
pub open spec fn outranked<T>(s: Seq<PendingEntry<T>>, target: Seq<char>, count: usize) -> bool {
    exists|i: int|
        0 <= i < s.len() && #[trigger] s[i].target_key_id@ == target && s[i].distinct_scrub_count > count
}

/// What survives an upsert is drawn from the store, is not superseded, and
/// stays one entry per target.
proof fn lemma_surviving_keyed<T>(s: Seq<PendingEntry<T>>, target: Seq<char>, count: usize)
    ensures
        forall|k: int|
            0 <= k < surviving(s, target, count).len() ==> exists|i: int|
                0 <= i < s.len() && s[i] == #[trigger] surviving(s, target, count)[k],
        forall|k: int|
            0 <= k < surviving(s, target, count).len() ==> !superseded(
                #[trigger] surviving(s, target, count)[k],
                target,
                count,
            ),
        targets_unique(s) ==> targets_unique(surviving(s, target, count)),
        targets_unique(s) && !outranked(s, target, count) ==> forall|k: int|
            0 <= k < surviving(s, target, count).len() ==> (#[trigger] surviving(s, target, count)[k]).target_key_id@
                != target,
    decreases s.len(),
{
    if s.len() > 0 {
        let rest = s.drop_first();
        lemma_surviving_keyed(rest, target, count);
        let sv = surviving(s, target, count);
        let sr = surviving(rest, target, count);
        assert forall|k: int| 0 <= k < sv.len() implies exists|i: int|
            0 <= i < s.len() && s[i] == #[trigger] sv[k] by {
            if !superseded(s[0], target, count) && k == 0 {
                assert(s[0] == sv[0]);
            } else {
                let kk = if superseded(s[0], target, count) { k } else { k - 1 };
                assert(sv[k] == sr[kk]);
                let i = choose|i: int| 0 <= i < rest.len() && rest[i] == #[trigger] sr[kk];
                assert(s[i + 1] == rest[i]);
            }
        }
        assert forall|k: int| 0 <= k < sv.len() implies !superseded(#[trigger] sv[k], target, count) by {
            if !superseded(s[0], target, count) && k == 0 {
            } else {
                let kk = if superseded(s[0], target, count) { k } else { k - 1 };
                assert(sv[k] == sr[kk]);
            }
        }
        if targets_unique(s) {
            assert(targets_unique(rest)) by {
                assert forall|i: int, j: int| 0 <= i < j < rest.len() implies #[trigger] rest[i].target_key_id@
                    != #[trigger] rest[j].target_key_id@ by {
                    assert(rest[i] == s[i + 1] && rest[j] == s[j + 1]);
                }
            }
            assert forall|i: int, j: int| 0 <= i < j < sv.len() implies #[trigger] sv[i].target_key_id@
                != #[trigger] sv[j].target_key_id@ by {
                if !superseded(s[0], target, count) {
                    if i == 0 {
                        assert(sv[j] == sr[j - 1]);
                        let t = choose|t: int| 0 <= t < rest.len() && rest[t] == #[trigger] sr[j - 1];
                        assert(rest[t] == s[t + 1]);
                    } else {
                        assert(sv[i] == sr[i - 1] && sv[j] == sr[j - 1]);
                    }
                } else {
                    assert(sv[i] == sr[i] && sv[j] == sr[j]);
                }
            }
            if !outranked(s, target, count) {
                assert(!outranked(rest, target, count)) by {
                    if outranked(rest, target, count) {
                        let i = choose|i: int|
                            0 <= i < rest.len() && #[trigger] rest[i].target_key_id@ == target
                                && rest[i].distinct_scrub_count > count;
                        assert(s[i + 1] == rest[i]);
                    }
                }
                assert forall|k: int| 0 <= k < sv.len() implies (#[trigger] sv[k]).target_key_id@
                    != target by {
                    if !superseded(s[0], target, count) && k == 0 {
                        assert(sv[0] == s[0]);
                        if s[0].target_key_id@ == target {
                            assert(s[0].distinct_scrub_count > count);
                        }
                    } else {
                        let kk = if superseded(s[0], target, count) { k } else { k - 1 };
                        assert(sv[k] == sr[kk]);
                    }
                }
            }
        }
    }
}

/// Has the loop-stop seen `(target, count)`?
fn seen_pair(seen: &Vec<(String, usize)>, target: &str, count: usize) -> (r: bool)
    ensures
        r == seen_holds(seen@, target@, count),
{
    let n = seen.len();
    let mut i: usize = 0;
    while i < n
        invariant
            n == seen@.len(),
            0 <= i <= n,
            forall|j: int| 0 <= j < i ==> !(#[trigger] seen@[j].0@ == target@ && seen@[j].1 == count),
        decreases n - i,
    {
        if seen[i].1 == count && text_eq(seen[i].0.as_str(), target) {
            proof {
                assert(seen@[i as int].0@ == target@);
            }
            return true;
        }
        i = i + 1;
    }
    false
}

/// Does the store hold a higher count for `target`?
fn holds_higher<T>(pending: &Vec<PendingEntry<T>>, target: &str, count: usize) -> (r: bool)
    ensures
        r == outranked(pending@, target@, count),
{
    let n = pending.len();
    let mut i: usize = 0;
    while i < n
        invariant
            n == pending@.len(),
            0 <= i <= n,
            forall|j: int|
                0 <= j < i ==> !(#[trigger] pending@[j].target_key_id@ == target@
                    && pending@[j].distinct_scrub_count > count),
        decreases n - i,
    {
        if pending[i].distinct_scrub_count > count && text_eq(pending[i].target_key_id.as_str(), target) {
            proof {
                assert(pending@[i as int].target_key_id@ == target@);
            }
            return true;
        }
        i = i + 1;
    }
    false
}

/// Drop the entries `entry` supersedes, append it, and keep the newest
/// within the cap.
fn superseding_upsert<T>(before: Vec<PendingEntry<T>>, entry: PendingEntry<T>) -> (out: Vec<PendingEntry<T>>)
    requires
        targets_unique(before@),
        !outranked(before@, entry.target_key_id@, entry.distinct_scrub_count),
    ensures
        out@ == newest(surviving(before@, entry.target_key_id@, entry.distinct_scrub_count).push(entry)),
        targets_unique(out@),
        out@.len() > 0 && out@.last() == entry,
        before@.len() <= MAX_PENDING_COSCRUBS ==> out@.len() <= MAX_PENDING_COSCRUBS,
{
    let count = entry.distinct_scrub_count;
    let ghost orig = before@;
    let mut rest = before;
    let mut kept: Vec<PendingEntry<T>> = Vec::new();
    while rest.len() > 0
        invariant
            count == entry.distinct_scrub_count,
            kept@ + surviving(rest@, entry.target_key_id@, count) == surviving(
                orig,
                entry.target_key_id@,
                count,
            ),
        decreases rest@.len(),
    {
        let ghost r0 = rest@;
        let p = rest.remove(0);
        proof {
            assert(rest@ =~= r0.drop_first());
        }
        let drop = p.distinct_scrub_count <= count && text_eq(
            p.target_key_id.as_str(),
            entry.target_key_id.as_str(),
        );
        let ghost k0 = kept@;
        if !drop {
            kept.push(p);
            proof {
                assert(kept@ + surviving(rest@, entry.target_key_id@, count) =~= k0 + surviving(
                    r0,
                    entry.target_key_id@,
                    count,
                ));
            }
        }
    }
    proof {
        assert(kept@ =~= surviving(orig, entry.target_key_id@, count));
        lemma_surviving_len(orig, entry.target_key_id@, count);
        lemma_surviving_keyed(orig, entry.target_key_id@, count);
    }
    let ghost sv = kept@;
    kept.push(entry);
    proof {
        assert forall|i: int, j: int| 0 <= i < j < kept@.len() implies #[trigger] kept@[i].target_key_id@
            != #[trigger] kept@[j].target_key_id@ by {
            if j == kept@.len() - 1 {
                assert(kept@[i] == sv[i]);
            } else {
                assert(kept@[i] == sv[i] && kept@[j] == sv[j]);
            }
        }
    }
    let ghost full = kept@;
    let len = kept.len();
    let out = if len > MAX_PENDING_COSCRUBS {
        let overflow = len - MAX_PENDING_COSCRUBS;
        kept.split_off(overflow)
    } else {
        kept
    };
    proof {
        assert(out@ =~= newest(full));
        assert forall|i: int, j: int| 0 <= i < j < out@.len() implies #[trigger] out@[i].target_key_id@
            != #[trigger] out@[j].target_key_id@ by {
            let off = full.len() - out@.len();
            assert(out@[i] == full[i + off] && out@[j] == full[j + off]);
        }
        assert(out@[out@.len() - 1] == full[full.len() - 1]);
    }
    out
}

/// Surviving an upsert never lengthens the store.
proof fn lemma_surviving_len<T>(s: Seq<PendingEntry<T>>, target: Seq<char>, count: usize)
    ensures
        surviving(s, target, count).len() <= s.len(),
    decreases s.len(),
{
    if s.len() > 0 {
        lemma_surviving_len(s.drop_first(), target, count);
    }
}

// ─── The scrubbers a co-scrub partial names ─────────────────────────────────

/// The scrubber ids a partial names: its own scrub, then the appended ones
/// that carry an id.
pub open spec fn named_scrubbers(first: Option<String>, additional: Seq<Option<String>>) -> Seq<Seq<char>>
    decreases additional.len(),
{
    if additional.len() == 0 {
        match first {
            Some(f) => seq![f@],
            None => Seq::empty(),
        }
    } else {
        let r = named_scrubbers(first, additional.drop_last());
        match additional.last() {
            Some(k) => r.push(k@),
            None => r,
        }
    }
}

/// The scrubbers of a co-scrub partial, sorted and de-duplicated (exact
/// texts, no trimming): every named id once, in text order.
pub fn coscrub_scrubbers(first: Option<String>, additional: &Vec<Option<String>>) -> (out: Vec<String>)
    ensures
        strictly_sorted(out@),
        views(out@).to_set() == named_scrubbers(first, additional@).to_set(),
{
    let mut ids: Vec<String> = Vec::new();
    match &first {
        Some(f) => ids.push(f.clone()),
        None => {},
    }
    proof {
        assert(views(ids@) =~= named_scrubbers(first, additional@.take(0)));
    }
    let n = additional.len();
    let mut i: usize = 0;
    while i < n
        invariant
            n == additional@.len(),
            0 <= i <= n,
            views(ids@) == named_scrubbers(first, additional@.take(i as int)),
        decreases n - i,
    {
        proof {
            assert(additional@.take(i + 1).drop_last() =~= additional@.take(i as int));
        }
        let ghost before = views(ids@);
        match &additional[i] {
            Some(k) => {
                ids.push(k.clone());
                proof {
                    assert(views(ids@) =~= before.push(k@));
                }
            },
            None => {},
        }
        i = i + 1;
    }
    proof {
        assert(additional@.take(n as int) =~= additional@);
    }
    sorted_distinct(ids.as_slice())
}

/// The texts in strict text order, each once.
pub fn sorted_distinct(xs: &[String]) -> (out: Vec<String>)
    ensures
        strictly_sorted(out@),
        views(out@).to_set() == views(xs@).to_set(),
{
    let sorted = sorted_ids(xs);
    proof {
        lemma_text_sort(views(xs@));
    }
    let ghost t = views(sorted@);
    let n = sorted.len();
    let mut out: Vec<String> = Vec::new();
    let mut i: usize = 0;
    while i < n
        invariant
            n == sorted@.len(),
            t == views(sorted@),
            sorted_texts(t),
            t.to_multiset() == views(xs@).to_multiset(),
            0 <= i <= n,
            out@.len() <= i,
            strictly_sorted(out@),
            views(out@).to_set() == t.take(i as int).to_set(),
            i > 0 ==> out@.len() > 0 && views(out@).last() == t[i - 1],
        decreases n - i,
    {
        let ghost before = views(out@);
        let dup = out.len() > 0 && text_eq(out[out.len() - 1].as_str(), sorted[i].as_str());
        if !dup {
            proof {
                if out@.len() > 0 {
                    assert(text_le(t[i - 1], t[i as int]));
                    crate::admin::lemma_text_less_total(t[i - 1], t[i as int]);
                    assert(text_less(t[i - 1], t[i as int]));
                    assert forall|a: int| 0 <= a < out@.len() implies text_less(#[trigger] out@[a]@, t[i as int]) by {
                        if a < out@.len() - 1 {
                            assert(text_less(out@[a]@, out@[out@.len() - 1]@));
                            crate::admin::lemma_text_less_transitive(out@[a]@, t[i - 1], t[i as int]);
                        }
                    }
                }
            }
            out.push(sorted[i].clone());
            proof {
                assert(views(out@) =~= before.push(t[i as int]));
                assert forall|a: int, b: int| 0 <= a < b < out@.len() implies text_less(#[trigger] out@[a]@, #[trigger] out@[b]@) by {
                    if b == out@.len() - 1 {
                        assert(out@[b]@ == t[i as int]);
                    }
                }
            }
        }
        proof {
            let pre = t.take(i as int);
            let post = t.take(i + 1);
            assert(post =~= pre.push(t[i as int]));
            assert(views(out@).to_set() =~= post.to_set()) by {
                assert forall|y: Seq<char>| views(out@).to_set().contains(y) <==> post.to_set().contains(y) by {
                    if views(out@).contains(y) {
                        let k = choose|k: int| 0 <= k < views(out@).len() && views(out@)[k] == y;
                        if !dup && k == views(out@).len() - 1 {
                            assert(post[i as int] == y);
                        } else {
                            assert(before[k] == y);
                            assert(before.contains(y));
                            assert(pre.to_set().contains(y));
                            let j = choose|j: int| 0 <= j < pre.len() && pre[j] == y;
                            assert(post[j] == y);
                        }
                    }
                    if post.contains(y) {
                        let j = choose|j: int| 0 <= j < post.len() && post[j] == y;
                        if j == i {
                            if dup {
                                assert(before[before.len() - 1] == y);
                                assert(views(out@)[before.len() - 1] == y);
                            } else {
                                assert(views(out@)[views(out@).len() - 1] == y);
                            }
                        } else {
                            assert(pre[j] == y);
                            assert(pre.contains(y));
                            assert(before.to_set().contains(y));
                            let k = choose|k: int| 0 <= k < before.len() && before[k] == y;
                            assert(views(out@)[k] == y);
                        }
                    }
                }
            }
        }
        i = i + 1;
    }
    proof {
        assert(t.take(n as int) =~= t);
        assert forall|y: Seq<char>| t.to_set().contains(y) <==> views(xs@).to_set().contains(y) by {
            broadcast use vstd::seq_lib::group_to_multiset_ensures;
            assert(t.contains(y) <==> t.to_multiset().count(y) > 0);
            assert(views(xs@).contains(y) <==> views(xs@).to_multiset().count(y) > 0);
        }
        assert(t.to_set() =~= views(xs@).to_set());
    }
    out
}

// ─── The status a refused destructive canonical op is answered with ─────────

/// `pat` occurs somewhere in `s`.
pub open spec fn mentions(s: Seq<char>, pat: Seq<char>) -> bool {
    first_match(s, pat, 0) is Some
}

/// The status for a store error's text: an authority, quorum or proposal
/// failure is the caller's (403), a withdrawn target a conflict (409),
/// anything else the server's (500); matched case-insensitively.
pub open spec fn destructive_status_code(error_text: Seq<char>) -> u16 {
    let k = lowercase_text(error_text);
    if mentions(k, "authority"@) || mentions(k, "quorum"@) || mentions(k, "proposal"@) {
        403
    } else if mentions(k, "withdrawn"@) {
        409
    } else {
        500
    }
}

/// Does `pat` occur in `s`?
fn text_mentions(s: &Vec<char>, pat: &str) -> (r: bool)
    ensures
        r == mentions(s@, pat@),
{
    let p = chars_of(pat);
    find_from(s, &p, 0).is_some()
}

/// Map a store error from a destructive canonical op (its text) to the HTTP
/// status it is answered with.
pub fn canonical_destructive_status(error_text: &str) -> (code: u16)
    ensures
        code == destructive_status_code(error_text@),
{
    let lower = to_lowercase(error_text);
    let k = chars_of(lower.as_str());
    if text_mentions(&k, "authority") || text_mentions(&k, "quorum") || text_mentions(&k, "proposal") {
        403
    } else if text_mentions(&k, "withdrawn") {
        409
    } else {
        500
    }
}

} // verus!
