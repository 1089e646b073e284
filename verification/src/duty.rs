//! Conferring a moderation duty from the accord: the rules a proposal must
//! meet before any holder signs, the checks a co-signature passes, the
//! distinct-holder count that decides adoption, and the one-line read-back of
//! what an adopted grant says.

use vstd::prelude::*;
use crate::commit::{distinct_text_count, holds_text};
use crate::prims::{
    decimal, owned, sha256_hex, sha256_hex_of, text_eq, trim, trim_spec, u64_text,
};
use crate::selection::{lemma_set_normal_form_unique, normalize_set, set_normal_form, trimmed_member, views};

verus! {

/// The global rail on a moderation delegation chain's depth.
pub const MAX_MODERATION_DELEGATION_DEPTH: u32 = 5;

/// Why a conferral step is refused.
#[derive(Debug, PartialEq, Eq)]
pub enum DutyRefusal {
    /// No duty survives trimming.
    NoDuty,
    /// A duty outside the substrate's vocabulary (the first, in text order).
    UnknownDuty { duty: String },
    /// No subject key id.
    NoSubject,
    /// A depth beyond the global rail.
    DepthOverRail { depth: u32 },
    /// A depth on a leaf grant.
    DepthWithoutDelegation,
    /// The holder's custody opened as a key other than the one stamped.
    HolderIdentityMismatch { stamped: String, opened: String },
    /// The partial's content hash does not match its envelope.
    PartialTampered,
    /// This holder already scrubbed the partial.
    AlreadySigned { holder: String },
}

impl DutyRefusal {
    /// The refusal's reason id.
    pub open spec fn reason_text(&self) -> Seq<char> {
        match self {
            DutyRefusal::NoDuty => "accord.duty.no_duty"@,
            DutyRefusal::UnknownDuty { .. } => "accord.duty.unknown_duty"@,
            DutyRefusal::NoSubject => "accord.duty.no_subject"@,
            DutyRefusal::DepthOverRail { .. } => "accord.duty.depth_over_rail"@,
            DutyRefusal::DepthWithoutDelegation => "accord.duty.depth_without_delegation"@,
            DutyRefusal::HolderIdentityMismatch { .. } => "accord.duty.holder_identity_mismatch"@,
            DutyRefusal::PartialTampered => "accord.duty.partial_tampered"@,
            DutyRefusal::AlreadySigned { .. } => "accord.duty.already_signed"@,
        }
    }

    /// The refusal's reason id.
    pub fn reason_id(&self) -> (s: &'static str)
        ensures
            s@ == self.reason_text(),
    {
        match self {
            DutyRefusal::NoDuty => "accord.duty.no_duty",
            DutyRefusal::UnknownDuty { .. } => "accord.duty.unknown_duty",
            DutyRefusal::NoSubject => "accord.duty.no_subject",
            DutyRefusal::DepthOverRail { .. } => "accord.duty.depth_over_rail",
            DutyRefusal::DepthWithoutDelegation => "accord.duty.depth_without_delegation",
            DutyRefusal::HolderIdentityMismatch { .. } => "accord.duty.holder_identity_mismatch",
            DutyRefusal::PartialTampered => "accord.duty.partial_tampered",
            DutyRefusal::AlreadySigned { .. } => "accord.duty.already_signed",
        }
    }

    /// The HTTP status the refusal is answered with: a conflict for the two
    /// identity clashes, a bad request otherwise.
    pub open spec fn status_code(&self) -> u16 {
        match self {
            DutyRefusal::HolderIdentityMismatch { .. } => 409,
            DutyRefusal::AlreadySigned { .. } => 409,
            _ => 400,
        }
    }

    /// The HTTP status the refusal is answered with.
    pub fn status(&self) -> (c: u16)
        ensures
            c == self.status_code(),
    {
        match self {
            DutyRefusal::HolderIdentityMismatch { .. } => 409,
            DutyRefusal::AlreadySigned { .. } => 409,
            _ => 400,
        }
    }
}

/// A conferral a holder may sign: the duty set in normal form, the trimmed
/// subject, and the sub-delegation bound.
#[derive(Debug)]
pub struct Conferral {
    pub duties: Vec<String>,
    pub subject: String,
    pub sub_delegation: bool,
    pub sub_delegation_depth: Option<u32>,
}

/// The duties a request names: the set plus the legacy singular spelling.
pub open spec fn requested_duties(duties: Seq<String>, duty: Option<String>) -> Seq<String> {
    match duty {
        Some(d) => duties.push(d),
        None => duties,
    }
}

/// The first member of `set` (in its order) that `conferrable` lacks.
pub open spec fn first_unknown(set: Seq<String>, conferrable: Seq<String>, from: int) -> Option<int>
    decreases set.len() - from,
    when from >= 0
{
    if from >= set.len() {
        None
    } else if !holds_text(conferrable, set[from]@) {
        Some(from)
    } else {
        first_unknown(set, conferrable, from + 1)
    }
}

/// A found unknown duty is a member of the set at or after `from`.
proof fn lemma_first_unknown(set: Seq<String>, conferrable: Seq<String>, from: int)
    requires
        from >= 0,
    ensures
        first_unknown(set, conferrable, from) matches Some(k) ==> from <= k < set.len(),
    decreases set.len() - from,
{
    if from < set.len() && holds_text(conferrable, set[from]@) {
        lemma_first_unknown(set, conferrable, from + 1);
    }
}

/// What a proposal's fields make, in the order they are checked: some duty,
/// every duty conferrable, a subject, a depth within the rail and only on a
/// delegable grant.
pub open spec fn proposal_verdict(
    set: Seq<String>,
    conferrable: Seq<String>,
    subject: Seq<char>,
    sub_delegation: bool,
    depth: Option<u32>,
    r: Result<Conferral, DutyRefusal>,
) -> bool {
    if set.len() == 0 {
        r == Err::<Conferral, DutyRefusal>(DutyRefusal::NoDuty)
    } else if first_unknown(set, conferrable, 0) is Some {
        r matches Err(DutyRefusal::UnknownDuty { duty }) && duty@ == set[first_unknown(
            set,
            conferrable,
            0,
        )->0]@
    } else if trim_spec(subject).len() == 0 {
        r == Err::<Conferral, DutyRefusal>(DutyRefusal::NoSubject)
    } else if depth matches Some(n) && n > MAX_MODERATION_DELEGATION_DEPTH {
        r == Err::<Conferral, DutyRefusal>(DutyRefusal::DepthOverRail { depth: depth->0 })
    } else if depth is Some && !sub_delegation {
        r == Err::<Conferral, DutyRefusal>(DutyRefusal::DepthWithoutDelegation)
    } else {
        r matches Ok(c) && c.duties@ == set && c.subject@ == trim_spec(subject) && c.sub_delegation
            == sub_delegation && c.sub_delegation_depth == depth
    }
}

/// Check a proposed conferral before any holder signs it. The duties (the set
/// plus the legacy singular) are trimmed, blanks dropped, sorted and
/// de-duplicated, so the signed bytes do not depend on the order the operator
/// ticked them; `conferrable` is the substrate's duty vocabulary.
pub fn validate_proposal(
    duties: &[String],
    duty: Option<String>,
    subject_key_id: &str,
    sub_delegation: bool,
    sub_delegation_depth: Option<u32>,
    conferrable: &[String],
) -> (r: Result<Conferral, DutyRefusal>)
    ensures
        exists|set: Seq<String>|
            set_normal_form(set, requested_duties(duties@, duty)) && #[trigger] proposal_verdict(
                set,
                conferrable@,
                subject_key_id@,
                sub_delegation,
                sub_delegation_depth,
                r,
            ),
{
    let mut all: Vec<String> = Vec::new();
    let n = duties.len();
    let mut i: usize = 0;
    while i < n
        invariant
            n == duties@.len(),
            0 <= i <= n,
            all@ == duties@.take(i as int),
        decreases n - i,
    {
        all.push(duties[i].clone());
        proof {
            assert(duties@.take(i + 1) =~= duties@.take(i as int).push(duties@[i as int]));
        }
        i = i + 1;
    }
    proof {
        assert(duties@.take(n as int) =~= duties@);
    }
    match duty {
        Some(d) => all.push(d),
        None => {},
    }
    assert(all@ == requested_duties(duties@, duty));
    let set = normalize_set(all.as_slice());
    let r = conferral_checks(set, conferrable, subject_key_id, sub_delegation, sub_delegation_depth);
    proof {
        assert(proposal_verdict(set@, conferrable@, subject_key_id@, sub_delegation, sub_delegation_depth, r));
    }
    r
}

/// Which member is the first unknown depends on the members' texts only.
proof fn lemma_first_unknown_by_text(s1: Seq<String>, s2: Seq<String>, conferrable: Seq<String>, from: int)
    requires
        views(s1) == views(s2),
        from >= 0,
    ensures
        first_unknown(s1, conferrable, from) == first_unknown(s2, conferrable, from),
    decreases s1.len() - from,
{
    assert(s1.len() == views(s1).len() && s2.len() == views(s2).len());
    if from < s1.len() {
        assert(s1[from]@ == views(s1)[from] && s2[from]@ == views(s2)[from]);
        lemma_first_unknown_by_text(s1, s2, conferrable, from + 1);
    }
}

/// Two answers to a proposal say the same: the same refusal (naming the same
/// unknown duty), or conferrals of the same duties to the same subject on the
/// same terms.
pub open spec fn same_proposal_answer(r1: Result<Conferral, DutyRefusal>, r2: Result<Conferral, DutyRefusal>) -> bool {
    match (r1, r2) {
        (Ok(c1), Ok(c2)) => views(c1.duties@) == views(c2.duties@) && c1.subject@ == c2.subject@
            && c1.sub_delegation == c2.sub_delegation && c1.sub_delegation_depth
            == c2.sub_delegation_depth,
        (Err(DutyRefusal::UnknownDuty { duty: a }), Err(DutyRefusal::UnknownDuty { duty: b })) => a@
            == b@,
        (Err(e1), Err(e2)) => e1 == e2 && !(e1 is UnknownDuty),
        _ => false,
    }
}

/// A proposal is answered by the duties it asks for, not by how they are
/// spelled: two requests whose duty lists (with the legacy singular) hold the
/// same non-blank trimmed duties, in any order, with any repeats, get the
/// same answer.
pub proof fn a_proposal_does_not_depend_on_how_its_duties_are_spelled(
    duties1: Seq<String>,
    duty1: Option<String>,
    duties2: Seq<String>,
    duty2: Option<String>,
    conferrable: Seq<String>,
    subject: Seq<char>,
    sub_delegation: bool,
    depth: Option<u32>,
    r1: Result<Conferral, DutyRefusal>,
    r2: Result<Conferral, DutyRefusal>,
)
    requires
        forall|y: Seq<char>|
            trimmed_member(requested_duties(duties1, duty1), y) <==> trimmed_member(
                requested_duties(duties2, duty2),
                y,
            ),
        exists|set: Seq<String>|
            set_normal_form(set, requested_duties(duties1, duty1)) && #[trigger] proposal_verdict(
                set,
                conferrable,
                subject,
                sub_delegation,
                depth,
                r1,
            ),
        exists|set: Seq<String>|
            set_normal_form(set, requested_duties(duties2, duty2)) && #[trigger] proposal_verdict(
                set,
                conferrable,
                subject,
                sub_delegation,
                depth,
                r2,
            ),
    ensures
        same_proposal_answer(r1, r2),
{
    let set1 = choose|set: Seq<String>|
        set_normal_form(set, requested_duties(duties1, duty1)) && #[trigger] proposal_verdict(
            set,
            conferrable,
            subject,
            sub_delegation,
            depth,
            r1,
        );
    let set2 = choose|set: Seq<String>|
        set_normal_form(set, requested_duties(duties2, duty2)) && #[trigger] proposal_verdict(
            set,
            conferrable,
            subject,
            sub_delegation,
            depth,
            r2,
        );
    lemma_set_normal_form_unique(
        set1,
        requested_duties(duties1, duty1),
        set2,
        requested_duties(duties2, duty2),
    );
    assert(set1.len() == views(set1).len() && set2.len() == views(set2).len());
    lemma_first_unknown_by_text(set1, set2, conferrable, 0);
    lemma_first_unknown(set1, conferrable, 0);
    match first_unknown(set1, conferrable, 0) {
        Some(k) => {
            assert(set1[k]@ == views(set1)[k] && set2[k]@ == views(set2)[k]);
        },
        None => {},
    }
}

/// The checks on a proposal's duty set (already in normal form) and the rest.
fn conferral_checks(
    set: Vec<String>,
    conferrable: &[String],
    subject_key_id: &str,
    sub_delegation: bool,
    sub_delegation_depth: Option<u32>,
) -> (r: Result<Conferral, DutyRefusal>)
    ensures
        proposal_verdict(set@, conferrable@, subject_key_id@, sub_delegation, sub_delegation_depth, r),
{
    let ghost full = set@;
    if set.len() == 0 {
        return Err(DutyRefusal::NoDuty);
    }
    let n = set.len();
    let mut k: usize = 0;
    while k < n
        invariant
            n == set@.len(),
            full == set@,
            0 <= k <= n,
            first_unknown(set@, conferrable@, 0) == first_unknown(set@, conferrable@, k as int),
        decreases n - k,
    {
        if !contains_text_in(conferrable, set[k].as_str()) {
            return Err(DutyRefusal::UnknownDuty { duty: set[k].clone() });
        }
        k = k + 1;
    }
    let subject = trim(subject_key_id);
    if subject.unicode_len() == 0 {
        return Err(DutyRefusal::NoSubject);
    }
    match sub_delegation_depth {
        Some(d) => {
            if d > MAX_MODERATION_DELEGATION_DEPTH {
                return Err(DutyRefusal::DepthOverRail { depth: d });
            }
            if !sub_delegation {
                return Err(DutyRefusal::DepthWithoutDelegation);
            }
        },
        None => {},
    }
    Ok(
        Conferral {
            duties: set,
            subject: owned(subject),
            sub_delegation,
            sub_delegation_depth,
        },
    )
}

/// Does the list hold the text?
fn contains_text_in(xs: &[String], x: &str) -> (r: bool)
    ensures
        r == holds_text(xs@, x@),
{
    let n = xs.len();
    let mut i: usize = 0;
    while i < n
        invariant
            n == xs@.len(),
            0 <= i <= n,
            forall|j: int| 0 <= j < i ==> #[trigger] xs@[j]@ != x@,
        decreases n - i,
    {
        if text_eq(xs[i].as_str(), x) {
            return true;
        }
        i = i + 1;
    }
    false
}

/// The holder whose custody signed must be the holder the conferral was
/// stamped for (trimmed): the attester is inside the signed bytes.
pub fn holder_identity_check(stamped_for: &str, opened_as: &str) -> (r: Result<(), DutyRefusal>)
    ensures
        trim_spec(stamped_for@) == opened_as@ ==> r is Ok,
        trim_spec(stamped_for@) != opened_as@ ==> (r matches Err(
            DutyRefusal::HolderIdentityMismatch { stamped, opened },
        ) && stamped@ == trim_spec(stamped_for@) && opened@ == opened_as@),
{
    let stamped = trim(stamped_for);
    if text_eq(opened_as, stamped) {
        Ok(())
    } else {
        Err(DutyRefusal::HolderIdentityMismatch { stamped: owned(stamped), opened: owned(opened_as) })
    }
}

/// A partial is intact when the lowercase-hex SHA-256 of its envelope's
/// canonical bytes is the content hash the first holder signed.
pub fn partial_intact(canonical: &[u8], original_content_hash: &str) -> (r: Result<(), DutyRefusal>)
    ensures
        sha256_hex(canonical@) == original_content_hash@ ==> r is Ok,
        sha256_hex(canonical@) != original_content_hash@ ==> r == Err::<(), DutyRefusal>(
            DutyRefusal::PartialTampered,
        ),
{
    let digest = sha256_hex_of(canonical);
    if text_eq(digest.as_str(), original_content_hash) {
        Ok(())
    } else {
        Err(DutyRefusal::PartialTampered)
    }
}

/// Every holder that has scrubbed a partial: the first scrub, then the
/// appended ones.
pub open spec fn scrubbers(first: Seq<char>, additional: Seq<String>) -> Seq<Seq<char>> {
    seq![first] + views(additional)
}

/// One seat signing twice is one seat: refuse a co-signature from a holder
/// that already scrubbed the partial.
pub fn cosign_check(holder: &str, first_scrub: &str, additional: &[String]) -> (r: Result<
    (),
    DutyRefusal,
>)
    ensures
        !scrubbers(first_scrub@, additional@).contains(holder@) ==> r is Ok,
        scrubbers(first_scrub@, additional@).contains(holder@) ==> (r matches Err(
            DutyRefusal::AlreadySigned { holder: h },
        ) && h@ == holder@),
{
    let listed = contains_text_in(additional, holder);
    proof {
        let all = scrubbers(first_scrub@, additional@);
        if holder@ == first_scrub@ {
            assert(all[0] == holder@);
        }
        if listed {
            let j = choose|j: int| 0 <= j < additional@.len() && #[trigger] additional@[j]@ == holder@;
            assert(all[j + 1] == holder@);
        }
        if all.contains(holder@) {
            let j = choose|j: int| 0 <= j < all.len() && all[j] == holder@;
            if j > 0 {
                assert(additional@[j - 1]@ == holder@);
            }
        }
    }
    if text_eq(holder, first_scrub) || listed {
        Err(DutyRefusal::AlreadySigned { holder: owned(holder) })
    } else {
        Ok(())
    }
}

/// How many distinct holders have scrubbed a partial.
pub fn distinct_scrubs(first_scrub: &str, additional: &[String]) -> (count: usize)
    ensures
        count == scrubbers(first_scrub@, additional@).to_set().len(),
{
    let mut ids: Vec<String> = Vec::new();
    ids.push(owned(first_scrub));
    proof {
        assert(views(ids@) =~= scrubbers(first_scrub@, additional@.take(0)));
    }
    let n = additional.len();
    let mut i: usize = 0;
    while i < n
        invariant
            n == additional@.len(),
            0 <= i <= n,
            views(ids@) == scrubbers(first_scrub@, additional@.take(i as int)),
        decreases n - i,
    {
        let ghost before = views(ids@);
        ids.push(additional[i].clone());
        proof {
            assert(additional@.take(i + 1) =~= additional@.take(i as int).push(additional@[i as int]));
            assert(views(additional@.take(i + 1)) =~= views(additional@.take(i as int)).push(
                additional@[i as int]@,
            ));
            assert(views(ids@) =~= before.push(additional@[i as int]@));
            assert(views(ids@) =~= scrubbers(first_scrub@, additional@.take(i + 1)));
        }
        i = i + 1;
    }
    proof {
        assert(additional@.take(n as int) =~= additional@);
    }
    distinct_text_count(ids.as_slice())
}

/// Whether a co-signed partial is adopted: at the family's quorum of distinct
/// holders (a quorum below one counts as one).
pub fn quorum_reached(distinct: usize, family_m: usize) -> (r: (bool, usize))
    ensures
        r.1 == if family_m < 1 { 1 } else { family_m },
        r.0 == (distinct >= r.1),
{
    let needed = if family_m < 1 { 1 } else { family_m };
    (distinct >= needed, needed)
}

/// The `scope` field of an adopted grant's envelope, as read: an array (each
/// member's text, where it is a string), a bare string, or anything else.
#[derive(Debug)]
pub enum ScopeField {
    Many(Vec<Option<String>>),
    One(String),
    Other,
}

/// Texts joined with a separator.
pub open spec fn joined(xs: Seq<Seq<char>>, sep: Seq<char>) -> Seq<char>
    decreases xs.len(),
{
    if xs.len() == 0 {
        Seq::empty()
    } else if xs.len() == 1 {
        xs[0]
    } else {
        joined(xs.drop_last(), sep) + sep + xs.last()
    }
}

/// The string members of an array, in order.
pub open spec fn string_members(xs: Seq<Option<String>>) -> Seq<Seq<char>>
    decreases xs.len(),
{
    if xs.len() == 0 {
        Seq::empty()
    } else {
        let r = string_members(xs.drop_last());
        match xs.last() {
            Some(s) => r.push(s@),
            None => r,
        }
    }
}

/// What the read-back says the grant confers: every scope, not the first.
pub open spec fn scope_text(scope: ScopeField) -> Seq<char> {
    match scope {
        ScopeField::Many(xs) => joined(string_members(xs@), " + "@),
        ScopeField::One(s) => s@,
        ScopeField::Other => "?"@,
    }
}

/// The sub-delegation contract's three states, for the operator.
pub open spec fn depth_text(sub_delegation: bool, depth: Option<u64>) -> Seq<char> {
    if !sub_delegation {
        "leaf — may act, may not pass it on"@
    } else {
        match depth {
            Some(n) => decimal(n as nat) + " further hop(s)"@,
            None => "bounded only by the rail (5)"@,
        }
    }
}

/// The read-back of an adopted grant.
pub open spec fn readback_text(scope: ScopeField, subject: Seq<char>, sub_delegation: bool, depth: Option<u64>) -> Seq<char> {
    scope_text(scope) + " conferred on "@ + subject + "; sub-delegation: "@ + depth_text(
        sub_delegation,
        depth,
    )
}

/// Join the string members of an array with ` + `.
fn join_members(xs: &Vec<Option<String>>) -> (s: String)
    ensures
        s@ == joined(string_members(xs@), " + "@),
{
    let n = xs.len();
    let mut s = String::new();
    let mut count: usize = 0;
    let mut i: usize = 0;
    proof {
        assert(xs@.take(0) =~= Seq::<Option<String>>::empty());
    }
    while i < n
        invariant
            n == xs@.len(),
            0 <= i <= n,
            count == string_members(xs@.take(i as int)).len(),
            count <= i,
            s@ == joined(string_members(xs@.take(i as int)), " + "@),
        decreases n - i,
    {
        proof {
            assert(xs@.take(i + 1).drop_last() =~= xs@.take(i as int));
        }
        match &xs[i] {
            Some(t) => {
                let ghost before = string_members(xs@.take(i as int));
                if count > 0 {
                    s.append(" + ");
                }
                s.append(t.as_str());
                proof {
                    reveal_strlit(" + ");
                    let after = before.push(t@);
                    assert(string_members(xs@.take(i + 1)) == after);
                    assert(after.drop_last() =~= before);
                    if count == 0 {
                        assert(s@ =~= joined(after, " + "@));
                    } else {
                        assert(s@ =~= joined(after, " + "@));
                    }
                }
                count = count + 1;
            },
            None => {},
        }
        i = i + 1;
    }
    proof {
        assert(xs@.take(n as int) =~= xs@);
    }
    s
}

/// The one-line read-back of what an adopted grant now says:
/// `"{duties} conferred on {subject}; sub-delegation: {depth}"`.
pub fn conferral_readback(scope: &ScopeField, subject: &str, sub_delegation: bool, depth: Option<u64>) -> (s: String)
    ensures
        s@ == readback_text(*scope, subject@, sub_delegation, depth),
{
    let mut s = match scope {
        ScopeField::Many(xs) => join_members(xs),
        ScopeField::One(t) => t.clone(),
        ScopeField::Other => owned("?"),
    };
    s.append(" conferred on ");
    s.append(subject);
    s.append("; sub-delegation: ");
    if !sub_delegation {
        s.append("leaf — may act, may not pass it on");
    } else {
        match depth {
            Some(n) => {
                let digits = u64_text(n);
                s.append(digits.as_str());
                s.append(" further hop(s)");
            },
            None => {
                s.append("bounded only by the rail (5)");
            },
        }
    }
    s
}

} // verus!
